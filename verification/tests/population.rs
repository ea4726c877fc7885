use evolve::dna::Dna;
use evolve::population::{
    breed, breed_pair, mutate_at, plan_mutations, with_scores, Population, PopulationParams,
    StepError,
};
use evolve::selection::{best_score, select, Scored};
use std::sync::atomic::{AtomicUsize, Ordering};
use std::sync::Mutex;

const GENES: usize = 6;

static MUTATIONS: AtomicUsize = AtomicUsize::new(0);
static NEXT_GENE: AtomicUsize = AtomicUsize::new(1);

/// A genome of six bytes. A fresh one repeats one byte, a different byte each
/// time; a mutation turns the first gene to 255.
#[derive(Clone, Debug, PartialEq)]
struct Bytes(Vec<u8>);

impl Dna<u8> for Bytes {
    fn serialize(&self) -> Box<[u8]> {
        self.0.clone().into_boxed_slice()
    }

    fn deserialize(dna: Box<[u8]>) -> Self {
        assert_eq!(dna.len(), GENES);
        Bytes(dna.into_vec())
    }

    fn mutate(&mut self) {
        self.0[0] = 255;
    }

    fn spawn() -> Self {
        let gene = NEXT_GENE.fetch_add(1, Ordering::SeqCst) % 200;
        Bytes(vec![gene as u8; GENES])
    }
}

/// A genome that counts the mutations made on genomes of its type.
#[derive(Clone, Debug, PartialEq)]
struct Counted(Vec<u8>);

impl Dna<u8> for Counted {
    fn serialize(&self) -> Box<[u8]> {
        self.0.clone().into_boxed_slice()
    }

    fn deserialize(dna: Box<[u8]>) -> Self {
        Counted(dna.into_vec())
    }

    fn mutate(&mut self) {
        MUTATIONS.fetch_add(1, Ordering::SeqCst);
    }

    fn spawn() -> Self {
        Counted(vec![7; 3])
    }
}

static NEXT_ID: AtomicUsize = AtomicUsize::new(0);
static SPAWNED: AtomicUsize = AtomicUsize::new(0);

/// A genome that carries a number of its own: every genome that is spawned or
/// decoded gets the next one, and a mutation leaves it alone.
#[derive(Debug)]
struct Tagged {
    id: usize,
    genes: Vec<u8>,
}

impl Dna<u8> for Tagged {
    fn serialize(&self) -> Box<[u8]> {
        self.genes.clone().into_boxed_slice()
    }

    fn deserialize(dna: Box<[u8]>) -> Self {
        Tagged { id: NEXT_ID.fetch_add(1, Ordering::SeqCst), genes: dna.into_vec() }
    }

    fn mutate(&mut self) {
        self.genes[0] ^= 1;
    }

    fn spawn() -> Self {
        SPAWNED.fetch_add(1, Ordering::SeqCst);
        Tagged { id: NEXT_ID.fetch_add(1, Ordering::SeqCst), genes: vec![0; 2] }
    }
}

#[test]
fn the_highest_ids_survive_in_falling_order() {
    let mut pop = Population::<Tagged, u8>::default();
    let first = NEXT_ID.load(Ordering::SeqCst);
    let best = pop.step(&params(10, 4, 0..3), |g| g.id).unwrap();
    let ids: Vec<usize> = pop.individuals().iter().map(|g| g.id).collect();
    assert_eq!(ids, vec![first + 9, first + 8, first + 7, first + 6]);
    assert_eq!(best, first + 9);
    assert_eq!(pop.best().id, first + 9);
    assert_eq!(SPAWNED.load(Ordering::SeqCst), 4);

    let best = pop.step(&params(10, 4, 0..3), |g| g.id).unwrap();
    let ids: Vec<usize> = pop.individuals().iter().map(|g| g.id).collect();
    assert_eq!(ids, vec![first + 15, first + 14, first + 13, first + 12]);
    assert_eq!(best, first + 15);
    assert_eq!(SPAWNED.load(Ordering::SeqCst), 4);
}

#[test]
fn equal_scores_keep_children_before_the_elite() {
    let mut pop = Population::<Bytes, u8>::default();
    pop.step(&params(3, 3, 0..1), |_| 0).unwrap();
    let elite = pop.individuals().clone();
    pop.step(&params(5, 3, 0..1), |_| 0).unwrap();
    assert_eq!(pop.individuals()[2], elite[0]);
}

fn sum(genome: &Bytes) -> usize {
    genome.0.iter().map(|g| *g as usize).sum()
}

fn params(
    total_size: usize,
    elite_size: usize,
    mutate: std::ops::Range<usize>,
) -> PopulationParams {
    PopulationParams { total_size, elite_size, mutate }
}

#[test]
fn step_keeps_the_elite_size() {
    for (total, elite) in [(10, 4), (4, 4), (1, 1), (50, 7)] {
        let mut pop = Population::<Bytes, u8>::default();
        for _ in 0..3 {
            pop.step(&params(total, elite, 0..3), sum).unwrap();
            assert_eq!(pop.len(), elite);
            assert_eq!(pop.individuals().len(), elite);
        }
    }
}

#[test]
fn first_step_pads_an_empty_population() {
    let mut pop = Population::<Bytes, u8>::default();
    assert_eq!(pop.len(), 0);
    let seen = Mutex::new(0usize);
    pop.step(&params(5, 5, 0..1), |g| {
        *seen.lock().unwrap() += 1;
        sum(g)
    })
    .unwrap();
    assert_eq!(pop.len(), 5);
    assert_eq!(*seen.lock().unwrap(), 5);
    for genome in pop.individuals() {
        assert!(genome.0.iter().all(|g| *g == genome.0[0]));
    }

    let mut pop = Population::<Bytes, u8>::default();
    pop.step(&params(12, 5, 0..1), sum).unwrap();
    assert_eq!(pop.len(), 5);
}

#[test]
fn constant_fitness_gives_the_constant() {
    let mut pop = Population::<Bytes, u8>::default();
    for _ in 0..5 {
        assert_eq!(pop.step(&params(20, 5, 1..4), |_| 42), Ok(42));
    }
}

#[test]
fn step_keeps_the_highest_scores_in_falling_order() {
    let mut pop = Population::<Bytes, u8>::default();
    for _ in 0..4 {
        let seen = Mutex::new(Vec::new());
        let best = pop
            .step(&params(10, 4, 0..5), |g| {
                let s = sum(g);
                seen.lock().unwrap().push(s);
                s
            })
            .unwrap();
        let mut reference = seen.into_inner().unwrap();
        assert_eq!(reference.len(), 10);
        reference.sort_by(|a, b| b.cmp(a));
        let kept: Vec<usize> = pop.individuals().iter().map(sum).collect();
        assert_eq!(kept, reference[..4].to_vec());
        assert_eq!(best, reference[0]);
        assert_eq!(sum(pop.best()), best);
    }
}

#[test]
fn every_individual_is_scored_once() {
    let mut pop = Population::<Bytes, u8>::default();
    let calls = AtomicUsize::new(0);
    pop.step(&params(9000, 16, 0..1), |g| {
        calls.fetch_add(1, Ordering::SeqCst);
        sum(g)
    })
    .unwrap();
    assert_eq!(calls.load(Ordering::SeqCst), 9000);
    assert_eq!(pop.len(), 16);
}

#[test]
fn mutation_count_lies_in_the_range() {
    let mut pop = Population::<Counted, u8>::default();
    for _ in 0..20 {
        let before = MUTATIONS.load(Ordering::SeqCst);
        pop.step(&params(12, 3, 2..6), |_| 1).unwrap();
        let made = MUTATIONS.load(Ordering::SeqCst) - before;
        assert!((2..6).contains(&made));
    }
}

#[test]
fn genomes_keep_the_genotype_length() {
    let mut pop = Population::<Bytes, u8>::default();
    for _ in 0..5 {
        pop.step(&params(30, 6, 0..10), sum).unwrap();
        for genome in pop.individuals() {
            assert_eq!(genome.serialize().len(), GENES);
        }
    }
}

#[test]
fn a_larger_population_is_cut_to_the_elite() {
    let mut pop = Population::<Bytes, u8>::default();
    pop.step(&params(8, 8, 0..1), sum).unwrap();
    let leaders: Vec<Bytes> = pop.individuals()[..2].to_vec();
    pop.step(&params(2, 2, 0..1), sum).unwrap();
    assert_eq!(pop.individuals(), &leaders);
}

#[test]
fn step_refuses_an_elite_of_zero() {
    let mut pop = Population::<Bytes, u8>::default();
    assert_eq!(pop.step(&params(10, 0, 0..3), sum), Err(StepError::NoElite));
    assert_eq!(pop.step(&params(0, 0, 3..3), sum), Err(StepError::NoElite));
    assert_eq!(pop.len(), 0);
}

#[test]
fn step_refuses_a_generation_below_the_elite() {
    let mut pop = Population::<Bytes, u8>::default();
    pop.step(&params(6, 3, 0..1), sum).unwrap();
    let before = pop.individuals().clone();
    assert_eq!(pop.step(&params(3, 4, 0..3), sum), Err(StepError::TotalBelowElite));
    assert_eq!(pop.step(&params(3, 4, 3..3), sum), Err(StepError::TotalBelowElite));
    assert_eq!(pop.individuals(), &before);
}

#[test]
fn step_refuses_an_empty_mutation_range() {
    let mut pop = Population::<Bytes, u8>::default();
    assert_eq!(pop.step(&params(10, 4, 3..3), sum), Err(StepError::NoMutationCount));
    assert_eq!(pop.step(&params(10, 4, 5..2), sum), Err(StepError::NoMutationCount));
    assert_eq!(pop.len(), 0);
}

#[test]
fn validate_names_the_first_fault() {
    assert_eq!(params(10, 4, 0..1).validate(), Ok(()));
    assert_eq!(params(4, 4, 7..8).validate(), Ok(()));
    assert_eq!(params(10, 0, 0..1).validate(), Err(StepError::NoElite));
    assert_eq!(params(3, 4, 0..1).validate(), Err(StepError::TotalBelowElite));
    assert_eq!(params(10, 4, 1..1).validate(), Err(StepError::NoMutationCount));
}

#[test]
fn select_ranks_by_score_and_then_by_place() {
    let scored = |pairs: &[(usize, char)]| -> Vec<Scored<char>> {
        pairs.iter().map(|&(score, specimen)| Scored { score, specimen }).collect()
    };
    let entries = [(3, 'a'), (5, 'b'), (1, 'c'), (5, 'd'), (4, 'e'), (3, 'f')];
    assert_eq!(select(scored(&entries), 0), Vec::<char>::new());
    assert_eq!(select(scored(&entries), 1), vec!['b']);
    assert_eq!(select(scored(&entries), 2), vec!['b', 'd']);
    assert_eq!(select(scored(&entries), 4), vec!['b', 'd', 'e', 'a']);
    assert_eq!(select(scored(&entries), 6), vec!['b', 'd', 'e', 'a', 'f', 'c']);
    assert_eq!(select(scored(&entries), 9), vec!['b', 'd', 'e', 'a', 'f', 'c']);
    assert_eq!(select(scored(&[]), 3), Vec::<char>::new());
}

#[test]
fn select_agrees_with_a_stable_sort() {
    let mut state: usize = 12345;
    for round in 0..50 {
        let n = round % 17;
        let mut entries = Vec::new();
        for place in 0..n {
            state = state.wrapping_mul(6364136223846793005).wrapping_add(1442695040888963407);
            entries.push(((state >> 33) % 5, place));
        }
        let mut reference = entries.clone();
        reference.sort_by(|a, b| b.0.cmp(&a.0));
        for keep in 0..n + 2 {
            let scored: Vec<Scored<usize>> = entries
                .iter()
                .map(|&(score, specimen)| Scored { score, specimen })
                .collect();
            let expected: Vec<usize> = reference.iter().take(keep).map(|e| e.1).collect();
            assert_eq!(select(scored, keep), expected);
        }
    }
}

#[test]
fn best_score_is_the_highest() {
    let scored = |scores: &[usize]| -> Vec<Scored<()>> {
        scores.iter().map(|&score| Scored { score, specimen: () }).collect()
    };
    assert_eq!(best_score(&scored(&[])), 0);
    assert_eq!(best_score(&scored(&[0])), 0);
    assert_eq!(best_score(&scored(&[3, 9, 2, 9, 1])), 9);
    assert_eq!(best_score(&scored(&[usize::MAX, 1])), usize::MAX);
}

#[test]
fn with_scores_pairs_place_by_place() {
    let scored = with_scores(vec!['x', 'y', 'z'], &vec![7, 0, 9]);
    let pairs: Vec<(usize, char)> = scored.iter().map(|s| (s.score, s.specimen)).collect();
    assert_eq!(pairs, vec![(7, 'x'), (0, 'y'), (9, 'z')]);
    assert_eq!(with_scores(Vec::<char>::new(), &vec![]).len(), 0);
}

#[test]
fn scores_stay_with_their_genomes() {
    let mut pop = Population::<Bytes, u8>::default();
    for _ in 0..3 {
        let seen = Mutex::new(Vec::new());
        pop.step(&params(9000, 5, 0..4), |g| {
            let s = sum(g) * 1000 + g.0[5] as usize;
            seen.lock().unwrap().push(s);
            s
        })
        .unwrap();
        let mut reference = seen.into_inner().unwrap();
        reference.sort_by(|a, b| b.cmp(a));
        let kept: Vec<usize> =
            pop.individuals().iter().map(|g| sum(g) * 1000 + g.0[5] as usize).collect();
        assert_eq!(kept, reference[..5].to_vec());
    }
}

#[test]
fn breed_pair_crosses_the_named_parents() {
    let parents = vec![Bytes(vec![1; GENES]), Bytes(vec![2; GENES]), Bytes(vec![3; GENES])];
    for _ in 0..30 {
        let child = breed_pair(&parents, 0, 2);
        assert_eq!(child.0.len(), GENES);
        assert!(child.0.iter().all(|g| *g == 1 || *g == 3));
        assert_eq!(breed_pair(&parents, 1, 1), Bytes(vec![2; GENES]));
    }
}

#[test]
fn breed_crosses_two_of_the_parents() {
    let parents = vec![Bytes(vec![1; GENES]), Bytes(vec![2; GENES])];
    for _ in 0..30 {
        let child = breed(&parents);
        assert_eq!(child.0.len(), GENES);
        assert!(child.0.iter().all(|g| *g == 1 || *g == 2));
    }
    assert_eq!(breed(&vec![Bytes(vec![9; GENES])]), Bytes(vec![9; GENES]));
}

#[test]
fn plan_mutations_draws_within_the_bounds() {
    let mut counts = [false; 3];
    for _ in 0..200 {
        let targets = plan_mutations(&(4..7), 5);
        assert!((4..7).contains(&targets.len()));
        assert!(targets.iter().all(|t| *t < 5));
        counts[targets.len() - 4] = true;
    }
    assert_eq!(counts, [true; 3]);
    assert_eq!(plan_mutations(&(0..1), 1), Vec::<usize>::new());
    assert_eq!(plan_mutations(&(3..4), 1), vec![0, 0, 0]);
}

#[test]
fn mutate_at_mutates_the_named_genomes_only() {
    let mut generation = vec![Bytes(vec![1; GENES]), Bytes(vec![2; GENES]), Bytes(vec![3; GENES])];
    mutate_at(&mut generation, &vec![2, 0, 2]);
    assert_eq!(generation[0].0, vec![255, 1, 1, 1, 1, 1]);
    assert_eq!(generation[1].0, vec![2; GENES]);
    assert_eq!(generation[2].0, vec![255, 3, 3, 3, 3, 3]);
    mutate_at(&mut generation, &vec![]);
    assert_eq!(generation[1].0, vec![2; GENES]);
}

#[test]
fn best_is_the_first_individual() {
    let mut pop = Population::<Bytes, u8>::default();
    let best = pop.step(&params(12, 3, 0..2), sum).unwrap();
    assert_eq!(pop.best(), &pop.individuals()[0]);
    assert_eq!(sum(pop.best()), best);
}
