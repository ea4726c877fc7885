//! The population and the step that takes it from one generation to the
//! next: pad the elite, breed, mutate, score, keep the best.

use crate::dna::{is_crossing, Dna};
use crate::parallel::generate_in_parallel;
use crate::random::draw;
use crate::selection::{
    best_score, chosen, is_highest, lemma_first_is_highest, lemma_ranking_ranks, scores_of,
    select, Scored,
};
use rand::rngs::ThreadRng;
use std::marker::PhantomData;
use std::ops::Range;
use vstd::prelude::*;

verus! {

/// The least number of individuals that one job of the worker pool scores.
pub const SCORING_BATCH: usize = 8192;

/// The sizes of a generation.
pub struct PopulationParams {
    /// The number of individuals that are scored in a generation.
    pub total_size: usize,
    /// The number of individuals that survive a generation.
    pub elite_size: usize,
    /// The range from which the number of mutations of a generation is drawn.
    pub mutate: Range<usize>,
}

/// Why a step was refused.
#[derive(Clone, Copy, Debug, PartialEq, Eq, Structural)]
pub enum StepError {
    /// No individual would survive.
    NoElite,
    /// Fewer individuals would be scored than survive.
    TotalBelowElite,
    /// The range of the number of mutations holds no number.
    NoMutationCount,
}

impl PopulationParams {
    /// What is wrong with the parameters, if anything. An elite of zero is
    /// named first, then a generation smaller than the elite, then an empty
    /// range.
    pub open spec fn fault(&self) -> Option<StepError> {
        if self.elite_size == 0 {
            Some(StepError::NoElite)
        } else if self.total_size < self.elite_size {
            Some(StepError::TotalBelowElite)
        } else if self.mutate.start >= self.mutate.end {
            Some(StepError::NoMutationCount)
        } else {
            None
        }
    }

    /// Checks the parameters.
    pub fn validate(&self) -> (checked: Result<(), StepError>)
        ensures
            checked == match self.fault() {
                Some(e) => Err::<(), StepError>(e),
                None => Ok(()),
            },
    {
        if self.elite_size == 0 {
            Err(StepError::NoElite)
        } else if self.total_size < self.elite_size {
            Err(StepError::TotalBelowElite)
        } else if self.mutate.start >= self.mutate.end {
            Err(StepError::NoMutationCount)
        } else {
            Ok(())
        }
    }
}

/// The encoding of `genome` has the length of its genotype.
pub open spec fn has_genotype<P: Dna<T>, T: Clone>(genome: P) -> bool {
    genome.genes().len() == P::genotype_len()
}

/// Every genome of `genomes` has an encoding of the genotype's length.
pub open spec fn all_have_genotype<P: Dna<T>, T: Clone>(genomes: Seq<P>) -> bool {
    forall|i: int| 0 <= i < genomes.len() ==> has_genotype::<P, T>(#[trigger] genomes[i])
}

/// `child` was bred from two of `parents`: its encoding is a crossing of
/// theirs.
pub open spec fn is_bred_from<P: Dna<T>, T: Clone>(parents: Seq<P>, child: P) -> bool {
    exists|i: int, j: int|
        0 <= i < parents.len() && 0 <= j < parents.len() && #[trigger] is_crossing(
            parents[i].genes(),
            parents[j].genes(),
            child.genes(),
        )
}

/// `after` is `before` brought to `size` genomes: those that `before` has
/// too many are cut off its end, those that it lacks are spawned.
pub open spec fn is_padded<P: Dna<T>, T: Clone>(before: Seq<P>, size: int, after: Seq<P>) -> bool {
    &&& after.len() == size
    &&& forall|i: int| 0 <= i < size && i < before.len() ==> #[trigger] after[i] == before[i]
    &&& forall|i: int|
        before.len() <= i < size ==> call_ensures(P::spawn, (), #[trigger] after[i])
            && has_genotype::<P, T>(after[i])
}

/// Some entry of `targets` names the index `j`.
pub open spec fn is_named(targets: Seq<usize>, j: int) -> bool {
    exists|t: int| 0 <= t < targets.len() && #[trigger] targets[t] == j
}

/// `after` is `before` after one mutation of the genome at `target`: that
/// genome is what a mutation can make of it, and the others are unchanged.
pub open spec fn is_mutated_at<P: Dna<T>, T: Clone>(
    before: Seq<P>,
    target: int,
    after: Seq<P>,
) -> bool {
    &&& 0 <= target < before.len()
    &&& after.len() == before.len()
    &&& before[target].mutates_to(&after[target])
    &&& has_genotype::<P, T>(after[target])
    &&& forall|j: int| 0 <= j < before.len() && j != target ==> #[trigger] after[j] == before[j]
}

/// `after` is `before` after one mutation for each entry of `targets`, made
/// in the order of the entries on the genomes that they name.
pub open spec fn is_mutated<P: Dna<T>, T: Clone>(
    before: Seq<P>,
    targets: Seq<usize>,
    after: Seq<P>,
) -> bool
    decreases targets.len(),
{
    if targets.len() == 0 {
        after == before
    } else {
        exists|mid: Seq<P>|
            is_mutated::<P, T>(before, targets.drop_last(), mid) && #[trigger] is_mutated_at::<
                P,
                T,
            >(mid, targets.last() as int, after)
    }
}

/// Mutations change the genomes that are named, and no others; and they
/// leave every genome with an encoding of the genotype's length that had one.
pub proof fn lemma_mutated_elsewhere<P: Dna<T>, T: Clone>(
    before: Seq<P>,
    targets: Seq<usize>,
    after: Seq<P>,
)
    requires
        is_mutated::<P, T>(before, targets, after),
    ensures
        after.len() == before.len(),
        forall|j: int|
            0 <= j < before.len() && !is_named(targets, j) ==> #[trigger] after[j] == before[j],
        all_have_genotype::<P, T>(before) ==> all_have_genotype::<P, T>(after),
    decreases targets.len(),
{
    if targets.len() > 0 {
        let front = targets.drop_last();
        let mid = choose|mid: Seq<P>|
            is_mutated::<P, T>(before, front, mid) && #[trigger] is_mutated_at::<P, T>(
                mid,
                targets.last() as int,
                after,
            );
        lemma_mutated_elsewhere::<P, T>(before, front, mid);
    }
}

/// `scored` pairs each genome of `generation`, in its order, with a score
/// that `test` gave it.
pub open spec fn is_scoring<P, F: Fn(&P) -> usize>(
    test: F,
    generation: Seq<P>,
    scored: Seq<Scored<P>>,
) -> bool {
    &&& scored.len() == generation.len()
    &&& forall|i: int|
        0 <= i < generation.len() ==> (#[trigger] scored[i]).specimen == generation[i]
            && call_ensures(test, (&generation[i],), scored[i].score)
}

/// `test` gives every genome the score `constant`.
pub open spec fn always_scores<P, F: Fn(&P) -> usize>(test: F, constant: usize) -> bool {
    forall|genome: P, score: usize| #[trigger]
        call_ensures(test, (&genome,), score) ==> score == constant
}

/// One genome bred from the parents at `i` and `j`: both are encoded, the
/// encodings are crossed, and the crossing is decoded.
pub fn breed_pair<P, T>(parents: &Vec<P>, i: usize, j: usize) -> (child: P) where
    P: Dna<T>,
    T: Clone,

    requires
        i < parents@.len(),
        j < parents@.len(),
    ensures
        is_crossing(parents@[i as int].genes(), parents@[j as int].genes(), child.genes()),
        has_genotype::<P, T>(child),
{
    let a = parents[i].serialize();
    let b = parents[j].serialize();
    P::deserialize(P::mix(&a, &b))
}

/// One genome bred from two of `parents`, each drawn at random; the same
/// parent may be drawn twice.
pub fn breed<P, T>(parents: &Vec<P>) -> (child: P) where P: Dna<T>, T: Clone
    requires
        parents@.len() > 0,
    ensures
        is_bred_from(parents@, child),
        has_genotype::<P, T>(child),
{
    let mut rng: ThreadRng = rand::thread_rng();
    let len = parents.len();
    let i = draw(&mut rng, 0, len);
    let j = draw(&mut rng, 0, len);
    breed_pair(parents, i, j)
}

/// Draws the number of mutations of a generation from `count`, and for each
/// of them the index, below `size`, of the genome that it falls on. A genome
/// may be named more than once.
pub fn plan_mutations(count: &Range<usize>, size: usize) -> (targets: Vec<usize>)
    requires
        count.start < count.end,
        size > 0,
    ensures
        count.start <= targets@.len() < count.end,
        forall|t: int| 0 <= t < targets@.len() ==> #[trigger] targets@[t] < size,
{
    let mut rng: ThreadRng = rand::thread_rng();
    let events = draw(&mut rng, count.start, count.end);
    let mut targets: Vec<usize> = Vec::new();
    while targets.len() < events
        invariant
            targets@.len() <= events,
            size > 0,
            forall|t: int| 0 <= t < targets@.len() ==> #[trigger] targets@[t] < size,
        decreases events - targets@.len(),
    {
        let target = draw(&mut rng, 0, size);
        targets.push(target);
    }
    targets
}

/// Mutates the genomes that `targets` names, once for each entry, in the
/// order of the entries.
pub fn mutate_at<P, T>(generation: &mut Vec<P>, targets: &Vec<usize>) where P: Dna<T>, T: Clone
    requires
        forall|t: int| 0 <= t < targets@.len() ==> #[trigger] targets@[t] < old(generation)@.len(),
    ensures
        is_mutated::<P, T>(old(generation)@, targets@, final(generation)@),
{
    let mut done: usize = 0;
    while done < targets.len()
        invariant
            done <= targets@.len(),
            forall|t: int| 0 <= t < targets@.len() ==> #[trigger] targets@[t] < generation@.len(),
            is_mutated::<P, T>(old(generation)@, targets@.take(done as int), generation@),
        decreases targets@.len() - done,
    {
        let target = targets[done];
        let ghost mid = generation@;
        generation[target].mutate();
        proof {
            let now = targets@.take(done + 1);
            assert(now.drop_last() =~= targets@.take(done as int));
            assert(now.last() == target);
            assert(is_mutated_at::<P, T>(mid, target as int, generation@));
        }
        done += 1;
    }
    assert(targets@.take(targets@.len() as int) =~= targets@);
}

/// Pairs each genome of `generation` with the score at its place in
/// `scores`.
pub fn with_scores<P>(generation: Vec<P>, scores: &Vec<usize>) -> (scored: Vec<Scored<P>>)
    requires
        scores@.len() == generation@.len(),
    ensures
        scored@.len() == generation@.len(),
        forall|i: int|
            0 <= i < generation@.len() ==> #[trigger] scored@[i] == (Scored {
                score: scores@[i],
                specimen: generation@[i],
            }),
{
    let ghost all = generation@;
    let mut scored: Vec<Scored<P>> = Vec::with_capacity(scores.len());
    for specimen in it: generation.into_iter()
        invariant
            it.seq() == all,
            scores@.len() == all.len(),
            scored@.len() == it.index(),
            forall|i: int|
                0 <= i < it.index() ==> #[trigger] scored@[i] == (Scored {
                    score: scores@[i],
                    specimen: all[i],
                }),
    {
        let score = scores[scored.len()];
        scored.push(Scored { score, specimen });
    }
    scored
}

/// What one step makes of a population. `elites` is the population brought
/// to the elite's size, `children` are bred from it, `targets` names the
/// genomes that a mutation falls on, `generation` is children and elites
/// after the mutations, and `scored` is the generation with its scores.
pub open spec fn is_step_trace<P: Dna<T>, T: Clone, F: Fn(&P) -> usize>(
    before: Seq<P>,
    params: PopulationParams,
    test: F,
    elites: Seq<P>,
    children: Seq<P>,
    targets: Seq<usize>,
    generation: Seq<P>,
    scored: Seq<Scored<P>>,
) -> bool {
    &&& is_padded::<P, T>(before, params.elite_size as int, elites)
    &&& children.len() == params.total_size - params.elite_size
    &&& forall|i: int|
        0 <= i < children.len() ==> is_bred_from::<P, T>(elites, #[trigger] children[i])
    &&& params.mutate.start <= targets.len() < params.mutate.end
    &&& forall|t: int| 0 <= t < targets.len() ==> #[trigger] targets[t] < params.total_size
    &&& is_mutated::<P, T>(children + elites, targets, generation)
    &&& is_scoring(test, generation, scored)
}

/// `after` and `best` are what a step with `params` and `test` can make of
/// the population `before`: `after` holds the best of a generation that was
/// bred from `before`, mutated and scored, and `best` is the highest score of
/// that generation.
pub open spec fn is_step<P: Dna<T>, T: Clone, F: Fn(&P) -> usize>(
    before: Seq<P>,
    params: PopulationParams,
    test: F,
    after: Seq<P>,
    best: usize,
) -> bool {
    exists|
        elites: Seq<P>,
        children: Seq<P>,
        targets: Seq<usize>,
        generation: Seq<P>,
        scored: Seq<Scored<P>>,
    |
        {
            &&& #[trigger] is_step_trace::<P, T, F>(
                before,
                params,
                test,
                elites,
                children,
                targets,
                generation,
                scored,
            )
            &&& after == chosen(scored, params.elite_size as int)
            &&& is_highest(scores_of(scored), best)
        }
}

/// The individuals that have survived the last generation, best first.
pub struct Population<P, T>(Vec<P>, PhantomData<T>) where P: Dna<T>, T: Clone;

impl<P, T> View for Population<P, T> where P: Dna<T>, T: Clone {
    type V = Seq<P>;

    closed spec fn view(&self) -> Seq<P> {
        self.0@
    }
}

impl<P, T> Population<P, T> where P: Dna<T> + Send + Sync, T: Clone + Send {
    /// Every individual has an encoding of the genotype's length.
    pub open spec fn wf(&self) -> bool {
        all_have_genotype::<P, T>(self@)
    }

    /// Brings the population to `size` individuals: cuts those off its end
    /// that it has too many, and spawns those that it lacks.
    fn pad(&mut self, size: usize)
        requires
            old(self).wf(),
        ensures
            final(self).wf(),
            is_padded::<P, T>(old(self)@, size as int, final(self)@),
    {
        self.0.truncate(size);
        while self.0.len() < size
            invariant
                self.0@.len() <= size,
                old(self)@.len() <= self.0@.len() || size <= self.0@.len(),
                self.wf(),
                forall|i: int|
                    0 <= i < self.0@.len() && i < old(self)@.len() ==> #[trigger] self.0@[i] == old(
                        self,
                    )@[i],
                forall|i: int|
                    old(self)@.len() <= i < self.0@.len() ==> call_ensures(
                        P::spawn,
                        (),
                        #[trigger] self.0@[i],
                    ),
            decreases size - self.0@.len(),
        {
            self.0.push(P::spawn());
        }
    }

    /// Takes the population through one generation.
    ///
    /// The population is brought to the elite's size. Children are bred
    /// from it until children and elite together make a generation. A number
    /// of mutations, drawn from `params.mutate`, falls on genomes of the
    /// generation drawn at random. `test` scores every genome once. The best
    /// `params.elite_size` of them become the population, best first; of two
    /// with the same score, children stand before the elite.
    ///
    /// Returns the highest score of the generation, or the fault of `params`,
    /// in which case the population is untouched.
    pub fn step<F>(&mut self, params: &PopulationParams, test: F) -> (outcome: Result<
        usize,
        StepError,
    >) where F: Fn(&P) -> usize + Sync
        requires
            old(self).wf(),
            forall|genome: P| has_genotype::<P, T>(genome) ==> call_requires(test, (&genome,)),
        ensures
            final(self).wf(),
            match outcome {
                Err(e) => params.fault() == Some(e) && final(self)@ == old(self)@,
                Ok(best) => {
                    &&& params.fault() is None
                    &&& is_step::<P, T, F>(old(self)@, *params, test, final(self)@, best)
                    &&& final(self)@.len() == params.elite_size
                    &&& call_ensures(test, (&final(self)@[0],), best)
                    &&& forall|constant: usize| #[trigger]
                        always_scores::<P, F>(test, constant) ==> best == constant
                },
            },
    {
        match params.validate() {
            Err(e) => {
                return Err(e);
            },
            Ok(_) => {},
        }
        self.pad(params.elite_size);
        let ghost elites = self@;
        let parents = &self.0;
        let breed_one = |_child: usize| -> (child: P)
            ensures
                is_bred_from::<P, T>(parents@, child),
                has_genotype::<P, T>(child),
            { breed(parents) };
        let mut generation: Vec<P> = generate_in_parallel(
            params.total_size - params.elite_size,
            1,
            breed_one,
        );
        let ghost children = generation@;
        generation.append(&mut self.0);
        let ghost bred = generation@;
        let targets = plan_mutations(&params.mutate, params.total_size);
        mutate_at(&mut generation, &targets);
        let ghost mutated = generation@;
        proof {
            lemma_mutated_elsewhere::<P, T>(bred, targets@, mutated);
        }
        let fitness = &test;
        let specimens = &generation;
        let score_one = |place: usize| -> (score: usize)
            requires
                place < specimens@.len(),
            ensures
                call_ensures(*fitness, (&specimens@[place as int],), score),
            { fitness(&specimens[place]) };
        let scores: Vec<usize> = generate_in_parallel(params.total_size, SCORING_BATCH, score_one);
        let scored: Vec<Scored<P>> = with_scores(generation, &scores);
        let ghost results = scored@;
        let best = best_score(&scored);
        self.0 = select(scored, params.elite_size);
        proof {
            let scores = scores_of(results);
            assert(is_step_trace::<P, T, F>(
                old(self)@,
                *params,
                test,
                elites,
                children,
                targets@,
                mutated,
                results,
            ));
            lemma_ranking_ranks(scores);
            lemma_first_is_highest(scores);
        }
        Ok(best)
    }

    /// The best individual of the last generation: the first of the
    /// population.
    pub fn best(&self) -> (champion: &P)
        requires
            self@.len() > 0,
        ensures
            *champion == self@[0],
    {
        &self.0[0]
    }

    /// The number of individuals.
    pub fn len(&self) -> (len: usize)
        ensures
            len == self@.len(),
    {
        self.0.len()
    }

    /// The individuals, best first.
    pub fn individuals(&self) -> (individuals: &Vec<P>)
        ensures
            individuals@ == self@,
    {
        &self.0
    }
}

impl<P, T> Default for Population<P, T> where P: Dna<T>, T: Clone {
    /// The empty population.
    fn default() -> (population: Self)
        ensures
            population@ == Seq::<P>::empty(),
    {
        Population(Vec::new(), PhantomData)
    }
}

} // verus!
