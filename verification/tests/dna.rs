use evolve::dna::{cross, Dna};

#[derive(Clone, Debug, PartialEq)]
struct Bytes(Vec<u8>);

impl Dna<u8> for Bytes {
    fn serialize(&self) -> Box<[u8]> {
        self.0.clone().into_boxed_slice()
    }

    fn deserialize(dna: Box<[u8]>) -> Self {
        Bytes(dna.into_vec())
    }

    fn mutate(&mut self) {
        self.0[0] = self.0[0].wrapping_add(1);
    }

    fn spawn() -> Self {
        Bytes(vec![0; 4])
    }
}

#[test]
fn cross_takes_the_prescribed_genes() {
    let a: Box<[u8]> = vec![1, 2, 3, 4].into_boxed_slice();
    let b: Box<[u8]> = vec![5, 6, 7, 8].into_boxed_slice();
    let child = cross(&a, &b, &vec![false, true, true, false]);
    assert_eq!(&*child, &[1, 6, 7, 4]);
}

#[test]
fn mix_keeps_length_and_positions() {
    let a: Box<[u8]> = vec![1, 2, 3, 4].into_boxed_slice();
    let b: Box<[u8]> = vec![5, 6, 7, 8].into_boxed_slice();
    for _ in 0..50 {
        let child = Bytes::mix(&a, &b);
        assert_eq!(child.len(), 4);
        for i in 0..4 {
            assert!(child[i] == a[i] || child[i] == b[i]);
        }
    }
}

#[test]
fn mix_takes_genes_from_both_parents() {
    let a: Box<[u8]> = vec![0; 64].into_boxed_slice();
    let b: Box<[u8]> = vec![1; 64].into_boxed_slice();
    let child = Bytes::mix(&a, &b);
    assert!(child.iter().any(|g| *g == 0));
    assert!(child.iter().any(|g| *g == 1));
    let other = Bytes::mix(&a, &b);
    assert_ne!(child, other);
}

#[test]
fn mix_of_empty_encodings_is_empty() {
    let a: Box<[u8]> = Vec::new().into_boxed_slice();
    assert_eq!(Bytes::mix(&a, &a).len(), 0);
    assert_eq!(cross(&a, &a, &Vec::new()).len(), 0);
}

#[test]
fn the_genome_operations_agree() {
    let genome = Bytes::spawn();
    assert_eq!(genome.serialize().len(), 4);
    assert_eq!(Bytes::deserialize(genome.serialize()), genome);
    let mut mutated = genome.clone();
    mutated.mutate();
    assert_eq!(mutated.serialize().len(), 4);
    assert_ne!(mutated, genome);
}
