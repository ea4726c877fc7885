//! The genome contract and the crossover operator.

use crate::random::flip;
use rand::rngs::ThreadRng;
use vstd::prelude::*;

verus! {

/// `child` is a crossing of `a` and `b`: it has their length, and each of its
/// genes is a clone of the gene of `a` or of `b` at the same position.
pub open spec fn is_crossing<T: Clone>(a: Seq<T>, b: Seq<T>, child: Seq<T>) -> bool {
    &&& child.len() == a.len()
    &&& child.len() == b.len()
    &&& forall|i: int|
        0 <= i < child.len() ==> cloned(a[i], #[trigger] child[i]) || cloned(b[i], child[i])
}

/// `child` is the crossing of `a` and `b` that `from_b` prescribes: position
/// `i` holds a clone of `b[i]` where `from_b[i]` is set, of `a[i]` where not.
pub open spec fn is_crossing_by<T: Clone>(
    a: Seq<T>,
    b: Seq<T>,
    from_b: Seq<bool>,
    child: Seq<T>,
) -> bool {
    &&& child.len() == a.len()
    &&& forall|i: int|
        0 <= i < child.len() ==> cloned(if from_b[i] { b[i] } else { a[i] }, #[trigger] child[i])
}

/// A crossing has the length of the encodings that were crossed.
pub proof fn lemma_crossing_keeps_length<T: Clone>(a: Seq<T>, b: Seq<T>, child: Seq<T>)
    requires
        is_crossing(a, b, child),
    ensures
        child.len() == a.len(),
        child.len() == b.len(),
{
}

/// Whatever is prescribed, the crossing that comes of it is a crossing: each
/// of its genes is a clone of the gene of one parent at the same position.
pub proof fn lemma_prescribed_is_crossing<T: Clone>(
    a: Seq<T>,
    b: Seq<T>,
    from_b: Seq<bool>,
    child: Seq<T>,
)
    requires
        a.len() == b.len(),
        is_crossing_by(a, b, from_b, child),
    ensures
        is_crossing(a, b, child),
{
}

/// `Vec::into_boxed_slice`: the same elements in the same order, as a boxed
/// slice.
#[verifier::external_body]
pub(crate) fn into_boxed<T>(v: Vec<T>) -> (b: Box<[T]>)
    ensures
        b@ == v@,
{
    v.into_boxed_slice()
}

/// Crosses two encodings of one length gene by gene, taking the gene of `b`
/// where `from_b` is set and the gene of `a` elsewhere.
pub fn cross<T: Clone>(a: &Box<[T]>, b: &Box<[T]>, from_b: &Vec<bool>) -> (child: Box<[T]>)
    requires
        a@.len() == b@.len(),
        from_b@.len() == a@.len(),
    ensures
        is_crossing_by(a@, b@, from_b@, child@),
        is_crossing(a@, b@, child@),
{
    let n = a.len();
    let mut out: Vec<T> = Vec::with_capacity(n);
    let mut i: usize = 0;
    while i < n
        invariant
            n == a@.len(),
            n == b@.len(),
            n == from_b@.len(),
            i <= n,
            out@.len() == i,
            forall|j: int|
                0 <= j < i ==> cloned(if from_b@[j] { b@[j] } else { a@[j] }, #[trigger] out@[j]),
        decreases n - i,
    {
        let gene = if from_b[i] { b[i].clone() } else { a[i].clone() };
        out.push(gene);
        i += 1;
    }
    into_boxed(out)
}

/// What an individual must offer to be bred: a flat encoding of fixed length,
/// a way back from an encoding, a random perturbation and a random start.
pub trait Dna<T>: Sized where T: Clone {
    /// The number of genes in the encoding of every genome of this type.
    /// An implementation that is verified defines it; the default leaves it
    /// open, for implementations that are not.
    open spec fn genotype_len() -> nat {
        arbitrary()
    }

    /// The genome's encoding. An implementation that is verified defines
    /// it; the default leaves it open, for implementations that are not.
    open spec fn genes(&self) -> Seq<T> {
        arbitrary()
    }

    /// `after` is what one mutation can make of this genome. An
    /// implementation that is verified defines it; the default leaves it
    /// open, for implementations that are not.
    open spec fn mutates_to(&self, after: &Self) -> bool {
        arbitrary()
    }

    /// The genome's encoding, gene by gene. The same genome always gives the
    /// same encoding.
    fn serialize(&self) -> (dna: Box<[T]>)
        ensures
            dna@ == self.genes(),
            dna@.len() == Self::genotype_len(),
    ;

    /// The genome with the encoding `dna`.
    fn deserialize(dna: Box<[T]>) -> (genome: Self)
        requires
            dna@.len() == Self::genotype_len(),
        ensures
            genome.genes() == dna@,
    ;

    /// Perturbs the genome in place, once. Its encoding keeps its length.
    fn mutate(&mut self)
        ensures
            old(self).mutates_to(final(self)),
            final(self).genes().len() == Self::genotype_len(),
    ;

    /// A fresh random genome.
    fn spawn() -> (genome: Self)
        ensures
            genome.genes().len() == Self::genotype_len(),
    ;

    /// Crosses two encodings of one length: each gene of the child comes from
    /// `a` or from `b` at the same position, as a fair coin decides.
    fn mix(a: &Box<[T]>, b: &Box<[T]>) -> (child: Box<[T]>)
        requires
            a@.len() == b@.len(),
        ensures
            is_crossing(a@, b@, child@),
    {
        let mut rng: ThreadRng = rand::thread_rng();
        let n = a.len();
        let mut from_b: Vec<bool> = Vec::with_capacity(n);
        while from_b.len() < n
            invariant
                from_b@.len() <= n,
            decreases n - from_b@.len(),
        {
            from_b.push(flip(&mut rng));
        }
        cross(a, b, &from_b)
    }
}

} // verus!
