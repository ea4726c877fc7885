//! The fork-join phases of a generation, handed to the worker pool of the
//! `rayon` crate. The work on each item is verified; what is taken on trust
//! is that the pool does it for every item and keeps the order.

use rayon::iter::IndexedParallelIterator;
use rayon::iter::IntoParallelIterator;
use rayon::iter::ParallelIterator;
use vstd::prelude::*;

verus! {

/// `rayon`'s `into_par_iter` on a range of indices, `with_min_len`, `map` and
/// `collect` into a `Vec`: `work` is applied once to every index below
/// `count`, in jobs of at least `min_len` indices where that many are left,
/// and the results stand in the order of the indices.
#[verifier::external_body]
pub(crate) fn generate_in_parallel<B, F>(count: usize, min_len: usize, work: F) -> (results: Vec<B>)
    where
        B: Send,
        F: Fn(usize) -> B + Sync + Send,
    requires
        forall|i: usize| i < count ==> call_requires(work, (i,)),
    ensures
        results@.len() == count,
        forall|i: int|
            0 <= i < count ==> call_ensures(work, (i as usize,), #[trigger] results@[i]),
{
    (0..count).into_par_iter().with_min_len(min_len).map(work).collect()
}

} // verus!
