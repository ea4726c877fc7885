//! The random draws of the engine, taken from the thread-local generator of
//! the `rand` crate. Nothing is known of a draw but the range it lies in.

use rand::rngs::ThreadRng;
use rand::Rng;
use vstd::prelude::*;

verus! {

/// `rand::rngs::ThreadRng`, a handle to the generator of the current thread.
/// Its state is hidden: a value of it is only carried to the draws below.
#[verifier::external_type_specification]
#[verifier::external_body]
pub struct ExThreadRng(ThreadRng);

/// `rand::thread_rng` hands out the handle of the calling thread. Nothing is
/// claimed of it. (It panics only where the operating system cannot seed the
/// generator.)
pub assume_specification[ rand::thread_rng ]() -> (rng: ThreadRng);

/// `Rng::gen::<bool>`: one coin flip. Either value may come back.
#[verifier::external_body]
pub(crate) fn flip(rng: &mut ThreadRng) -> (heads: bool) {
    rng.gen::<bool>()
}

/// `Rng::gen_range` on the half-open range `low..high`: the draw lies in the
/// range. The outside function panics on an empty range, which `requires`
/// leaves out.
#[verifier::external_body]
pub(crate) fn draw(rng: &mut ThreadRng, low: usize, high: usize) -> (k: usize)
    requires
        low < high,
    ensures
        low <= k < high,
{
    rng.gen_range(low..high)
}

} // verus!
