//! The source of chance. Nothing in this file is proved: it states what
//! the `rand` crate is taken to do.

use rand::rngs::ThreadRng;
use rand::Rng;
use vstd::prelude::*;

verus! {

/// `rand::rngs::ThreadRng`, the generator that each thread keeps for
/// itself. Its inside is of no concern here.
#[verifier::external_type_specification]
#[verifier::external_body]
pub struct ExThreadRng(ThreadRng);

/// `rand::thread_rng` hands out the generator of the current thread.
/// Nothing is claimed of the generator. (The call fails only where the
/// operating system cannot seed it.)
pub assume_specification[ rand::thread_rng ]() -> (rng: ThreadRng)
;

/// `Rng::gen_range` on the range from zero up to, and without, `bound`.
/// The documentation promises a value of the range and a panic on an
/// empty one, which `requires` rules out. Which value comes is left
/// open.
#[verifier::external_body]
pub(crate) fn below(rng: &mut ThreadRng, bound: usize) -> (n: usize)
    requires
        bound > 0,
    ensures
        n < bound,
{
    rng.gen_range(0..bound)
}

} // verus!
