//! The random source of the generator: the thread-local generator of the
//! `rand` crate. Nothing in this file is proved; each item says what is taken
//! on trust.

use rand::Rng;
use vstd::prelude::*;

verus! {

/// The handle to the thread-local generator, `rand::rngs::ThreadRng`. Its
/// state is hidden: nothing is known of the numbers it will give.
#[verifier::external_type_specification]
#[verifier::external_body]
pub struct ExThreadRng(rand::rngs::ThreadRng);

/// `rand::thread_rng` hands out the handle to the generator of the current
/// thread. Nothing is claimed of the handle. The call takes no argument: it
/// stops the program only where the system has no randomness to seed the
/// generator with.
pub assume_specification[ rand::thread_rng ]() -> (rng: rand::rngs::ThreadRng);

/// Draws an index below `bound` with `rand::Rng::gen_range` on the range
/// `0..bound`. The range must not be empty, or `gen_range` panics. All that is
/// claimed of the number drawn is that it lies in the range.
#[verifier::external_body]
pub(crate) fn random_below(rng: &mut rand::rngs::ThreadRng, bound: usize) -> (drawn: usize)
    requires
        bound > 0,
    ensures
        drawn < bound,
{
    rng.gen_range(0..bound)
}

} // verus!
