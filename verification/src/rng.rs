//! Randomness, from the `rand` crate's thread-local generator.
use rand::seq::SliceRandom;
use rand::Rng;
use vstd::prelude::*;

verus! {

/// Draws a number below `bound` with `rand::Rng::gen_range` on the thread-local
/// generator (`rand::thread_rng`). The contract claims only the range that
/// `gen_range(0..bound)` documents; which number comes is left open. The
/// call panics on an empty range, so `bound` must be positive.
#[verifier::external_body]
pub(crate) fn random_below(bound: usize) -> (r: usize)
    requires
        bound > 0,
    ensures
        r < bound,
{
    rand::thread_rng().gen_range(0..bound)
}

/// Puts the elements of `v` in a random order with
/// `rand::seq::SliceRandom::shuffle` on the thread-local generator. The
/// contract claims only that the result is a reordering of the input: the
/// same elements, each as often as before.
#[verifier::external_body]
pub(crate) fn shuffle<T>(v: &mut Vec<T>)
    ensures
        final(v)@.len() == old(v)@.len(),
        final(v)@.to_multiset() == old(v)@.to_multiset(),
{
    v.shuffle(&mut rand::thread_rng())
}

} // verus!
