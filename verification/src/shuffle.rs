//! The one place where randomness enters the engine: an in-place shuffle,
//! delegated to the `rand` crate.

use rand::seq::SliceRandom;
use rand::thread_rng;
use vstd::prelude::*;

verus! {

/// Relies on rand's `SliceRandom::shuffle` (Fisher-Yates): it permutes the
/// slice in place by swaps, so the multiset of elements is unchanged. Which
/// permutation comes out depends on the thread-local generator, so nothing
/// more is promised: callers must hold for every permutation.
#[verifier::external_body]
pub(crate) fn shuffle_vec<T>(v: &mut Vec<T>)
    ensures
        final(v)@.to_multiset() == old(v)@.to_multiset(),
        final(v)@.len() == old(v)@.len(),
{
    v.shuffle(&mut thread_rng());
}

} // verus!
