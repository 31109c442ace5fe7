//! Sources of randomness used by the evolutionary algorithm.
use std::hash::{BuildHasher, Hasher, RandomState};
use vstd::prelude::*;

verus! {

/// Returns the output of a freshly seeded `RandomState` hasher that has hashed nothing.
///
/// Trusted: calls `RandomState::new`, `build_hasher` and `finish` from std. Every
/// `RandomState` is seeded with fresh random keys, so nothing is claimed of the value.
#[verifier::external_body]
fn fresh_hasher_output() -> u64 {
    RandomState::new().build_hasher().finish()
}

/// Returns a random 64-bit number, drawn from the per-process randomly keyed hasher
/// of the standard library. Any value may come back.
pub fn random_u64() -> u64 {
    fresh_hasher_output()
}

/// A number drawn uniformly from `0..bound`.
///
/// Trusted: calls `rand::random_range(0..bound)` (rand 0.9), which returns a
/// value of the half-open range and panics only on an empty range, which
/// `requires` rules out.
#[verifier::external_body]
pub(crate) fn random_index(bound: usize) -> (r: usize)
    requires
        bound > 0,
    ensures
        r < bound,
{
    rand::random_range(0..bound)
}

/// A fair coin flip.
///
/// Trusted: calls `rand::random::<bool>()` (rand 0.9); either value may come back.
#[verifier::external_body]
pub(crate) fn random_bool() -> bool {
    rand::random::<bool>()
}

} // verus!
