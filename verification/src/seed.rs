//! Per-process randomness, for choices the library leaves open.

use std::hash::BuildHasher;
use vstd::prelude::*;

verus! {

/// A value that two calls are unlikely to share: the hash of a zero byte
/// under a freshly keyed `RandomState` (`BuildHasher::hash_one`).
/// Nothing is stated of it: it depends on the keys the process drew.
#[verifier::external_body]
pub(crate) fn fresh_seed() -> (r: u64) {
    std::collections::hash_map::RandomState::new().hash_one(0u8)
}

} // verus!
