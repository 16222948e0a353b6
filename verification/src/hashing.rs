//! Stable hashes of path strings, through std's `DefaultHasher`.

use std::hash::{Hash, Hasher};
use vstd::prelude::*;

verus! {

/// The hash `std::collections::hash_map::DefaultHasher::new()` gives a path string.
pub uninterp spec fn path_hash(path: Seq<char>) -> u64;

/// Hashes a path with `DefaultHasher::new()` (fixed keys, not seeded per
/// process) and `finish`. Claims only that the result is the value
/// `path_hash` names for the path.
#[verifier::external_body]
pub(crate) fn hash_path(path: &str) -> (r: u64)
    ensures
        r == path_hash(path@),
{
    let mut h = std::collections::hash_map::DefaultHasher::new();
    path.hash(&mut h);
    h.finish()
}

} // verus!
