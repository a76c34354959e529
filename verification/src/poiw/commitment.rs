//! Score roots of the PoIW pipeline.

use vstd::prelude::*;
use vstd::utf8::encode_utf8;

pub use crate::merkle::{CommitmentError, ScoreEntry};

use crate::merkle::{compute_root, root_of};

verus! {

/// The domain of the empty epoch root.
pub const EMPTY_DOMAIN: &'static str = "poiw-empty-v0";

/// Compute the epoch score root. Input order does not matter; entries
/// are sorted by identity before hashing. Duplicate identities are
/// rejected.
pub fn score_root(entries: &[ScoreEntry]) -> (r: Result<[u8; 32], CommitmentError>)
    ensures
        r == root_of(entries@, encode_utf8(EMPTY_DOMAIN@)),
{
    compute_root(entries, EMPTY_DOMAIN.as_bytes())
}

} // verus!
