//! What every chain source has: checkpoints, epochs of time, and the errors
//! of a fixture.

use vstd::prelude::*;

verus! {

/// A reorg-safe scan checkpoint: the last block fully ingested and its
/// hash, so a source can detect a fork and rewind.
#[derive(Debug, Clone, Copy, PartialEq, Eq)]
pub struct Checkpoint {
    pub block_seqno: u64,
    pub block_hash: [u8; 32],
}

/// Errors from the fixture source.
#[derive(Debug, Clone, PartialEq, Eq)]
pub enum FixtureError {
    /// The fixture has no data for the epoch.
    UnknownEpoch(u64),
    /// The fixture cannot be parsed, and why.
    Parse(String),
}

/// The epoch of a time, with epochs of `epoch_seconds`.
pub open spec fn epoch_at(time: u64, epoch_seconds: u64) -> u64 {
    if epoch_seconds == 0 {
        0
    } else {
        time / epoch_seconds
    }
}

/// The epoch of a time, with epochs of `epoch_seconds`.
pub fn epoch_of_time(time: u64, epoch_seconds: u64) -> (r: u64)
    ensures
        r == epoch_at(time, epoch_seconds),
{
    if epoch_seconds == 0 {
        0
    } else {
        time / epoch_seconds
    }
}

/// A time lies within its epoch.
pub proof fn time_is_in_its_epoch(time: u64, epoch_seconds: u64)
    requires
        epoch_seconds > 0,
    ensures
        epoch_at(time, epoch_seconds) * epoch_seconds <= time < (epoch_at(time, epoch_seconds) + 1)
            * epoch_seconds,
{
    let t = time as int;
    let s = epoch_seconds as int;
    let q = t / s;
    assert(q * s <= t < (q + 1) * s) by (nonlinear_arith)
        requires
            q == t / s,
            s > 0,
    ;
}

} // verus!
