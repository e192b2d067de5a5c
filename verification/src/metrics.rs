//! The fire-and-forget metrics sink the service reports to.  The core only
//! consumes this interface; a concrete sink lives with the surrounding
//! program.

use vstd::prelude::*;

verus! {

/// Observations the service records as it runs.  Durations are carried as
/// milliseconds.  Nothing is promised of a sink: recording must never fail
/// the caller.
pub trait Metrics {
    /// The highest confirmed slot a poll cycle has fetched.
    fn record_latest_slot(&mut self, slot: u64);

    /// How long a confirmed-blocks fetch took.
    fn record_get_blocks_elapsed(&mut self, elapsed_ms: u64);

    /// How long answering one confirmation query took.
    fn record_is_slot_confirmed_elapsed(&mut self, elapsed_ms: u64);
}

} // verus!
