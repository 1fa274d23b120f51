//! The wall clock. Every data-structure operation takes the current time as
//! an argument; this is the one place that reads it.

use vstd::prelude::*;

verus! {

/// Relies on chrono::Utc::now and DateTime::timestamp: the current wall-clock
/// time in whole seconds since the epoch. Nothing can be promised of the
/// clock's value.
#[verifier::external_body]
pub fn current_epoch_secs() -> (r: u64) {
    u64::try_from(chrono::Utc::now().timestamp()).unwrap_or(0)
}

} // verus!
