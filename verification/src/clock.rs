//! The wall clock, in whole seconds.
use std::time::UNIX_EPOCH;

use vstd::prelude::*;

verus! {

/// Reads the wall clock through `std::time::SystemTime::elapsed`, taken from the
/// Unix epoch, as whole seconds; `None` stands for a clock set before the epoch.
/// The reading depends on the machine alone, so nothing is claimed of it.
#[verifier::external_body]
fn seconds_since_epoch() -> (r: Option<u64>) {
    match UNIX_EPOCH.elapsed() {
        Ok(elapsed) => Some(elapsed.as_secs()),
        Err(_) => None,
    }
}

/// The time that a reading of the clock stands for: the seconds that were read, or
/// zero where the clock stands before the epoch.
pub fn unix_seconds(reading: Option<u64>) -> (r: u64)
    ensures
        r == match reading {
            Some(seconds) => seconds,
            None => 0,
        },
{
    match reading {
        Some(seconds) => seconds,
        None => 0,
    }
}

/// The current time in Unix seconds, or zero where the clock stands before the
/// epoch. Any value may come back.
pub(crate) fn unix_seconds_now() -> (r: u64) {
    unix_seconds(seconds_since_epoch())
}

} // verus!
