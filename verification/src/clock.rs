//! The wall clock, read in whole seconds.

use vstd::prelude::*;
use std::time::SystemTime;

verus! {

/// std's `SystemTime`: a reading of the system clock. Nothing is known of
/// what it holds.
#[verifier::external_type_specification]
#[verifier::external_body]
pub struct ExSystemTime(SystemTime);

/// `SystemTime::now` of std reads the system clock. Two readings may
/// differ, so nothing is stated of the result.
pub assume_specification[ SystemTime::now ]() -> (now: SystemTime);

/// Calls `SystemTime::duration_since` of std with the Unix epoch as the
/// earlier time, and hands out the whole seconds of the duration it
/// returns, or `None` where it returns its error (the reading lies before
/// the epoch).
#[verifier::external_body]
fn secs_since_epoch(reading: &SystemTime) -> (secs: Option<u64>) {
    reading.duration_since(std::time::UNIX_EPOCH).ok().map(|elapsed| elapsed.as_secs())
}

/// The timestamp for a clock reading: its seconds, or 0 where the clock
/// gave none.
pub fn secs_or_zero(reading: Option<u64>) -> (secs: u64)
    ensures
        secs == match reading {
            Some(s) => s,
            None => 0,
        },
{
    match reading {
        Some(s) => s,
        None => 0,
    }
}

/// The current time in seconds since the Unix epoch, 0 where the clock is
/// set before it.
pub fn now_unix_secs() -> u64 {
    let reading = SystemTime::now();
    secs_or_zero(secs_since_epoch(&reading))
}

} // verus!
