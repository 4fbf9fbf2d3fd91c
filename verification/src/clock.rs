//! The wall clock, in whole seconds since the Unix epoch.

use vstd::prelude::*;

use std::time::{Duration, SystemTimeError};

verus! {

#[verifier::external_type_specification]
#[verifier::external_body]
pub struct ExSystemTimeError(SystemTimeError);

/// `UNIX_EPOCH.elapsed()`: how long ago the epoch was by the system clock, or
/// an error when the clock reads earlier than the epoch.
///
/// Nothing is said of the duration: it is whatever the clock reads.
#[verifier::external_body]
fn since_epoch() -> Result<Duration, SystemTimeError> {
    std::time::UNIX_EPOCH.elapsed()
}

/// `Duration::as_secs`: the whole seconds of a duration.
#[verifier::external_body]
fn whole_seconds(d: &Duration) -> u64 {
    d.as_secs()
}

/// The current time in seconds since the Unix epoch, or 0 when the clock reads
/// earlier than the epoch.
pub fn unix_now() -> i64 {
    match since_epoch() {
        Ok(d) => whole_seconds(&d) as i64,
        Err(_) => 0,
    }
}

} // verus!
