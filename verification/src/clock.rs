//! The wall clock, read through `std::time`.

use std::time::Duration;
use std::time::SystemTime;
use std::time::SystemTimeError;
use vstd::prelude::*;

verus! {

/// `std::time::SystemTime`, a reading of the system clock; nothing inside it
/// is looked at.
#[verifier::external_type_specification]
#[verifier::external_body]
pub struct ExSystemTime(SystemTime);

/// `std::time::SystemTimeError`, which `SystemTime::duration_since` returns
/// for a time that lies before the one it is compared with; nothing inside it
/// is looked at.
#[verifier::external_type_specification]
#[verifier::external_body]
pub struct ExSystemTimeError(SystemTimeError);

/// `SystemTime::now` reads the system clock. Nothing is claimed of the time
/// that it returns.
pub assume_specification[ SystemTime::now ]() -> (now: SystemTime);

/// `Duration::as_secs` gives the whole seconds in a duration. Nothing is
/// claimed of their number.
pub assume_specification[ Duration::as_secs ](span: &Duration) -> (secs: u64);

/// Calls `SystemTime::duration_since` with `SystemTime::UNIX_EPOCH`: the time
/// from the epoch to `time`, or an error where `time` lies before the epoch.
/// Nothing is claimed of which of the two comes back.
#[verifier::external_body]
fn since_unix_epoch(time: &SystemTime) -> (span: Result<Duration, SystemTimeError>) {
    time.duration_since(SystemTime::UNIX_EPOCH)
}

/// The seconds that have passed since the Unix epoch, by the system clock;
/// `None` where the clock reads a time before the epoch.
pub(crate) fn unix_seconds() -> (secs: Option<u64>) {
    let now = SystemTime::now();
    match since_unix_epoch(&now) {
        Ok(span) => Some(span.as_secs()),
        Err(_) => None,
    }
}

} // verus!
