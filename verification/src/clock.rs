//! The wall clock, in whole seconds since the Unix epoch.

use vstd::prelude::*;

use std::time::{Duration, SystemTime, SystemTimeError};

verus! {

/// `std::time::SystemTime`, carried through without a look inside.
#[verifier::external_type_specification]
#[verifier::external_body]
pub struct ExSystemTime(SystemTime);

/// `std::time::SystemTimeError`, carried through without a look inside.
#[verifier::external_type_specification]
#[verifier::external_body]
pub struct ExSystemTimeError(SystemTimeError);

/// `SystemTime::now`: the current time, of which nothing is stated.
#[verifier::external_body]
fn system_now() -> SystemTime {
    SystemTime::now()
}

/// What `SystemTime::duration_since(UNIX_EPOCH)` gives for a time.
pub uninterp spec fn time_since_epoch(time: SystemTime) -> Result<Duration, SystemTimeError>;

/// `SystemTime::duration_since(UNIX_EPOCH)`: the time since the epoch, or an
/// error when the time lies before it; which of them, for a given time, is
/// left to the name [`time_since_epoch`].
#[verifier::external_body]
fn since_unix_epoch(time: &SystemTime) -> (res: Result<Duration, SystemTimeError>)
    ensures
        res == time_since_epoch(*time),
{
    time.duration_since(std::time::UNIX_EPOCH)
}

/// What `Duration::as_secs` gives for a duration.
pub uninterp spec fn duration_whole_seconds(duration: Duration) -> u64;

/// `Duration::as_secs`: the whole seconds of a duration, left to the name
/// [`duration_whole_seconds`].
#[verifier::external_body]
fn whole_seconds(duration: &Duration) -> (res: u64)
    ensures
        res == duration_whole_seconds(*duration),
{
    duration.as_secs()
}

/// The whole seconds from the Unix epoch to a time; 0 for a time before the
/// epoch.
pub open spec fn epoch_seconds(time: SystemTime) -> u64 {
    match time_since_epoch(time) {
        Ok(elapsed) => duration_whole_seconds(elapsed),
        Err(_) => 0,
    }
}

/// The whole seconds from the Unix epoch to a time; 0 for a time before the
/// epoch.
pub fn seconds_since_epoch(time: &SystemTime) -> (res: u64)
    ensures
        res == epoch_seconds(*time),
{
    match since_unix_epoch(time) {
        Ok(elapsed) => whole_seconds(&elapsed),
        Err(_) => 0,
    }
}

/// The current time in whole seconds since the Unix epoch; 0 when the clock
/// stands before the epoch. The result is [`epoch_seconds`] of the time the
/// clock read; which time that was is not stated.
pub fn unix_seconds() -> (res: u64)
    ensures
        exists|now: SystemTime| #[trigger] epoch_seconds(now) == res,
{
    let now = system_now();
    let res = seconds_since_epoch(&now);
    assert(epoch_seconds(now) == res);
    res
}

} // verus!
