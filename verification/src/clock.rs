//! The wall clock, in whole seconds.

use std::time::{Duration, SystemTime, SystemTimeError};
use vstd::prelude::*;

verus! {

/// A point in time of the system clock.
#[verifier::external_type_specification]
#[verifier::external_body]
pub struct ExSystemTime(SystemTime);

/// Says that one point in time is not before another.
#[verifier::external_type_specification]
#[verifier::external_body]
pub struct ExSystemTimeError(SystemTimeError);

/// How long after the Unix epoch a point in time is; `None` before the epoch.
pub uninterp spec fn epoch_age(time: SystemTime) -> Option<Duration>;

/// The whole seconds in a duration.
pub uninterp spec fn whole_secs(duration: Duration) -> u64;

/// The seconds from the Unix epoch to a point in time; zero before the epoch.
pub open spec fn unix_secs(time: SystemTime) -> u64 {
    match epoch_age(time) {
        Some(age) => whole_secs(age),
        None => 0,
    }
}

/// After the epoch the clock shows the whole seconds that have passed since then.
pub proof fn clock_counts_seconds(time: SystemTime, age: Duration)
    ensures
        epoch_age(time) == Some(age) ==> unix_secs(time) == whole_secs(age),
        epoch_age(time) is None ==> unix_secs(time) == 0,
{
}

/// Calls `SystemTime::now`. Nothing is said of what the system clock shows.
#[verifier::external_body]
fn system_now() -> SystemTime {
    SystemTime::now()
}

/// Calls `SystemTime::duration_since` with the Unix epoch: the time since the epoch, an error where
/// the given time is before it.
#[verifier::external_body]
fn since_epoch(time: SystemTime) -> (r: Result<Duration, SystemTimeError>)
    ensures
        r is Ok <==> epoch_age(time) is Some,
        r is Ok ==> r->Ok_0 == epoch_age(time)->0,
{
    time.duration_since(std::time::UNIX_EPOCH)
}

/// Calls `Duration::as_secs`: the whole seconds in the duration.
#[verifier::external_body]
fn as_secs(duration: Duration) -> (r: u64)
    ensures
        r == whole_secs(duration),
{
    duration.as_secs()
}

/// The seconds since the Unix epoch that `time` stands for.
pub fn secs_at(time: SystemTime) -> (r: u64)
    ensures
        r == unix_secs(time),
{
    match since_epoch(time) {
        Ok(age) => as_secs(age),
        Err(_) => 0,
    }
}

/// The seconds since the Unix epoch, by the system clock.
pub fn now_secs() -> (r: u64)
    ensures
        exists|time: SystemTime| r == #[trigger] unix_secs(time),
{
    secs_at(system_now())
}

} // verus!
