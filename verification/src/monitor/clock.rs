//! The time of day.
use std::time::{Duration, SystemTime, UNIX_EPOCH};

use vstd::prelude::*;

verus! {

/// A point in time.
#[verifier::external_type_specification]
#[verifier::external_body]
pub struct ExSystemTime(SystemTime);

/// `SystemTime::now`; nothing is claimed of the time it gives.
#[verifier::external_body]
fn system_now() -> (now: SystemTime) {
    SystemTime::now()
}

/// The nanoseconds from the epoch to a point in time, negative before the epoch.
pub uninterp spec fn epoch_nanos(time: SystemTime) -> int;

/// The nanoseconds that a duration takes.
pub uninterp spec fn duration_nanos(duration: Duration) -> nat;

/// `SystemTime::duration_since`, from the epoch: the time from the epoch on; there is none
/// where the point in time is before the epoch.
#[verifier::external_body]
fn since_epoch(time: SystemTime) -> (elapsed: Option<Duration>)
    ensures
        match elapsed {
            Some(duration) => duration_nanos(duration) == epoch_nanos(time),
            None => epoch_nanos(time) < 0,
        },
{
    time.duration_since(UNIX_EPOCH).ok()
}

/// `Duration::as_millis`: the whole milliseconds of a duration.
#[verifier::external_body]
fn whole_millis(duration: Duration) -> (millis: u128)
    ensures
        millis == duration_nanos(duration) / 1_000_000,
{
    duration.as_millis()
}

/// The whole milliseconds from the epoch to a point in time, in 64 bits; zero for one before
/// the epoch.
pub open spec fn epoch_millis(time: SystemTime) -> i64 {
    if epoch_nanos(time) < 0 {
        0
    } else {
        (epoch_nanos(time) / 1_000_000) as i64
    }
}

/// The milliseconds since the epoch at a point in time; zero for one before it.
pub fn millis_at(time: SystemTime) -> (millis: i64)
    ensures
        millis == epoch_millis(time),
{
    match since_epoch(time) {
        Some(elapsed) => {
            let millis: u128 = whole_millis(elapsed);
            #[verifier::truncate]
            (millis as i64)
        },
        None => 0,
    }
}

/// The milliseconds since the epoch, at the point in time that the clock shows; zero where
/// that is before the epoch.
pub fn now_millis() -> (now: i64)
    ensures
        exists|time: SystemTime| now == #[trigger] epoch_millis(time),
{
    millis_at(system_now())
}

} // verus!
