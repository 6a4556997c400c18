use std::time::{Duration, SystemTime, SystemTimeError};
use vstd::prelude::*;

verus! {

/// Seconds from the Unix epoch to the first of January 1978, from which the
/// dates on disk count.
pub const AMIGA_EPOCH_OFFSET: u64 = 252460800;

pub const TICKS_PER_SECOND: u32 = 50;

pub const SECONDS_PER_DAYS: u32 = 24 * 60 * 60;

pub const SECONDS_PER_MINS: u32 = 60;

/// std's `SystemTime`, a point in time as the system clock gives it. It is
/// carried through as it is: nothing is known of what a value holds.
#[verifier::external_type_specification]
#[verifier::external_body]
pub struct ExSystemTime(SystemTime);

/// std's `SystemTimeError`, which `SystemTime::duration_since` returns when
/// the second point in time is the later one.
#[verifier::external_type_specification]
#[verifier::external_body]
pub struct ExSystemTimeError(SystemTimeError);

/// std's `SystemTime::now` reads the system clock: nothing is known of what
/// it returns.
pub assume_specification[ SystemTime::now ]() -> (now: SystemTime)
;

/// std's `SystemTime::duration_since` gives the time elapsed from `earlier`,
/// or an error when `earlier` is the later of the two: nothing is claimed
/// of either.
pub assume_specification[ SystemTime::duration_since ](
    time: &SystemTime,
    earlier: SystemTime,
) -> (elapsed: Result<Duration, SystemTimeError>)
;

/// std's `Duration::as_secs` gives the whole seconds of a duration: nothing
/// is claimed of their number.
pub assume_specification[ Duration::as_secs ](duration: &Duration) -> (seconds: u64)
;

/// The Unix epoch as std defines it, the constant `std::time::UNIX_EPOCH`:
/// nothing is claimed of the value.
#[verifier::external_body]
fn unix_epoch() -> (epoch: SystemTime) {
    std::time::UNIX_EPOCH
}

/// The time of the system clock, in seconds since the Unix epoch; zero for
/// a clock set before it.
pub(crate) fn system_time_now() -> u64 {
    let now = SystemTime::now();
    match now.duration_since(unix_epoch()) {
        Ok(duration) => duration.as_secs(),
        Err(_) => 0,
    }
}

/// The date on disk that stands for a time given in seconds since the Unix
/// epoch: days since the first of January 1978, minutes of the day, and the
/// seconds of the minute counted in fiftieths. The seconds since 1978 are
/// taken modulo 2^32; a time before 1978 gives the first instant of 1978.
pub open spec fn spec_date_triplet_from_system_time(date_time: u64) -> (u32, u32, u32) {
    if date_time < 252460800 {
        (0, 0, 0)
    } else {
        let seconds = (date_time - 252460800) % 0x1_0000_0000;
        ((seconds / 86400) as u32, (seconds % 86400 / 60) as u32, (seconds % 86400 % 60 * 50) as u32)
    }
}

/// The time, in seconds since the Unix epoch, that a date on disk stands
/// for. Fractions of a second are dropped.
pub open spec fn spec_date_triplet_to_system_time(days: u32, mins: u32, ticks: u32) -> u64 {
    ((days * 24 * 60 + mins) * 60 + ticks / 50 + 252460800) as u64
}

pub fn date_triplet_from_system_time(date_time: u64) -> (triplet: (u32, u32, u32))
    ensures
        triplet == spec_date_triplet_from_system_time(date_time),
        triplet.1 < 1440,
        triplet.2 < 3000,
{
    if date_time < AMIGA_EPOCH_OFFSET {
        (0, 0, 0)
    } else {
        let seconds: u32 = ((date_time - AMIGA_EPOCH_OFFSET) % 0x1_0000_0000) as u32;
        let days: u32 = seconds / SECONDS_PER_DAYS;
        let seconds: u32 = seconds % SECONDS_PER_DAYS;
        let mins: u32 = seconds / SECONDS_PER_MINS;
        let seconds: u32 = seconds % SECONDS_PER_MINS;
        (days, mins, seconds * TICKS_PER_SECOND)
    }
}

pub fn date_triplet_to_system_time(days: u32, mins: u32, ticks: u32) -> (date_time: u64)
    ensures
        date_time == spec_date_triplet_to_system_time(days, mins, ticks),
{
    let seconds: u64 = ((days as u64) * 24 * 60 + (mins as u64)) * 60 + ((ticks / TICKS_PER_SECOND) as u64);
    seconds + AMIGA_EPOCH_OFFSET
}

/// A time written to disk and read back is the same time, to the second,
/// for every time from 1978 on that is less than 2^32 seconds after it.
pub proof fn lemma_date_triplet_roundtrip(date_time: u64)
    requires
        252460800 <= date_time < 252460800 + 0x1_0000_0000,
    ensures
        ({
            let (days, mins, ticks) = spec_date_triplet_from_system_time(date_time);
            spec_date_triplet_to_system_time(days, mins, ticks) == date_time
        }),
{
}

} // verus!
