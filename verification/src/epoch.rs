//! Timestamps and calendar time. A timestamp counts the seconds since the epoch of
//! identifiers, which lies 1,400,000,000 seconds after the start of 1970 (UTC):
//! 2014-05-13T16:53:20Z.

use crate::error::KsuidError;
use crate::ksuid::Ksuid;
use crate::limits::timestamp_limit;
use vstd::prelude::*;

verus! {

/// The epoch of identifiers, in seconds since the start of 1970 (UTC).
pub const EPOCH_SECONDS: i64 = 1_400_000_000;

/// An instant of calendar time, to the second.
#[derive(Debug, Clone, Copy, PartialEq, Eq, Structural, PartialOrd, Ord, Hash)]
pub struct UnixTime {
    /// Seconds since 1970-01-01T00:00:00Z, leap seconds not counted.
    pub seconds: i64,
}

/// The timestamp of an identifier made at `now`: the whole seconds since the
/// epoch, cut to 32 bits. A time before the epoch has none.
pub open spec fn timestamp_of(now: UnixTime) -> Result<u32, KsuidError> {
    if now.seconds < EPOCH_SECONDS {
        Err(KsuidError::ClockBeforeEpoch)
    } else {
        Ok(((now.seconds - EPOCH_SECONDS) % (timestamp_limit() as int)) as u32)
    }
}

/// The epoch of identifiers.
pub fn gen_epoch() -> (epoch: UnixTime)
    ensures
        epoch.seconds == EPOCH_SECONDS,
{
    UnixTime { seconds: EPOCH_SECONDS }
}

/// The instant at which `timestamp` seconds have passed since the epoch.
pub fn to_std_epoch(timestamp: u32) -> (time: UnixTime)
    ensures
        time.seconds == EPOCH_SECONDS + timestamp,
{
    UnixTime { seconds: EPOCH_SECONDS + timestamp as i64 }
}

/// The timestamp of an identifier made at `now`.
pub fn timestamp_at(now: UnixTime) -> (timestamp: Result<u32, KsuidError>)
    ensures
        timestamp == timestamp_of(now),
{
    if now.seconds < EPOCH_SECONDS {
        Err(KsuidError::ClockBeforeEpoch)
    } else {
        let elapsed: i64 = now.seconds - EPOCH_SECONDS;
        Ok((elapsed % 0x1_0000_0000) as u32)
    }
}

/// `std::time::SystemTime`, an instant as the operating system counts time.
/// Nothing is stated of what it holds.
#[verifier::external_type_specification]
#[verifier::external_body]
pub struct ExSystemTime(std::time::SystemTime);

/// `std::time::SystemTime::now`: what the system clock reads. Nothing is known of
/// the result.
#[verifier::external_body]
fn system_now() -> std::time::SystemTime {
    std::time::SystemTime::now()
}

/// `std::time::SystemTime::duration_since`, against the start of 1970: how long
/// after it `now` lies (`Ok`) or how long before it (`Err`), in whole seconds and
/// the nanoseconds beyond them. Nothing is stated of the numbers.
#[verifier::external_body]
fn since_1970(now: &std::time::SystemTime) -> Result<(u64, u32), (u64, u32)> {
    match now.duration_since(std::time::UNIX_EPOCH) {
        Ok(after) => Ok((after.as_secs(), after.subsec_nanos())),
        Err(before) => Err((before.duration().as_secs(), before.duration().subsec_nanos())),
    }
}

/// The second in which an instant lies that is read as a distance from the start
/// of 1970: `Ok` of the whole seconds and the nanoseconds after it, `Err` of those
/// before it. A part of a second before 1970 belongs to the second that began
/// earlier. Instants that `i64` cannot count are given its nearest end.
pub open spec fn time_read(reading: Result<(u64, u32), (u64, u32)>) -> UnixTime {
    match reading {
        Ok((seconds, _)) => UnixTime {
            seconds: if seconds <= i64::MAX {
                seconds as i64
            } else {
                i64::MAX
            },
        },
        Err((seconds, nanos)) => {
            let back = seconds + if nanos > 0 {
                1int
            } else {
                0int
            };
            UnixTime {
                seconds: if -back >= i64::MIN {
                    (-back) as i64
                } else {
                    i64::MIN
                },
            }
        },
    }
}

/// The second in which the instant lies that `reading` gives as a distance from
/// the start of 1970.
pub fn time_of_reading(reading: Result<(u64, u32), (u64, u32)>) -> (time: UnixTime)
    ensures
        time == time_read(reading),
{
    match reading {
        Ok((seconds, _)) => {
            if seconds <= 0x7FFF_FFFF_FFFF_FFFF {
                UnixTime { seconds: seconds as i64 }
            } else {
                UnixTime { seconds: i64::MAX }
            }
        },
        Err((seconds, nanos)) => {
            let part: i128 = if nanos > 0 {
                1
            } else {
                0
            };
            let back: i128 = seconds as i128 + part;
            if back <= 0x8000_0000_0000_0000 {
                UnixTime { seconds: (-back) as i64 }
            } else {
                UnixTime { seconds: i64::MIN }
            }
        },
    }
}

/// What the system clock reads, to the second. Nothing is known of the result;
/// a clock that reads a time before 1970 gives a negative second.
pub(crate) fn clock_now() -> UnixTime {
    let now = system_now();
    time_of_reading(since_1970(&now))
}

impl Ksuid {
    /// The instant at which the identifier's timestamp was taken.
    pub fn get_time(&self) -> (time: UnixTime)
        ensures
            time.seconds == EPOCH_SECONDS + self.timestamp,
    {
        to_std_epoch(self.timestamp)
    }
}

} // verus!
