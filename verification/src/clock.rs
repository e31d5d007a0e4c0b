//! Clock readings, and the lifetime that a partial message is granted.
//!
//! Instants and durations are counted in nanoseconds. A clock reading keeps
//! the two fields in which the system clock reports it; everything computed
//! from readings is a signed 128-bit count, wide enough for any sum or
//! difference of two readings.

use vstd::prelude::*;

verus! {

/// Nanoseconds in one second.
pub const NANOS_PER_SEC: i128 = 1_000_000_000;

/// How long a partial message may wait for its missing fragments, counted
/// from the arrival of its first fragment: five seconds, in nanoseconds.
pub const TTL_NANOS: i128 = 5_000_000_000;

/// A reading of the wall clock: whole seconds since the epoch, and the
/// nanoseconds into that second.
#[derive(Debug, Clone, Copy, PartialEq, Eq, Structural)]
pub struct Timestamp {
    pub sec: i64,
    pub nsec: i32,
}

impl Timestamp {
    /// The instant this reading names, in nanoseconds since the epoch.
    pub open spec fn nanos(self) -> int {
        self.sec * 1_000_000_000 + self.nsec
    }

    /// The instant this reading names, in nanoseconds since the epoch.
    pub fn as_nanos(&self) -> (n: i128)
        ensures
            n == self.nanos(),
    {
        let sec: i128 = self.sec as i128;
        let nsec: i128 = self.nsec as i128;
        sec * NANOS_PER_SEC + nsec
    }
}

/// The value nearest to `x` that a signed 128-bit count can hold.
pub open spec fn clamp_nanos(x: int) -> int {
    if x < i128::MIN {
        i128::MIN as int
    } else if x > i128::MAX {
        i128::MAX as int
    } else {
        x
    }
}

/// The instant `delay` nanoseconds after `now`, held at the nearest bound
/// where the sum leaves the range of the count.
pub fn instant_after(now: &Timestamp, delay: i128) -> (instant: i128)
    ensures
        instant == clamp_nanos(now.nanos() + delay),
{
    let base: i128 = now.as_nanos();
    match base.checked_add(delay) {
        Some(sum) => sum,
        None => if delay < 0 {
            i128::MIN
        } else {
            i128::MAX
        },
    }
}

/// Reads the wall clock through `time::get_time`, which reports the seconds
/// and nanoseconds since 1970-01-01T00:00:00Z. Nothing is claimed of the
/// reading: two calls may return any two values.
#[verifier::external_body]
pub(crate) fn read_clock() -> Timestamp {
    let reading = time::get_time();
    Timestamp { sec: reading.sec, nsec: reading.nsec }
}

} // verus!
