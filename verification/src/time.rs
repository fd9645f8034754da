//! Spans of time in whole seconds, and the clock.
use vstd::prelude::*;

verus! {

#[derive(Clone, Copy, Debug, PartialEq, Eq, Structural)]
pub struct Duration {
    pub seconds: u64,
}

impl Duration {
    pub fn from_secs(seconds: u64) -> (d: Duration)
        ensures
            d.seconds == seconds,
    {
        Duration { seconds }
    }

    pub fn as_secs(&self) -> (n: u64)
        ensures
            n == self.seconds,
    {
        self.seconds
    }
}

/// A reading of the clock, as a distance from 1970.
#[derive(Clone, Copy, Debug, PartialEq, Eq, Structural)]
pub struct Reading {
    pub seconds: u64,
    /// What is left over, in nanoseconds.
    pub nanos: u32,
    /// Whether the clock stands before 1970.
    pub before: bool,
}

/// Reads `std::time::SystemTime::now` as a distance from 1970.
///
/// What a clock says is not foreseeable. The one thing that is claimed is that the nanoseconds
/// left over are less than a second.
#[verifier::external_body]
fn system_time() -> (r: Reading)
    ensures
        r.nanos < 1_000_000_000,
{
    match std::time::SystemTime::now().duration_since(std::time::UNIX_EPOCH) {
        Ok(d) => Reading { seconds: d.as_secs(), nanos: d.subsec_nanos(), before: false },
        Err(error) => {
            let d = error.duration();
            Reading { seconds: d.as_secs(), nanos: d.subsec_nanos(), before: true }
        },
    }
}

/// The seconds since 1970 that a distance and a side come to, within what 64 bits hold.
pub fn signed_seconds(distance: u64, before: bool) -> (r: i64)
    ensures
        r == (if distance > i64::MAX {
            if before {
                -(i64::MAX as int)
            } else {
                i64::MAX as int
            }
        } else if before {
            -(distance as int)
        } else {
            distance as int
        }),
{
    let n: i64 = if distance > i64::MAX as u64 {
        i64::MAX
    } else {
        distance as i64
    };
    if before {
        -n
    } else {
        n
    }
}

/// The clock, in seconds since 1970; negative for a clock that is set before it.
pub fn clock_seconds() -> (r: i64)
    ensures
        r >= -(i64::MAX as int),
{
    let r = system_time();
    signed_seconds(r.seconds, r.before)
}

/// The clock, in seconds since 1970, unless it is set before 1970 or cannot be told in 64 bits.
pub fn unix_now() -> (r: Option<i64>)
    ensures
        r matches Some(n) ==> n >= 0,
{
    let r = system_time();
    checked_seconds(r.seconds, r.before)
}

/// The seconds since 1970 that a distance and a side come to, where there are any.
pub fn checked_seconds(distance: u64, before: bool) -> (r: Option<i64>)
    ensures
        match r {
            Some(n) => !before && n == distance,
            None => before || distance > i64::MAX,
        },
{
    if before || distance > i64::MAX as u64 {
        None
    } else {
        Some(distance as i64)
    }
}

/// The low 64 bits of a reading in nanoseconds since 1970; zero for a clock before 1970.
pub fn low_nanos(r: Reading) -> (n: u64)
    ensures
        n == (if r.before {
            0
        } else {
            (r.seconds * 1_000_000_000 + r.nanos) % 0x1_0000_0000_0000_0000
        }),
{
    if r.before {
        return 0;
    }
    let all: u128 = r.seconds as u128 * 1_000_000_000 + r.nanos as u128;
    (all % 0x1_0000_0000_0000_0000) as u64
}

/// A number from the clock that differs from one moment to the next.
pub fn clock_nanos() -> (n: u64) {
    low_nanos(system_time())
}

} // verus!
