//! Times and durations on the wire.

use crate::arith;
use vstd::prelude::*;

verus! {

/// A point in time: seconds since the Unix epoch, and nanoseconds within the second.
#[derive(Debug, Clone, Copy, PartialEq, Eq, Structural)]
pub struct Timestamp {
    /// Seconds since the Unix epoch.
    pub seconds: i64,
    /// Nanoseconds within the second, counted forward.
    pub nanos: i32,
}

/// A span of time.
#[derive(Debug, Clone, Copy, PartialEq, Eq, Structural)]
pub struct Duration {
    /// Whole seconds.
    pub seconds: i64,
    /// Nanoseconds.
    pub nanos: i32,
}

/// The timestamp for milliseconds since the Unix epoch.
pub open spec fn timestamp_of(ms: i64) -> Timestamp {
    Timestamp {
        seconds: (ms as int / 1000) as i64,
        nanos: ((ms as int % 1000) * 1_000_000) as i32,
    }
}

/// `n` divided by `d`, rounded towards zero.
pub open spec fn quotient(n: int, d: int) -> int {
    if n >= 0 {
        n / d
    } else {
        -((-n) / d)
    }
}

/// The milliseconds since the Unix epoch of a timestamp, as far as they can be told.
pub open spec fn ms_of(ts: Timestamp) -> int {
    arith::clamp_i64(arith::clamp_i64(ts.seconds * 1000) + quotient(ts.nanos as int, 1_000_000))
}

/// The timestamp for milliseconds since the Unix epoch.
pub fn ms_to_timestamp(ms: i64) -> (r: Timestamp)
    ensures
        r == timestamp_of(ms),
{
    let seconds: i64 = if ms >= 0 {
        ms / 1000
    } else {
        -((-(ms + 1)) / 1000) - 1
    };
    let ghost whole = ms as int / 1000;
    assert(seconds == whole);
    let rest: i64 = if ms >= 0 {
        ms % 1000
    } else {
        999 - (-(ms + 1)) % 1000
    };
    assert(rest == ms as int % 1000);
    Timestamp { seconds, nanos: rest as i32 * 1_000_000 }
}

/// The milliseconds since the Unix epoch of a timestamp. Those that cannot be told become the
/// nearest that can.
pub fn timestamp_to_ms(ts: &Timestamp) -> (r: i64)
    ensures
        r == ms_of(*ts),
{
    let nanos: i64 = ts.nanos as i64;
    let rest: i64 = if nanos >= 0 {
        nanos / 1_000_000
    } else {
        -((-nanos) / 1_000_000)
    };
    arith::saturating_add(arith::saturating_mul(ts.seconds, 1000), rest)
}

/// Whole seconds as a duration.
pub fn secs_to_duration(secs: i64) -> (r: Duration)
    ensures
        r == (Duration { seconds: secs, nanos: 0 }),
{
    Duration { seconds: secs, nanos: 0 }
}

/// The whole seconds of a duration. Nothing in this service is finer.
pub fn duration_to_secs(d: &Duration) -> (r: i64)
    ensures
        r == d.seconds,
{
    d.seconds
}

/// Milliseconds survive the way to the wire and back. The requirement leaves out those so early
/// that the start of their second cannot be told in milliseconds.
pub proof fn law_timestamps_round_trip(ms: i64)
    requires
        ms >= -9_223_372_036_854_775_000,
    ensures
        ms_of(timestamp_of(ms)) == ms,
        0 <= timestamp_of(ms).nanos < 1_000_000_000,
{
    let rest = ms as int % 1000;
    assert(0 <= rest < 1000);
    assert((ms as int / 1000) * 1000 + rest == ms);
    assert((rest * 1_000_000) / 1_000_000 == rest);
}

} // verus!
