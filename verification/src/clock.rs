//! Where "now" comes from, so that everything that depends on time can be driven by hand.

use vstd::prelude::*;

verus! {

/// Anything that can report "now" as milliseconds since the Unix epoch.
pub trait Clock {
    /// The clock may say that it is `now_ms`.
    spec fn tells(&self, now_ms: i64) -> bool;

    /// The current time, milliseconds since the Unix epoch.
    fn now_ms(&self) -> (now_ms: i64)
        ensures
            self.tells(now_ms),
    ;
}

/// The real wall clock.
#[derive(Debug, Default, Clone, Copy)]
pub struct SystemClock;

/// `std::time::SystemTime`: a reading of the machine's clock.
#[verifier::external_type_specification]
#[verifier::external_body]
pub struct ExSystemTime(std::time::SystemTime);

/// `std::time::SystemTimeError`: one reading lies before another.
#[verifier::external_type_specification]
#[verifier::external_body]
pub struct ExSystemTimeError(std::time::SystemTimeError);

/// Reads the machine's clock with `std::time::SystemTime::now`. Nothing is promised of the reading: it
/// is whatever the machine says.
#[verifier::external_body]
fn machine_time() -> std::time::SystemTime {
    std::time::SystemTime::now()
}

/// How far a reading lies after the Unix epoch, by `std::time::SystemTime::duration_since`; an error
/// for one before it. A reading has no value that could be spoken of, so nothing is promised of how
/// far it is.
#[verifier::external_body]
fn since_epoch(time: &std::time::SystemTime) -> Result<
    core::time::Duration,
    std::time::SystemTimeError,
> {
    time.duration_since(std::time::UNIX_EPOCH)
}

/// The whole milliseconds in a length of time, by `core::time::Duration::as_millis`. A length of time
/// has no value that could be spoken of, so nothing is promised of how many there are.
#[verifier::external_body]
fn whole_millis(length: &core::time::Duration) -> u128 {
    length.as_millis()
}

/// Reads the machine's clock; there is nothing for a time before the Unix epoch.
fn millis_since_epoch() -> Option<u128> {
    match since_epoch(&machine_time()) {
        Ok(length) => Some(whole_millis(&length)),
        Err(_) => None,
    }
}

/// The time that a reading of the machine's clock tells; one before the Unix epoch tells the epoch.
pub fn time_told(millis: Option<u128>) -> (now_ms: i64)
    ensures
        now_ms == match millis {
            Some(ms) => #[verifier::truncate] (ms as i64),
            None => 0,
        },
{
    match millis {
        Some(ms) => #[verifier::truncate] (ms as i64),
        None => 0,
    }
}

impl Clock for SystemClock {
    /// Nothing is known of the machine's clock.
    open spec fn tells(&self, now_ms: i64) -> bool {
        true
    }

    fn now_ms(&self) -> i64 {
        time_told(millis_since_epoch())
    }
}

/// A clock that stands still until it is told to move.
#[derive(Debug)]
pub struct MockClock {
    now: i64,
}

impl View for MockClock {
    type V = int;

    closed spec fn view(&self) -> int {
        self.now as int
    }
}

/// Seconds in milliseconds, held within the range of an `i64`.
pub open spec fn secs_to_ms(secs: i64) -> int {
    crate::arith::clamp_i64(secs * 1000)
}

impl MockClock {
    /// A clock that starts at `start_ms`.
    pub fn new(start_ms: i64) -> (c: Self)
        ensures
            c@ == start_ms,
    {
        MockClock { now: start_ms }
    }

    /// Moves the clock by `ms` milliseconds and returns the new time.
    pub fn advance(&mut self, ms: i64) -> (now: i64)
        requires
            i64::MIN <= old(self)@ + ms <= i64::MAX,
        ensures
            final(self)@ == old(self)@ + ms,
            now == final(self)@,
    {
        self.now = self.now + ms;
        self.now
    }

    /// Moves the clock by `secs` seconds and returns the new time in milliseconds.
    pub fn advance_secs(&mut self, secs: i64) -> (now: i64)
        requires
            i64::MIN <= old(self)@ + secs_to_ms(secs) <= i64::MAX,
        ensures
            final(self)@ == old(self)@ + secs_to_ms(secs),
            now == final(self)@,
    {
        let ms: i64 = crate::arith::saturating_mul(secs, 1000);
        self.advance(ms)
    }
}

impl Clock for MockClock {
    open spec fn tells(&self, now_ms: i64) -> bool {
        now_ms == self@
    }

    fn now_ms(&self) -> (now: i64)
        ensures
            now == self@,
    {
        self.now
    }
}

} // verus!
