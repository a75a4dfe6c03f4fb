use vstd::prelude::*;
use std::time::{Duration, Instant};

verus! {

/// The value of `x` limited to the range `min ..= max`.
pub open spec fn clamp_spec(x: int, min: int, max: int) -> int {
    if x < min {
        min
    } else if x > max {
        max
    } else {
        x
    }
}

/// Limits `x` to `min ..= max`; below `min` gives `min`, above `max` gives `max`.
pub fn clamp(x: i32, min: i32, max: i32) -> (r: i32)
    ensures
        r == clamp_spec(x as int, min as int, max as int),
{
    if x < min {
        min
    } else if x > max {
        max
    } else {
        x
    }
}

#[verifier::external_type_specification]
#[verifier::external_body]
pub struct ExInstant(Instant);

/// Relies on `std::time::Instant::now`: the current reading of the monotonic clock.
#[verifier::external_body]
fn clock_now() -> (r: Instant) {
    Instant::now()
}

/// Relies on `Instant::saturating_duration_since`: the time from `earlier` to
/// `later`, zero where `later` is not after it.
#[verifier::external_body]
fn time_between(earlier: &Instant, later: &Instant) -> (r: Duration) {
    later.saturating_duration_since(*earlier)
}

/// Relies on `Duration::as_micros`: the whole microseconds in `d`.
#[verifier::external_body]
fn whole_micros(d: &Duration) -> (r: u128) {
    d.as_micros()
}

/// `us` held to the range of `u64`.
pub open spec fn saturate_micros_spec(us: int) -> int {
    if us > u64::MAX {
        u64::MAX as int
    } else {
        us
    }
}

/// Holds a count of microseconds to the range of `u64`.
pub fn saturate_micros(us: u128) -> (r: u64)
    ensures
        r == saturate_micros_spec(us as int),
{
    if us > u64::MAX as u128 {
        u64::MAX
    } else {
        us as u64
    }
}

/// The whole microseconds from the reading `earlier` to the reading `later`,
/// 0 where `later` is not after it.
pub open spec fn elapsed_spec(earlier: int, later: int) -> int {
    if later > earlier {
        later - earlier
    } else {
        0
    }
}

/// Measures the time between frames. Readings of the monotonic clock are
/// kept as whole microseconds since `origin`.
pub struct Timer {
    pub origin: Instant,
    pub last_us: u128,
}

impl Timer {
    /// A timer that starts now.
    pub fn new() -> (r: Self)
        ensures
            r.last_us == 0,
    {
        Timer { origin: clock_now(), last_us: 0 }
    }

    /// Reads the clock, in whole microseconds since `origin`.
    fn read_micros(&self) -> u128 {
        let now = clock_now();
        whole_micros(&time_between(&self.origin, &now))
    }

    /// Reads the clock, keeps the reading, and returns the whole microseconds
    /// since the previous reading (or since the timer started), held to the
    /// range of `u64`.
    pub fn dt(&mut self) -> (r: u64)
        ensures
            final(self).origin == old(self).origin,
            r == saturate_micros_spec(elapsed_spec(old(self).last_us as int, final(self).last_us as int)),
    {
        let now_us = self.read_micros();
        let elapsed = if now_us > self.last_us {
            now_us - self.last_us
        } else {
            0
        };
        self.last_us = now_us;
        saturate_micros(elapsed)
    }
}

} // verus!
