//! The time budget guard: a stopwatch that tells whether a deadline has passed.

use std::time::Duration;
use std::time::Instant;
use vstd::prelude::*;

verus! {

/// `std::time::Instant`, a reading of the monotonic clock that Verus does not look into.
#[verifier::external_type_specification]
#[verifier::external_body]
pub struct ExInstant(Instant);

/// Calls `Instant::now`, which reads the clock. Nothing is claimed of the reading.
#[verifier::external_body]
fn clock_now() -> Instant {
    Instant::now()
}

/// Calls `Instant::elapsed`, the time that has passed since the reading was taken. Nothing
/// is claimed of it.
#[verifier::external_body]
fn clock_elapsed(start: &Instant) -> Duration {
    start.elapsed()
}

/// The greatest number of whole milliseconds that a `Duration` can hold: `u64::MAX`
/// seconds and 999 milliseconds.
pub const MOST_MILLISECONDS: u128 = 18_446_744_073_709_551_615_999;

/// Calls `Duration::as_millis`, the whole milliseconds that the duration holds. A
/// `Duration` is a number of whole seconds that fits a `u64` and a part of less than a
/// second, so the number is at most `MOST_MILLISECONDS`.
#[verifier::external_body]
fn whole_milliseconds(duration: &Duration) -> (milliseconds: u128)
    ensures
        milliseconds <= MOST_MILLISECONDS,
{
    duration.as_millis()
}

/// A deadline a fixed number of milliseconds after the guard was made.
pub struct TimeKeeper {
    started_time: Instant,
    time_threshold_milseconds: u128,
}

impl TimeKeeper {
    /// The number of milliseconds after which the time is over.
    pub closed spec fn threshold(&self) -> u128 {
        self.time_threshold_milseconds
    }

    /// A guard whose time starts now and is over after the given number of milliseconds.
    pub fn new(time_threshold_milseconds: u128) -> (keeper: TimeKeeper)
        ensures
            keeper.threshold() == time_threshold_milseconds,
    {
        TimeKeeper { started_time: clock_now(), time_threshold_milseconds }
    }

    /// Whether the time is over once the given number of milliseconds has passed.
    pub fn is_over_after(&self, elapsed_milseconds: u128) -> (over: bool)
        ensures
            over == (elapsed_milseconds >= self.threshold()),
    {
        elapsed_milseconds >= self.time_threshold_milseconds
    }

    /// Whether at least the threshold has passed on the clock since the guard was made.
    /// What the clock says is not known in advance; a threshold of zero is over at once,
    /// and a threshold beyond what the clock can measure is never over.
    pub fn is_time_over(&self) -> (over: bool)
        ensures
            self.threshold() == 0 ==> over,
            self.threshold() > MOST_MILLISECONDS ==> !over,
    {
        let elapsed = clock_elapsed(&self.started_time);
        self.is_over_after(whole_milliseconds(&elapsed))
    }
}

} // verus!
