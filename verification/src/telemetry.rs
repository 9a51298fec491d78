//! How long things take.

use std::time::{Duration, Instant};
use vstd::prelude::*;

verus! {

#[verifier::external_type_specification]
#[verifier::external_body]
pub struct ExInstant(std::time::Instant);

/// `std::time::Instant::now` reads the clock, so nothing is said of the instant.
#[verifier::external_body]
fn now() -> (instant: Instant) {
    Instant::now()
}

/// `std::time::Instant::elapsed` reads the clock, so nothing is said of the duration.
#[verifier::external_body]
fn since(start: &Instant) -> (elapsed: Duration) {
    start.elapsed()
}

/// Reads the clock.
fn read_clock<F: Fn(&Instant) -> Duration>(read: F, start: &Instant) -> (elapsed: Duration)
    requires
        call_requires(read, (start,)),
    ensures
        call_ensures(read, (start,), elapsed),
{
    read(start)
}

/// A measurement that is going on.
pub struct Timer {
    start: Instant,
    label: &'static str,
}

/// A measurement that is over.
pub struct Lap {
    pub label: &'static str,
    pub elapsed: Duration,
}

impl Timer {
    /// What is measured.
    pub closed spec fn measures(self) -> &'static str {
        self.label
    }

    /// Begins to measure.
    pub fn start(label: &'static str) -> (timer: Self)
        ensures
            timer.measures() == label,
    {
        Timer { start: now(), label }
    }

    /// The measurement, when the time that it took is the one given. That time is kept as it is.
    pub fn lap(self, elapsed: Duration) -> (lap: Lap)
        ensures
            lap.label == self.measures(),
            lap.elapsed == elapsed,
    {
        Lap { label: self.label, elapsed }
    }

    /// Whether a time is one that the clock gives for this measurement, read since its start.
    pub closed spec fn may_take(self, elapsed: Duration) -> bool {
        call_ensures(since, (&self.start,), elapsed)
    }

    /// Ends the measurement. How long it took is up to the clock; the time is the one that the clock
    /// gives since the start of this very measurement, as it gives it.
    pub fn stop(self) -> (lap: Lap)
        ensures
            lap.label == self.measures(),
            self.may_take(lap.elapsed),
    {
        let elapsed = read_clock(since, &self.start);
        self.lap(elapsed)
    }
}

} // verus!
