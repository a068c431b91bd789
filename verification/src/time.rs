//! Points in time, for boot times.

use vstd::prelude::*;

verus! {

/// A point in time, in microseconds.
#[derive(Clone, Copy, Debug, PartialEq, Eq, Structural)]
pub struct TimestampUs {
    /// Time on the clock
    pub time_us: u64,
    /// Time that the process has run
    pub cputime_us: u64,
}

/// The time between two points in time, in microseconds.
#[derive(Clone, Copy, Debug, PartialEq, Eq, Structural)]
pub struct Elapsed {
    pub real: u64,
    pub cpu: u64,
}

impl TimestampUs {
    /// Whether `self` is no earlier than `start`, on either clock.
    pub open spec fn not_before(self, start: TimestampUs) -> bool {
        start.time_us <= self.time_us && start.cputime_us <= self.cputime_us
    }

    /// The time from `start` to `self`.
    pub fn since(&self, start: &TimestampUs) -> (e: Elapsed)
        requires
            self.not_before(*start),
        ensures
            e.real == self.time_us - start.time_us,
            e.cpu == self.cputime_us - start.cputime_us,
    {
        Elapsed { real: self.time_us - start.time_us, cpu: self.cputime_us - start.cputime_us }
    }
}

} // verus!
