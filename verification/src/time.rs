//! Readings of a monotonic clock.

use vstd::prelude::*;

verus! {

/// A reading of a monotonic clock, in nanoseconds since some fixed start.
#[derive(Debug, Clone, Copy, PartialEq, Eq, Structural)]
pub struct Instant {
    pub nanos: u128,
}

/// Nanoseconds in `ms` milliseconds.
pub open spec fn ms_nanos(ms: u64) -> int {
    ms * 1_000_000
}

impl Instant {
    /// The reading `ms` milliseconds after the start.
    pub fn from_millis(ms: u64) -> (r: Instant)
        ensures
            r.nanos == ms_nanos(ms),
    {
        Instant { nanos: ms as u128 * 1_000_000u128 }
    }

    /// The reading `ms` milliseconds later; the last representable one if
    /// there is none.
    pub open spec fn later(self, ms: u64) -> Instant {
        if self.nanos + ms_nanos(ms) <= u128::MAX {
            Instant { nanos: (self.nanos + ms_nanos(ms)) as u128 }
        } else {
            Instant { nanos: u128::MAX }
        }
    }

    pub fn after_ms(&self, ms: u64) -> (r: Instant)
        ensures
            r == self.later(ms),
    {
        let d: u128 = ms as u128 * 1_000_000u128;
        if self.nanos <= u128::MAX - d {
            Instant { nanos: self.nanos + d }
        } else {
            Instant { nanos: u128::MAX }
        }
    }

    /// Whole milliseconds from `earlier` to this reading; none if it is not
    /// earlier.
    pub open spec fn ms_since(self, earlier: Instant) -> u128 {
        if self.nanos > earlier.nanos {
            ((self.nanos - earlier.nanos) / 1_000_000) as u128
        } else {
            0
        }
    }

    pub fn millis_since(&self, earlier: Instant) -> (r: u128)
        ensures
            r == self.ms_since(earlier),
    {
        if self.nanos > earlier.nanos {
            (self.nanos - earlier.nanos) / 1_000_000u128
        } else {
            0
        }
    }

    /// The earlier of two readings.
    pub open spec fn min(self, other: Instant) -> Instant {
        if self.nanos <= other.nanos {
            self
        } else {
            other
        }
    }

    /// The later of two readings.
    pub open spec fn max(self, other: Instant) -> Instant {
        if self.nanos <= other.nanos {
            other
        } else {
            self
        }
    }

    pub fn later_of(self, other: Instant) -> (r: Instant)
        ensures
            r == self.max(other),
    {
        if self.nanos <= other.nanos {
            other
        } else {
            self
        }
    }

    pub fn earlier(self, other: Instant) -> (r: Instant)
        ensures
            r == self.min(other),
    {
        if self.nanos <= other.nanos {
            self
        } else {
            other
        }
    }
}

} // verus!
