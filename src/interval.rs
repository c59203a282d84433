use crate::errors::IntervalsDontIntersectError;
use vstd::prelude::*;

verus! {

/// A point on the timeline, as a count of units from a fixed epoch. Any unit
/// serves, as long as all intervals that meet use the same one.
pub type Instant = i64;

/// The half-open range of instants `start <= t < end`.
///
/// An interval with `start >= end` covers no instant.
#[derive(Clone, Copy, Debug, PartialEq, Eq, Structural)]
pub struct Interval {
    pub start: Instant,
    pub end: Instant,  // exclusive
}

/// The larger of two instants.
pub open spec fn later(a: Instant, b: Instant) -> Instant {
    if a >= b {
        a
    } else {
        b
    }
}

/// The smaller of two instants.
pub open spec fn earlier(a: Instant, b: Instant) -> Instant {
    if a <= b {
        a
    } else {
        b
    }
}

impl Interval {
    /// Neither interval ends at or before the start of the other.
    pub open spec fn overlaps(self, other: Interval) -> bool {
        !(self.end <= other.start) && !(other.end <= self.start)
    }

    /// The common part of two intervals: from the later start to the earlier end.
    pub open spec fn overlap(self, other: Interval) -> Interval {
        Interval { start: later(self.start, other.start), end: earlier(self.end, other.end) }
    }

    /// Whether the two intervals share an instant; touching at a boundary is
    /// not sharing one.
    pub fn is_intersects_with(&self, other: &Interval) -> (r: bool)
        ensures
            r == self.overlaps(*other),
    {
        if self.end <= other.start {
            return false;
        }
        if other.end <= self.start {
            return false;
        }
        true
    }

    /// The common part of the two intervals, or an error where they share no
    /// instant.
    pub fn intersects_with(&self, other: &Interval) -> (r: Result<
        Interval,
        IntervalsDontIntersectError,
    >)
        ensures
            r == (if self.overlaps(*other) {
                Ok(self.overlap(*other))
            } else {
                Err(IntervalsDontIntersectError)
            }),
    {
        if !self.is_intersects_with(other) {
            return Err(IntervalsDontIntersectError);
        }
        let start = if self.start >= other.start {
            self.start
        } else {
            other.start
        };
        let end = if self.end <= other.end {
            self.end
        } else {
            other.end
        };
        Ok(Interval { start, end })
    }
}

} // verus!
