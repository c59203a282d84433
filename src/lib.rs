//! Intersection of several start-sorted sequences of half-open intervals.
//!
//! An [`Interval`] covers the instants `start <= t < end`. An
//! [`IntervalsSequence`] holds intervals sorted by their start. The function
//! [`intersects_intervals_sequences`] computes the intervals covered at once by
//! one interval of every input sequence.
pub mod errors;
pub mod intersector;
pub mod interval;
pub mod interval_sequence;
pub mod laws;

pub use errors::IntervalsDontIntersectError;
pub use intersector::intersects_intervals_sequences;
pub use interval::{Instant, Interval};
pub use interval_sequence::IntervalsSequence;
