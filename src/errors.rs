use vstd::prelude::*;

verus! {

/// Two intervals share no instant, so their overlap is undefined.
#[derive(Debug, Clone, Copy, PartialEq, Eq, Structural)]
pub struct IntervalsDontIntersectError;

impl IntervalsDontIntersectError {
    /// The message that describes this error.
    pub fn message(&self) -> (r: String)
        ensures
            r@ == "Intervals don't intersect"@,
    {
        String::from_str("Intervals don't intersect")
    }
}

} // verus!
