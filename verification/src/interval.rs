//! A pair of bounds on the real line, and the two things done with one:
//! asking whether a number lies strictly between the bounds, and pulling a
//! number back to the nearer bound.

use crate::scalar::Scalar;
use vstd::prelude::*;

verus! {

/// Two bounds, `start` and `end`.
#[derive(Clone, Copy, Debug, PartialEq, Eq, Structural)]
pub struct Interval {
    pub start: Scalar,
    pub end: Scalar,
}

impl Interval {
    /// Whether `number` lies in the open interval: above `start` and below
    /// `end`. NaN lies in no interval, and an interval with a NaN bound holds
    /// nothing.
    pub open spec fn spec_contains(self, number: Scalar) -> bool {
        self.start.lt(number) && number.lt(self.end)
    }

    /// The number that `clamp` returns: `start` for a number below `start`,
    /// `end` for a number above `end`, the number itself otherwise.
    pub open spec fn clamped(self, number: Scalar) -> Scalar {
        if number.lt(self.start) {
            self.start
        } else if self.end.lt(number) {
            self.end
        } else {
            number
        }
    }

    /// The interval between two bounds.
    pub fn new(start: Scalar, end: Scalar) -> (interval: Interval)
        ensures
            interval.start == start,
            interval.end == end,
    {
        Interval { start, end }
    }

    /// Whether `number` lies strictly between the bounds.
    #[verifier::when_used_as_spec(spec_contains)]
    pub fn contains(self, number: Scalar) -> (inside: bool)
        ensures
            inside == self.spec_contains(number),
    {
        self.start.lt(number) && number.lt(self.end)
    }
}

/// Pulls `number` into the closed interval from `range.start` to `range.end`.
///
/// A number below the start becomes the start, one above the end becomes the
/// end, and any other comes back as it is: NaN too, which is neither below nor
/// above anything.
pub fn clamp(number: Scalar, range: &Interval) -> (result: Scalar)
    ensures
        result == range.clamped(number),
{
    if number.lt(range.start) {
        range.start
    } else if range.end.lt(number) {
        range.end
    } else {
        number
    }
}

/// A clamped number lies between the bounds, whenever the bounds are in order
/// and the number is not NaN; and a number already between them is unchanged.
pub proof fn lemma_clamped_within(range: Interval, number: Scalar)
    requires
        range.start.le(range.end),
        !number.nan(),
    ensures
        range.start.le(range.clamped(number)),
        range.clamped(number).le(range.end),
        range.start.le(number) && number.le(range.end) ==> range.clamped(number) == number,
{
}

/// Clamping twice is clamping once, whenever the bounds are in order.
pub proof fn lemma_clamped_idempotent(range: Interval, number: Scalar)
    requires
        range.start.le(range.end),
    ensures
        range.clamped(range.clamped(number)) == range.clamped(number),
{
}

} // verus!
