//! Closed fixed-point ranges, used for ray-parameter windows and color clamping.

use vstd::prelude::*;

verus! {

/// `x` lies in the closed range `[min, max]`.
pub open spec fn spec_contains(min: int, max: int, x: int) -> bool {
    min <= x <= max
}

/// `x` lies strictly inside `(min, max)`.
pub open spec fn spec_surrounds(min: int, max: int, x: int) -> bool {
    min < x < max
}

/// `x` saturated into `[min, max]`.
pub open spec fn spec_clamp(min: int, max: int, x: int) -> int {
    if x < min {
        min
    } else if x > max {
        max
    } else {
        x
    }
}

/// A range of fixed-point values. The default instance is the empty range,
/// with its bounds at the extreme representable values, so that no value is
/// contained until real bounds are set.
#[derive(Clone, Copy, Debug, PartialEq, Eq, Structural)]
pub struct Interval {
    pub min: i64,
    pub max: i64,
}

impl Interval {
    /// The empty range: its lower bound above every value, its upper below.
    pub fn default() -> (r: Self)
        ensures
            r.min == i64::MAX,
            r.max == i64::MIN,
    {
        Self { min: i64::MAX, max: i64::MIN }
    }

    pub fn new(min: i64, max: i64) -> (r: Self)
        ensures
            r.min == min,
            r.max == max,
    {
        Self { min, max }
    }

    /// Width of the range.
    pub fn size(&self) -> (r: i64)
        requires
            i64::MIN <= self.max - self.min <= i64::MAX,
        ensures
            r == self.max - self.min,
    {
        self.max - self.min
    }

    /// Closed containment.
    pub fn contains(&self, x: i64) -> (r: bool)
        ensures
            r == spec_contains(self.min as int, self.max as int, x as int),
    {
        self.min <= x && x <= self.max
    }

    /// Strict containment; keeps accepted ray parameters off the boundary.
    pub fn surrounds(&self, x: i64) -> (r: bool)
        ensures
            r == spec_surrounds(self.min as int, self.max as int, x as int),
    {
        self.min < x && x < self.max
    }

    /// Saturate `x` into the range.
    pub fn clamp(&self, x: i64) -> (r: i64)
        ensures
            r == spec_clamp(self.min as int, self.max as int, x as int),
    {
        if x < self.min {
            return self.min;
        }
        if x > self.max {
            return self.max;
        }
        x
    }
}

/// For a well-ordered range, both endpoints are contained but neither is
/// strictly inside, and clamping any value lands inside the range.
pub proof fn lemma_interval_endpoints(min: int, max: int, x: int)
    requires
        min <= max,
    ensures
        spec_contains(min, max, min),
        spec_contains(min, max, max),
        !spec_surrounds(min, max, min),
        !spec_surrounds(min, max, max),
        spec_contains(min, max, spec_clamp(min, max, x)),
{
}

} // verus!
