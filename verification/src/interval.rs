//! The half-open range of admissible ray parameters.

use vstd::prelude::*;

verus! {

/// A `[min, max]` bound on the ray parameter `t`. During nearest-hit search
/// the upper bound is narrowed to the closest hit found so far.
#[derive(Clone, Copy, PartialEq, Eq, Structural, Debug)]
pub struct Interval {
    pub min: i64,
    pub max: i64,
}

impl Interval {
    /// Builds the interval `[min, max]`.
    pub fn new(min: i64, max: i64) -> (r: Interval)
        ensures
            r.min == min,
            r.max == max,
    {
        Interval { min, max }
    }

    /// The open-interval test `min < t < max`; excludes both endpoints so
    /// that self-intersections at `t == min` and grazing boundary hits are
    /// rejected.
    pub fn surrounds(&self, t: i64) -> (r: bool)
        ensures
            r == (self.min < t && t < self.max),
    {
        self.min < t && t < self.max
    }
}

} // verus!
