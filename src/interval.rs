//! Closed ranges of scalars, used as the window of accepted ray parameters.

use vstd::prelude::*;

use crate::fixed::{INFINITY, NEG_INFINITY};

verus! {

/// The range `[min, max]`.
#[derive(Clone, Copy, Debug, PartialEq, Eq, Structural)]
pub struct Interval {
    pub min: i64,
    pub max: i64,
}

impl Interval {
    pub open spec fn spec_contains(self, value: int) -> bool {
        self.min <= value <= self.max
    }

    pub open spec fn spec_surrounds(self, value: int) -> bool {
        self.min < value < self.max
    }

    pub open spec fn with_max_spec(self, new_max: i64) -> Interval {
        Interval { min: self.min, max: new_max }
    }

    pub fn new(min: i64, max: i64) -> (r: Interval)
        ensures
            r.min == min && r.max == max,
    {
        Interval { min, max }
    }

    /// The range that holds nothing.
    pub fn empty() -> (r: Interval)
        ensures
            r.min == INFINITY && r.max == NEG_INFINITY,
            forall|v: int| !r.spec_contains(v),
    {
        Interval { min: INFINITY, max: NEG_INFINITY }
    }

    /// The range of every scalar.
    pub fn universe() -> (r: Interval)
        ensures
            r.min == NEG_INFINITY && r.max == INFINITY,
    {
        Interval { min: NEG_INFINITY, max: INFINITY }
    }

    /// The range `[0, +infinity]`.
    pub fn not_negative() -> (r: Interval)
        ensures
            r.min == 0 && r.max == INFINITY,
    {
        Interval { min: 0, max: INFINITY }
    }

    pub fn contains(&self, value: i64) -> (r: bool)
        ensures
            r == self.spec_contains(value as int),
    {
        self.min <= value && value <= self.max
    }

    /// `value` where the range contains it.
    pub fn contains_some(&self, value: i64) -> (r: Option<i64>)
        ensures
            r == (if self.spec_contains(value as int) {
                Some(value)
            } else {
                None
            }),
    {
        if self.contains(value) {
            Some(value)
        } else {
            None
        }
    }

    /// Whether `value` lies strictly inside the range.
    pub fn surrounds(&self, value: i64) -> (r: bool)
        ensures
            r == self.spec_surrounds(value as int),
    {
        self.min < value && value < self.max
    }

    /// `value` where it lies strictly inside the range.
    pub fn surrounds_some(&self, value: i64) -> (r: Option<i64>)
        ensures
            r == (if self.spec_surrounds(value as int) {
                Some(value)
            } else {
                None
            }),
    {
        if self.surrounds(value) {
            Some(value)
        } else {
            None
        }
    }

    /// `value` saturated into the range, which must not be empty.
    pub fn clamp(&self, value: i64) -> (r: i64)
        requires
            self.min <= self.max,
        ensures
            r == (if value < self.min {
                self.min
            } else if value > self.max {
                self.max
            } else {
                value
            }),
            self.spec_contains(r as int),
    {
        if value < self.min {
            self.min
        } else if value > self.max {
            self.max
        } else {
            value
        }
    }

    /// The same range with a new upper bound.
    pub fn with_max(self, new_max: i64) -> (r: Interval)
        ensures
            r == self.with_max_spec(new_max),
            r.min == self.min && r.max == new_max,
    {
        Interval { min: self.min, max: new_max }
    }
}

/// Membership in a range, and strict membership, are exactly the bounds
/// comparisons; moving the upper bound keeps the lower one.
pub proof fn lemma_interval_membership(i: Interval, x: int, new_max: i64)
    ensures
        i.spec_contains(x) == (i.min <= x && x <= i.max),
        i.spec_surrounds(x) == (i.min < x && x < i.max),
        i.spec_surrounds(x) ==> i.spec_contains(x),
        i.with_max_spec(new_max).max == new_max,
        i.with_max_spec(new_max).min == i.min,
{
}

} // verus!
