//! Endpoints of a range of column values.

use vstd::prelude::*;

verus! {

/// One endpoint of a range of column values.
#[derive(Clone, Copy, Debug, PartialEq, Eq, Structural)]
pub enum Bound {
    /// The endpoint itself belongs to the range.
    Included(u64),
    /// The endpoint itself is outside the range.
    Excluded(u64),
    /// No limit on this side.
    Unbounded,
}

impl Bound {
    /// Whether `v` lies at or above this endpoint, taken as a lower limit.
    pub open spec fn below(self, v: u64) -> bool {
        match self {
            Bound::Included(b) => b <= v,
            Bound::Excluded(b) => b < v,
            Bound::Unbounded => true,
        }
    }

    /// Whether `v` lies at or below this endpoint, taken as an upper limit.
    pub open spec fn above(self, v: u64) -> bool {
        match self {
            Bound::Included(b) => v <= b,
            Bound::Excluded(b) => v < b,
            Bound::Unbounded => true,
        }
    }

    /// Tests `v` against this endpoint as a lower limit.
    pub fn is_below(&self, v: u64) -> (r: bool)
        ensures
            r == self.below(v),
    {
        match self {
            Bound::Included(b) => *b <= v,
            Bound::Excluded(b) => *b < v,
            Bound::Unbounded => true,
        }
    }

    /// Tests `v` against this endpoint as an upper limit.
    pub fn is_above(&self, v: u64) -> (r: bool)
        ensures
            r == self.above(v),
    {
        match self {
            Bound::Included(b) => v <= *b,
            Bound::Excluded(b) => v < *b,
            Bound::Unbounded => true,
        }
    }
}

/// Whether `v` lies between the lower limit `lo` and the upper limit `hi`.
pub open spec fn within(lo: Bound, hi: Bound, v: u64) -> bool {
    lo.below(v) && hi.above(v)
}

} // verus!
