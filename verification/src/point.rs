//! Points and segments of the plane.

use crate::scalar::Scalar;
use vstd::prelude::*;

verus! {

/// A point of the plane, by its two coordinates.
#[derive(Clone, Copy, Debug, PartialEq, Eq, Structural)]
pub struct Point {
    pub x: Scalar,
    pub y: Scalar,
}

impl Point {
    /// Both coordinates are finite numbers.
    pub open spec fn spec_is_finite(&self) -> bool {
        self.x.spec_is_finite() && self.y.spec_is_finite()
    }

    /// The ranks of the two coordinates. Finite points lie at the same place
    /// of the plane exactly when their locations are equal: the two zeros share
    /// a rank, every other finite number has a rank of its own.
    pub open spec fn location(self) -> (int, int) {
        (self.x.rank(), self.y.rank())
    }

    pub fn new(x: Scalar, y: Scalar) -> (p: Point)
        ensures
            p.x == x,
            p.y == y,
    {
        Point { x, y }
    }

    /// The point whose coordinates are both positive zero.
    pub fn origin() -> (p: Point)
        ensures
            p.x.bits == 0,
            p.y.bits == 0,
    {
        Point { x: Scalar::zero(), y: Scalar::zero() }
    }

    #[verifier::when_used_as_spec(spec_is_finite)]
    pub fn is_finite(&self) -> (b: bool)
        ensures
            b == self.spec_is_finite(),
    {
        self.x.is_finite() && self.y.is_finite()
    }

    /// Whether two points have the same location.
    pub fn same_location(&self, other: &Point) -> (b: bool)
        ensures
            b == (self.location() == other.location()),
    {
        self.x.key() == other.x.key() && self.y.key() == other.y.key()
    }
}

/// The straight line between two points, both included.
#[derive(Clone, Copy, Debug, PartialEq, Eq, Structural)]
pub struct Segment {
    pub start: Point,
    pub end: Point,
}

} // verus!
