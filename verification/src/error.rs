//! What can go wrong.

use vstd::prelude::*;

verus! {

/// The input points do not span a polygon: a coordinate is not finite, fewer
/// than three places of the plane are named, or the convex hull has fewer
/// than three vertices.
#[derive(Clone, Copy, Debug, PartialEq, Eq, Structural)]
pub struct DegenerateInputError;

/// A measured value cannot be used.
#[derive(Clone, Copy, Debug, PartialEq, Eq, Structural)]
pub enum ComputationError {
    /// A value that has to be a finite number, not below zero, is something
    /// else; a candidate does not bring one distance for each edge or vertex
    /// that it is measured against; or the quotient of the radii lies on the
    /// wrong side of one.
    NotMeasurable,
    /// There is no candidate to choose a circle from.
    NoCandidate,
    /// The circumcircle has radius zero, so the ratio of the radii is undefined.
    DivisionByZero,
}

} // verus!
