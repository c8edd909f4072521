//! The score: the squared ratio of the two radii, as a typed outcome.

use crate::circle::Circle;
use crate::error::ComputationError;
use crate::scalar::{Scalar, ONE_BITS};
use vstd::prelude::*;

verus! {

/// The quotient lies on the side of one on which the radii put it: it is not
/// above one where the incircle is no larger than the circumcircle, and not
/// below one where the incircle is no smaller. Division and squaring of
/// doubles, rounded as they are, keep to this.
pub open spec fn agrees(incircle: Circle, circumcircle: Circle, quotient_squared: Scalar) -> bool {
    &&& incircle.spec_radius().rank() <= circumcircle.spec_radius().rank()
        ==> quotient_squared.rank() <= ONE_BITS
    &&& incircle.spec_radius().rank() >= circumcircle.spec_radius().rank()
        ==> quotient_squared.rank() >= ONE_BITS
}

/// What the roundness of a polygon is, given its two circles and the square
/// of the quotient of their radii as it was computed in doubles.
pub open spec fn roundness_outcome(incircle: Circle, circumcircle: Circle, quotient_squared: Scalar)
    -> Result<Scalar, ComputationError> {
    if circumcircle.spec_radius().spec_is_zero() {
        Err(ComputationError::DivisionByZero)
    } else if incircle.spec_radius().spec_is_zero() {
        Ok(Scalar { bits: 0 })
    } else if quotient_squared.spec_is_distance() && agrees(
        incircle,
        circumcircle,
        quotient_squared,
    ) {
        Ok(quotient_squared)
    } else {
        Err(ComputationError::NotMeasurable)
    }
}

/// The roundness of a polygon with the given incircle and circumcircle.
///
/// A circumcircle of radius zero leaves the ratio undefined: that is
/// `DivisionByZero`, whatever the quotient holds. An incircle of radius zero
/// makes the roundness positive zero, and the quotient is not read. In every
/// other case the roundness is `quotient_squared`, which the caller computed
/// as the square of the incircle's radius divided by the circumcircle's. It
/// is accepted if it is a finite number, not below zero, that agrees with the
/// radii, and is `NotMeasurable` if not: no NaN and no infinity is ever handed
/// on as a score, and a score above one only for an incircle that is larger
/// than the circumcircle.
pub fn roundness(incircle: &Circle, circumcircle: &Circle, quotient_squared: Scalar) -> (r: Result<
    Scalar,
    ComputationError,
>)
    ensures
        r == roundness_outcome(*incircle, *circumcircle, quotient_squared),
        r matches Ok(score) ==> score.spec_is_distance() && (incircle.spec_radius().rank()
            <= circumcircle.spec_radius().rank() ==> score.rank() <= ONE_BITS),
{
    let inner: i64 = incircle.radius().key();
    let outer: i64 = circumcircle.radius().key();
    let quotient: i64 = quotient_squared.key();
    if outer == 0 {
        Err(ComputationError::DivisionByZero)
    } else if inner == 0 {
        Ok(Scalar::zero())
    } else if quotient_squared.is_distance() && (inner > outer || quotient <= ONE_BITS as i64) && (
    inner < outer || quotient >= ONE_BITS as i64) {
        Ok(quotient_squared)
    } else {
        Err(ComputationError::NotMeasurable)
    }
}

} // verus!
