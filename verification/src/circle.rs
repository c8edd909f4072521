//! Circles.

use crate::error::ComputationError;
use crate::point::Point;
use crate::scalar::Scalar;
use vstd::prelude::*;

verus! {

/// A circle: a finite centre and a radius that is a finite number, not below
/// zero. A value of this type always is one; `new` admits nothing else.
#[derive(Clone, Copy, Debug)]
pub struct Circle {
    centre: Point,
    radius: Scalar,
}

impl Circle {
    #[verifier::type_invariant]
    spec fn valid(self) -> bool {
        self.centre.spec_is_finite() && self.radius.spec_is_distance()
    }

    pub closed spec fn spec_centre(&self) -> Point {
        self.centre
    }

    pub closed spec fn spec_radius(&self) -> Scalar {
        self.radius
    }

    /// The circle round `centre` with the given radius, if that is a circle.
    pub fn new(centre: Point, radius: Scalar) -> (r: Result<Circle, ComputationError>)
        ensures
            match r {
                Ok(c) => centre.spec_is_finite() && radius.spec_is_distance() && c.spec_centre()
                    == centre && c.spec_radius() == radius,
                Err(e) => !(centre.spec_is_finite() && radius.spec_is_distance()) && e
                    == ComputationError::NotMeasurable,
            },
    {
        if centre.is_finite() && radius.is_distance() {
            Ok(Circle { centre, radius })
        } else {
            Err(ComputationError::NotMeasurable)
        }
    }

    #[verifier::when_used_as_spec(spec_centre)]
    pub fn centre(&self) -> (p: Point)
        ensures
            p == self.spec_centre(),
            p.spec_is_finite(),
    {
        proof {
            use_type_invariant(self);
        }
        self.centre
    }

    #[verifier::when_used_as_spec(spec_radius)]
    pub fn radius(&self) -> (s: Scalar)
        ensures
            s == self.spec_radius(),
            s.spec_is_distance(),
    {
        proof {
            use_type_invariant(self);
        }
        self.radius
    }
}

} // verus!
