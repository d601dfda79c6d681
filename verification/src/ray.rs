//! Rays: an origin and a direction, which need not be of unit length.

use vstd::prelude::*;
use crate::scalar::Scalar;
use crate::vec3::Vec3;

verus! {

/// The half-line `origin + t * direction`.
#[derive(Clone, Copy, Debug, PartialEq, Eq, Structural)]
pub struct Ray {
    pub origin: Vec3,
    pub direction: Vec3,
}

impl Ray {
    /// Specification of [`Ray::point_at_parameter`].
    pub open spec fn point_at_spec(&self, t: Scalar) -> Vec3 {
        self.origin.plus(self.direction.scaled(t))
    }

    /// The point `origin + t * direction`, for any `t`.
    pub fn point_at_parameter(&self, t: Scalar) -> (out: Vec3)
        ensures
            out == self.point_at_spec(t),
    {
        self.origin + t * self.direction
    }
}

} // verus!
