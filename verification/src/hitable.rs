//! What it means to be hit by a ray.

use vstd::prelude::*;
use crate::material::Material;
use crate::ray::Ray;
use crate::scalar::Scalar;
use crate::vec3::Vec3;

verus! {

/// One intersection of a ray with a surface: the ray parameter `t`, the
/// point `p` there, the surface normal at `p`, and the material of the
/// surface.
#[derive(Clone, Copy, Debug, PartialEq, Eq, Structural)]
pub struct HitRecord {
    pub t: Scalar,
    pub p: Vec3,
    pub normal: Vec3,
    pub material: Material,
}

/// A surface that a ray can hit.
pub trait Hitable {
    /// The nearest intersection of `r` with the surface whose parameter
    /// lies strictly between `t_min` and `t_max`, if there is one.
    spec fn hit_spec(&self, r: &Ray, t_min: Scalar, t_max: Scalar) -> Option<HitRecord>;

    /// Every hit lies strictly within the bounds that were asked for.
    proof fn lemma_hit_within_bounds(&self, r: &Ray, t_min: Scalar, t_max: Scalar)
        ensures
            self.hit_spec(r, t_min, t_max) matches Some(h) ==> t_min@ < h.t@ < t_max@,
    ;

    /// Intersects `r` with the surface.
    fn hit(&self, r: &Ray, t_min: Scalar, t_max: Scalar) -> (out: Option<HitRecord>)
        ensures
            out == self.hit_spec(r, t_min, t_max),
            out matches Some(h) ==> t_min@ < h.t@ < t_max@,
    ;
}

} // verus!
