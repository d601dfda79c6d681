//! The camera: it turns a position on the image plane into a ray through
//! the scene, with a thin lens for depth of field.

use vstd::prelude::*;
use crate::ray::Ray;
use crate::sampler::{
    disk_point_spec, disk_taken, in_unit_disk, random_in_unit_disk, rest, Sampler,
};
use crate::scalar::Scalar;
use crate::vec3::Vec3;

verus! {

/// The frame of a camera, computed once and used for every sample.
#[derive(Clone, Copy, Debug, PartialEq, Eq, Structural)]
pub struct Camera {
    /// The centre of the lens.
    pub origin: Vec3,
    /// The lower left corner of the image plane, at the focus distance.
    pub lower_left_corner: Vec3,
    /// The span of the image plane to the right.
    pub horizontal: Vec3,
    /// The span of the image plane upward.
    pub vertical: Vec3,
    /// The unit vector to the right of the view.
    pub u: Vec3,
    /// The unit vector upward in the view.
    pub v: Vec3,
    /// Half the aperture.
    pub lens_radius: Scalar,
}

impl Camera {
    /// Half the height of the image plane at distance one: the tangent of
    /// half the vertical field of view, which is given in degrees.
    pub open spec fn half_height_spec(vfov_deg: Scalar) -> Scalar {
        let theta = vfov_deg.times(Scalar::pi_spec()).over(Scalar::of_int(180));
        theta.over(Scalar::of_int(2)).tan_spec()
    }

    /// Specification of [`Camera::new`]. The frame is `w`, the unit vector
    /// from `lookat` back to `lookfrom`, `u = unit(vup x w)` and
    /// `v = w x u`. The image plane lies at `focus_dist` before the lens:
    /// it is `2 half_height focus_dist` high and `aspect` times as wide.
    pub open spec fn new_spec(
        lookfrom: Vec3,
        lookat: Vec3,
        vup: Vec3,
        vfov_deg: Scalar,
        aspect: Scalar,
        aperture: Scalar,
        focus_dist: Scalar,
    ) -> Camera {
        let two = Scalar::of_int(2);
        let half_height = Camera::half_height_spec(vfov_deg);
        let half_width = aspect.times(half_height);
        let w = lookfrom.minus(lookat).unit_spec();
        let u = vup.cross_spec(&w).unit_spec();
        let v = w.cross_spec(&u);
        Camera {
            origin: lookfrom,
            lower_left_corner: lookfrom.minus(u.scaled(half_width.times(focus_dist))).minus(
                v.scaled(half_height.times(focus_dist)),
            ).minus(w.scaled(focus_dist)),
            horizontal: u.scaled(two.times(half_width).times(focus_dist)),
            vertical: v.scaled(two.times(half_height).times(focus_dist)),
            u,
            v,
            lens_radius: aperture.over(two),
        }
    }

    /// Specification of [`Camera::get_ray_through`]. The ray starts on the
    /// lens, at `lens_radius * lens_point` in the plane of `u` and `v`, and
    /// aims at the point of the image plane at `s` of its width and `t` of
    /// its height.
    pub open spec fn ray_spec(&self, s: Scalar, t: Scalar, lens_point: Vec3) -> Ray {
        let rd = lens_point.scaled(self.lens_radius);
        let offset = self.u.scaled(rd.x).plus(self.v.scaled(rd.y));
        Ray {
            origin: self.origin.plus(offset),
            direction: self.lower_left_corner.plus(self.horizontal.scaled(s)).plus(
                self.vertical.scaled(t),
            ).minus(self.origin).minus(offset),
        }
    }

    /// A camera at `lookfrom` that looks at `lookat`, with `vup` upward in
    /// the image. `vfov_deg` is the vertical field of view in degrees,
    /// `aspect` the width of the image over its height, `aperture` the
    /// diameter of the lens, and `focus_dist` the distance at which the
    /// image is sharp.
    pub fn new(
        lookfrom: &Vec3,
        lookat: &Vec3,
        vup: &Vec3,
        vfov_deg: Scalar,
        aspect: Scalar,
        aperture: Scalar,
        focus_dist: Scalar,
    ) -> (out: Camera)
        ensures
            out == Camera::new_spec(
                *lookfrom,
                *lookat,
                *vup,
                vfov_deg,
                aspect,
                aperture,
                focus_dist,
            ),
    {
        let two: Scalar = Scalar::from_int(2);
        let theta: Scalar = vfov_deg * Scalar::pi() / Scalar::from_int(180);
        let half_height: Scalar = (theta / two).tan();
        let half_width: Scalar = aspect * half_height;
        let w: Vec3 = (*lookfrom - *lookat).unit();
        let u: Vec3 = vup.cross(&w).unit();
        let v: Vec3 = w.cross(&u);
        Camera {
            lower_left_corner: *lookfrom - half_width * focus_dist * u - half_height * focus_dist
                * v - focus_dist * w,
            horizontal: two * half_width * focus_dist * u,
            vertical: two * half_height * focus_dist * v,
            origin: *lookfrom,
            u,
            v,
            lens_radius: aperture / two,
        }
    }

    /// The ray for the image position `(s, t)`, each from zero to one,
    /// through the given point of the unit disk on the lens.
    pub fn get_ray_through(&self, s: Scalar, t: Scalar, lens_point: &Vec3) -> (out: Ray)
        ensures
            out == self.ray_spec(s, t, *lens_point),
    {
        let rd: Vec3 = self.lens_radius * *lens_point;
        let offset: Vec3 = self.u * rd.x() + self.v * rd.y();
        Ray {
            origin: self.origin + offset,
            direction: self.lower_left_corner + s * self.horizontal + t * self.vertical
                - self.origin - offset,
        }
    }

    /// The ray for the image position `(s, t)`, each from zero to one,
    /// through a random point of the lens: the point of the unit disk that
    /// the sampler gives next.
    pub fn get_ray(&self, s: Scalar, t: Scalar, rng: &mut Sampler) -> (out: Ray)
        ensures
            out == self.ray_spec(s, t, disk_point_spec(old(rng).stream())),
            final(rng).stream() == rest(old(rng).stream(), disk_taken(old(rng).stream())),
            in_unit_disk(disk_point_spec(old(rng).stream())),
    {
        let lens_point: Vec3 = random_in_unit_disk(rng);
        self.get_ray_through(s, t, &lens_point)
    }
}

} // verus!
