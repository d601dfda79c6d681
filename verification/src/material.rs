//! Surface materials and the way each of them scatters an incoming ray.

use vstd::prelude::*;
use core::ops::Neg;
use crate::ray::Ray;
use crate::sampler::{
    ball_point_spec, ball_taken, centre, in_unit_ball, is_unit_draw, lemma_centre_in_ball,
    lemma_rest_of_rest, random_in_unit_sphere, rest, Sampler, Stream,
};
use crate::scalar::Scalar;
use crate::vec3::Vec3;

verus! {

/// What a surface is made of.
#[derive(Clone, Copy, Debug, PartialEq, Eq, Structural)]
pub enum Material {
    /// A diffuse surface of the given colour.
    Lambertian { albedo: Vec3 },
    /// A mirror of the given colour, blurred by `fuzz`, which lies between
    /// zero and one.
    Metal { albedo: Vec3, fuzz: Scalar },
    /// A clear, colourless medium such as glass.
    Dielectric { refraction_index: Scalar },
}

/// The outgoing ray of a scattering and the factor by which each colour
/// channel of the light that arrives along it is multiplied.
#[derive(Clone, Copy, Debug, PartialEq, Eq, Structural)]
pub struct Scattering {
    pub ray: Ray,
    pub attenuation: Vec3,
}

/// Specification of [`reflect`]: `v - 2 (v . n) n`.
pub open spec fn reflect_spec(v: Vec3, n: Vec3) -> Vec3 {
    v.minus(n.scaled(Scalar::of_int(2).times(v.dot_spec(&n))))
}

/// The discriminant of Snell's law for the unit direction `uv`:
/// `1 - ni_over_nt^2 (1 - (uv . n)^2)`.
pub open spec fn refract_discriminant(uv: Vec3, n: Vec3, ni_over_nt: Scalar) -> Scalar {
    let dt = uv.dot_spec(&n);
    Scalar::of_int(1).minus(
        ni_over_nt.times(ni_over_nt).times(Scalar::of_int(1).minus(dt.times(dt))),
    )
}

/// Specification of [`refract`]: nothing where the discriminant is not
/// positive, which is total internal reflection; else
/// `ni_over_nt (uv - n (uv . n)) - n sqrt(discriminant)` for the unit
/// direction `uv` of `v`.
pub open spec fn refract_spec(v: Vec3, n: Vec3, ni_over_nt: Scalar) -> Option<Vec3> {
    let uv = v.unit_spec();
    let dt = uv.dot_spec(&n);
    let discriminant = refract_discriminant(uv, n, ni_over_nt);
    if discriminant@ > 0 {
        Some(uv.minus(n.scaled(dt)).scaled(ni_over_nt).minus(n.scaled(discriminant.sqrt_spec())))
    } else {
        None
    }
}

/// The fifth power, by two squarings and one more product.
pub open spec fn pow5_spec(x: Scalar) -> Scalar {
    x.times(x).times(x.times(x)).times(x)
}

/// Specification of [`schlick`]: `r0 + (1 - r0) (1 - cosine)^5` with
/// `r0 = ((1 - ref_idx) / (1 + ref_idx))^2`.
pub open spec fn schlick_spec(cosine: Scalar, ref_idx: Scalar) -> Scalar {
    let one = Scalar::of_int(1);
    let q = one.minus(ref_idx).over(one.plus(ref_idx));
    let r0 = q.times(q);
    r0.plus(one.minus(r0).times(pow5_spec(one.minus(cosine))))
}

/// The mirror image of the direction `v` at a surface with normal `n`.
pub fn reflect(v: &Vec3, n: &Vec3) -> (out: Vec3)
    ensures
        out == reflect_spec(*v, *n),
{
    *v - Scalar::from_int(2) * v.dot(n) * *n
}

/// The direction in which `v` goes on through a surface with normal `n`,
/// where `ni_over_nt` is the ratio of the refractive indices; nothing on
/// total internal reflection.
pub fn refract(v: &Vec3, n: &Vec3, ni_over_nt: Scalar) -> (out: Option<Vec3>)
    ensures
        out == refract_spec(*v, *n, ni_over_nt),
{
    let one: Scalar = Scalar::from_int(1);
    let zero: Scalar = Scalar::from_int(0);
    let uv: Vec3 = v.unit();
    let dt: Scalar = uv.dot(n);
    let discriminant: Scalar = one - ni_over_nt * ni_over_nt * (one - dt * dt);
    if discriminant > zero {
        Some(ni_over_nt * (uv - *n * dt) - *n * discriminant.sqrt())
    } else {
        None
    }
}

/// Schlick's approximation of the share of light that a dielectric
/// reflects at the given cosine of the angle of incidence.
pub fn schlick(cosine: Scalar, ref_idx: Scalar) -> (out: Scalar)
    ensures
        out == schlick_spec(cosine, ref_idx),
{
    let one: Scalar = Scalar::from_int(1);
    let q: Scalar = (one - ref_idx) / (one + ref_idx);
    let r0: Scalar = q * q;
    let x: Scalar = one - cosine;
    let x2: Scalar = x * x;
    r0 + (one - r0) * (x2 * x2 * x)
}

impl Material {
    /// What a diffuse surface does: the ray leaves the hit point toward
    /// `position + normal + jitter`.
    pub open spec fn lambertian_spec(
        albedo: Vec3,
        position: Vec3,
        normal: Vec3,
        jitter: Vec3,
    ) -> Scattering {
        let target = position.plus(normal).plus(jitter);
        Scattering {
            ray: Ray { origin: position, direction: target.minus(position) },
            attenuation: albedo,
        }
    }

    /// The direction in which a metal sends the ray on: the mirror image of
    /// the unit incoming direction, moved by `fuzz * jitter`.
    pub open spec fn metal_direction(
        fuzz: Scalar,
        incident: Vec3,
        normal: Vec3,
        jitter: Vec3,
    ) -> Vec3 {
        reflect_spec(incident.unit_spec(), normal).plus(jitter.scaled(fuzz))
    }

    /// What a metal does: it scatters where the outgoing direction points
    /// away from the surface, and absorbs the ray otherwise.
    pub open spec fn metal_spec(
        albedo: Vec3,
        fuzz: Scalar,
        incident: Vec3,
        position: Vec3,
        normal: Vec3,
        jitter: Vec3,
    ) -> Option<Scattering> {
        let direction = Material::metal_direction(fuzz, incident, normal, jitter);
        if direction.dot_spec(&normal)@ > 0 {
            Some(Scattering { ray: Ray { origin: position, direction }, attenuation: albedo })
        } else {
            None
        }
    }

    /// Whether the ray leaves the medium, which is where its direction
    /// points along the normal.
    pub open spec fn leaves(incident: Vec3, normal: Vec3) -> bool {
        incident.dot_spec(&normal)@ > 0
    }

    /// The cosine that enters Schlick's approximation.
    pub open spec fn dielectric_cosine(
        refraction_index: Scalar,
        incident: Vec3,
        normal: Vec3,
    ) -> Scalar {
        let r_dot_n = incident.dot_spec(&normal);
        if Material::leaves(incident, normal) {
            refraction_index.times(r_dot_n).over(incident.norm_spec())
        } else {
            r_dot_n.negated().over(incident.norm_spec())
        }
    }

    /// The refracted direction of a ray at a dielectric, if there is one.
    pub open spec fn dielectric_refracted(
        refraction_index: Scalar,
        incident: Vec3,
        normal: Vec3,
    ) -> Option<Vec3> {
        if Material::leaves(incident, normal) {
            refract_spec(incident, normal.negated(), refraction_index)
        } else {
            refract_spec(incident, normal, Scalar::of_int(1).over(refraction_index))
        }
    }

    /// What a dielectric does: on total internal reflection the ray is
    /// mirrored; otherwise it is mirrored where `draw` is less than the
    /// reflectance and refracted where it is not. Nothing is absorbed and
    /// no channel is dimmed.
    pub open spec fn dielectric_spec(
        refraction_index: Scalar,
        incident: Vec3,
        position: Vec3,
        normal: Vec3,
        draw: Scalar,
    ) -> Scattering {
        let white = Vec3 { x: Scalar::of_int(1), y: Scalar::of_int(1), z: Scalar::of_int(1) };
        let reflectance = schlick_spec(
            Material::dielectric_cosine(refraction_index, incident, normal),
            refraction_index,
        );
        let direction = match Material::dielectric_refracted(refraction_index, incident, normal) {
            None => reflect_spec(incident, normal),
            Some(refracted) => if draw@ < reflectance@ {
                reflect_spec(incident, normal)
            } else {
                refracted
            },
        };
        Scattering { ray: Ray { origin: position, direction }, attenuation: white }
    }

    /// The scattering of `incident_ray` at `position` with the given
    /// surface normal, for the random point `jitter` of the unit ball and
    /// the random `draw` from the unit interval.
    pub open spec fn scatter_spec(
        &self,
        incident_ray: &Ray,
        position: &Vec3,
        normal: &Vec3,
        jitter: Vec3,
        draw: Scalar,
    ) -> Option<Scattering> {
        match *self {
            Material::Lambertian { albedo } => Some(
                Material::lambertian_spec(albedo, *position, *normal, jitter),
            ),
            Material::Metal { albedo, fuzz } => Material::metal_spec(
                albedo,
                fuzz,
                incident_ray.direction,
                *position,
                *normal,
                jitter,
            ),
            Material::Dielectric { refraction_index } => Some(
                Material::dielectric_spec(
                    refraction_index,
                    incident_ray.direction,
                    *position,
                    *normal,
                    draw,
                ),
            ),
        }
    }

    /// Whether `out` is among the results that [`Material::scatter`] can
    /// give: the scattering for some point of the unit ball and some draw
    /// from the unit interval.
    #[verifier::opaque]
    pub open spec fn may_scatter(
        &self,
        incident_ray: &Ray,
        position: &Vec3,
        normal: &Vec3,
        out: Option<Scattering>,
    ) -> bool {
        exists|jitter: Vec3, draw: Scalar|
            in_unit_ball(jitter) && is_unit_draw(draw) && out == #[trigger] self.scatter_spec(
                incident_ray,
                position,
                normal,
                jitter,
                draw,
            )
    }

    /// The factor by which a scattering at this material multiplies the
    /// light: the albedo, and white for a dielectric.
    pub open spec fn tint(&self) -> Vec3 {
        match *self {
            Material::Lambertian { albedo } => albedo,
            Material::Metal { albedo, fuzz } => albedo,
            Material::Dielectric { refraction_index } => Vec3 {
                x: Scalar::of_int(1),
                y: Scalar::of_int(1),
                z: Scalar::of_int(1),
            },
        }
    }

    /// Of every scattering that a material may give: a diffuse surface and
    /// a dielectric always scatter; a metal scatters only into a direction
    /// that points away from the surface. The scattered ray starts at the
    /// hit point, and the light is multiplied by the tint of the material.
    pub proof fn lemma_scatter_outcomes(
        &self,
        incident_ray: &Ray,
        position: &Vec3,
        normal: &Vec3,
        out: Option<Scattering>,
    )
        requires
            self.may_scatter(incident_ray, position, normal, out),
        ensures
            *self is Lambertian ==> out is Some,
            *self is Dielectric ==> out is Some,
            out matches Some(s) ==> {
                &&& s.ray.origin == *position
                &&& s.attenuation == self.tint()
                &&& *self is Metal ==> s.ray.direction.dot_spec(normal)@ > 0
            },
    {
        reveal(Material::may_scatter);
    }

    /// Scatters with the random values given by the caller.
    pub fn scatter_with(
        &self,
        incident_ray: &Ray,
        position: &Vec3,
        normal: &Vec3,
        jitter: &Vec3,
        draw: Scalar,
    ) -> (out: Option<Scattering>)
        ensures
            out == self.scatter_spec(incident_ray, position, normal, *jitter, draw),
            *self is Lambertian ==> out is Some,
            *self is Dielectric ==> out is Some,
            *self matches Material::Metal { albedo, fuzz } ==> (out is None
                <==> Material::metal_direction(
                fuzz,
                incident_ray.direction,
                *normal,
                *jitter,
            ).dot_spec(normal)@ <= 0),
    {
        let zero: Scalar = Scalar::from_int(0);
        let one: Scalar = Scalar::from_int(1);
        match *self {
            Material::Lambertian { albedo } => {
                let target: Vec3 = *position + *normal + *jitter;
                let scattered: Ray = Ray { origin: *position, direction: target - *position };
                Some(Scattering { ray: scattered, attenuation: albedo })
            },
            Material::Metal { albedo, fuzz } => {
                let reflected: Vec3 = reflect(&incident_ray.direction.unit(), normal);
                let scattered: Ray = Ray {
                    origin: *position,
                    direction: reflected + fuzz * *jitter,
                };
                if scattered.direction.dot(normal) > zero {
                    Some(Scattering { ray: scattered, attenuation: albedo })
                } else {
                    None
                }
            },
            Material::Dielectric { refraction_index } => {
                let r_dot_n: Scalar = incident_ray.direction.dot(normal);
                let (outward_normal, ni_over_nt, cosine): (Vec3, Scalar, Scalar) = if r_dot_n
                    > zero {
                    let cosine: Scalar = refraction_index * r_dot_n
                        / incident_ray.direction.norm();
                    (normal.neg(), refraction_index, cosine)
                } else {
                    let cosine: Scalar = r_dot_n.neg() / incident_ray.direction.norm();
                    (*normal, one / refraction_index, cosine)
                };
                let reflected_dir: Vec3 = reflect(&incident_ray.direction, normal);
                let attenuation: Vec3 = Vec3::new(one, one, one);
                let reflection: Scattering = Scattering {
                    ray: Ray { origin: *position, direction: reflected_dir },
                    attenuation,
                };
                match refract(&incident_ray.direction, &outward_normal, ni_over_nt) {
                    None => Some(reflection),
                    Some(refracted) => {
                        if draw < schlick(cosine, refraction_index) {
                            Some(reflection)
                        } else {
                            Some(
                                Scattering {
                                    ray: Ray { origin: *position, direction: refracted },
                                    attenuation,
                                },
                            )
                        }
                    },
                }
            },
        }
    }

    /// How many draws a dielectric takes: one where there is a refracted
    /// ray, to decide between it and the mirror image, and none on total
    /// internal reflection.
    pub open spec fn dielectric_taken(
        refraction_index: Scalar,
        incident: Vec3,
        normal: Vec3,
    ) -> nat {
        if Material::dielectric_refracted(refraction_index, incident, normal) is Some {
            1
        } else {
            0
        }
    }

    /// Specification of [`Material::scatter`]: the scattering for the
    /// draws of `stream`. A dielectric takes one draw where the ray can be
    /// refracted, which decides between the mirror image and the refracted
    /// ray; the other materials take a point of the unit ball.
    pub open spec fn scatter_drawn(
        &self,
        incident_ray: &Ray,
        position: &Vec3,
        normal: &Vec3,
        stream: Stream,
    ) -> Option<Scattering> {
        match *self {
            Material::Dielectric { refraction_index } => self.scatter_spec(
                incident_ray,
                position,
                normal,
                centre(),
                if Material::dielectric_taken(refraction_index, incident_ray.direction, *normal)
                    == 1 {
                    stream(0)
                } else {
                    Scalar::of_int(0)
                },
            ),
            _ => self.scatter_spec(
                incident_ray,
                position,
                normal,
                ball_point_spec(stream),
                Scalar::of_int(0),
            ),
        }
    }

    /// How many draws [`Material::scatter`] takes.
    pub open spec fn scatter_taken(
        &self,
        incident_ray: &Ray,
        normal: &Vec3,
        stream: Stream,
    ) -> nat {
        match *self {
            Material::Dielectric { refraction_index } => Material::dielectric_taken(
                refraction_index,
                incident_ray.direction,
                *normal,
            ),
            _ => ball_taken(stream),
        }
    }

    /// Whether a ray of the direction `incident` can be refracted at a
    /// dielectric, which it cannot on total internal reflection.
    pub fn refracts(refraction_index: Scalar, incident: &Vec3, normal: &Vec3) -> (out: bool)
        ensures
            out == (Material::dielectric_refracted(refraction_index, *incident, *normal) is Some),
            out == (Material::dielectric_taken(refraction_index, *incident, *normal) == 1),
    {
        let zero: Scalar = Scalar::from_int(0);
        let one: Scalar = Scalar::from_int(1);
        let refracted: Option<Vec3> = if incident.dot(normal) > zero {
            refract(incident, &normal.neg(), refraction_index)
        } else {
            refract(incident, normal, one / refraction_index)
        };
        match refracted {
            Some(_) => true,
            None => false,
        }
    }

    /// Scatters `incident_ray`, which hit a surface of this material at
    /// `position`, where the surface has the unit normal `normal`. The
    /// random values come from `rng`: a point of the unit ball for a
    /// diffuse surface or a metal; for a dielectric one draw from the unit
    /// interval where the ray can be refracted, and nothing on total
    /// internal reflection. Nothing comes back where the ray is absorbed.
    pub fn scatter(
        &self,
        incident_ray: &Ray,
        position: &Vec3,
        normal: &Vec3,
        rng: &mut Sampler,
    ) -> (out: Option<Scattering>)
        ensures
            out == self.scatter_drawn(incident_ray, position, normal, old(rng).stream()),
            final(rng).stream() == rest(
                old(rng).stream(),
                self.scatter_taken(incident_ray, normal, old(rng).stream()),
            ),
            self.may_scatter(incident_ray, position, normal, out),
            *self is Lambertian ==> out is Some,
            *self is Dielectric ==> out is Some,
            out matches Some(s) ==> {
                &&& s.ray.origin == *position
                &&& s.attenuation == self.tint()
                &&& *self is Metal ==> s.ray.direction.dot_spec(normal)@ > 0
            },
    {
        let zero: Scalar = Scalar::from_int(0);
        reveal(Material::may_scatter);
        match *self {
            Material::Dielectric { refraction_index } => {
                proof {
                    lemma_rest_of_rest(rng.stream(), 0, 0);
                }
                let draw: Scalar = if Material::refracts(
                    refraction_index,
                    &incident_ray.direction,
                    normal,
                ) {
                    rng.uniform()
                } else {
                    zero
                };
                let centre: Vec3 = Vec3::new(zero, zero, zero);
                proof {
                    lemma_centre_in_ball();
                }
                self.scatter_with(incident_ray, position, normal, &centre, draw)
            },
            _ => {
                let jitter: Vec3 = random_in_unit_sphere(rng);
                self.scatter_with(incident_ray, position, normal, &jitter, zero)
            },
        }
    }
}

} // verus!
