//! A worked case: one grey sphere, seen head on. The ray is scattered once
//! and then sees the sky, so that the light is half of a sky colour.

use vstd::prelude::*;
use crate::hitable::HitRecord;
use crate::hitable_list::{independent_hits, nearest_of};
use crate::material::{Material, Scattering};
use crate::ray::Ray;
use crate::render::{
    first_hit, lemma_sky_in_range, light_path_spec, path_radiance, radiance_spec, sky_spec,
};
use crate::sampler::{
    ball_point_spec, first_in_ball, is_unit_draw, rest, Stream, MAX_TRIES,
};
use crate::scalar::{lemma_sqrt_bounds, lemma_square_nonnegative, Scalar, MAX_RAW, ONE_RAW};
use crate::sphere::{lemma_head_on_hit, Sphere};
use crate::vec3::Vec3;

verus! {

/// The grey of albedo one half.
pub open spec fn grey() -> Vec3 {
    Vec3 { x: Scalar { raw: 0x80_0000 }, y: Scalar { raw: 0x80_0000 }, z: Scalar { raw: 0x80_0000 } }
}

/// The diffuse grey sphere of radius one half around `(0, 0, -1)`.
pub open spec fn grey_sphere() -> Sphere {
    Sphere {
        center: Vec3 { x: Scalar::of_int(0), y: Scalar::of_int(0), z: Scalar::of_int(-1) },
        radius: Scalar { raw: 0x80_0000 },
        material: Material::Lambertian { albedo: grey() },
    }
}

/// The ray from the origin straight at the centre of the sphere.
pub open spec fn head_on_ray() -> Ray {
    Ray {
        origin: Vec3 { x: Scalar::of_int(0), y: Scalar::of_int(0), z: Scalar::of_int(0) },
        direction: Vec3 { x: Scalar::of_int(0), y: Scalar::of_int(0), z: Scalar::of_int(-1) },
    }
}

/// The point where the ray meets the sphere, `(0, 0, -1/2)`.
pub open spec fn hit_point() -> Vec3 {
    Vec3 { x: Scalar::of_int(0), y: Scalar::of_int(0), z: Scalar { raw: (-0x80_0000) as i64 } }
}

/// The ray that leaves the sphere for the jitter `jitter`: from the hit
/// point along the normal `(0, 0, 1)` plus the jitter.
pub open spec fn scattered_ray(jitter: Vec3) -> Ray {
    Ray {
        origin: hit_point(),
        direction: Vec3 { x: jitter.x, y: jitter.y, z: Scalar::of_int(1).plus(jitter.z) },
    }
}

/// Whether each component of `p` lies in the cube from minus one to one.
pub open spec fn in_cube(p: Vec3) -> bool {
    &&& -ONE_RAW <= p.x@ <= ONE_RAW
    &&& -ONE_RAW <= p.y@ <= ONE_RAW
    &&& -ONE_RAW <= p.z@ <= ONE_RAW
}

/// The point of the ball that a stream of unit draws gives lies in the
/// cube.
pub proof fn lemma_ball_point_in_cube(stream: Stream)
    requires
        forall|i: nat| is_unit_draw(#[trigger] stream(i)),
    ensures
        in_cube(ball_point_spec(stream)),
{
    let k = first_in_ball(stream, 0, MAX_TRIES as nat);
    if k < MAX_TRIES {
        let a = stream(3 * k);
        let b = stream(3 * k + 1);
        let c = stream(3 * k + 2);
        assert(is_unit_draw(a) && is_unit_draw(b) && is_unit_draw(c));
        lemma_doubled(a);
        lemma_doubled(b);
        lemma_doubled(c);
    }
}

/// Twice a unit draw less one lies between minus one and one.
proof fn lemma_doubled(a: Scalar)
    requires
        is_unit_draw(a),
    ensures
        -ONE_RAW <= a.times(Scalar::of_int(2)).minus(Scalar::of_int(1))@ < ONE_RAW,
{
    assert(a@ * Scalar::of_int(2)@ == (2 * a@) * ONE_RAW) by (nonlinear_arith)
        requires
            Scalar::of_int(2)@ == 2 * ONE_RAW,
    ;
    assert(((2 * a@) * ONE_RAW) / (ONE_RAW as int) == 2 * a@);
}

/// The head-on ray meets the grey sphere at the parameter one half, in
/// the point `(0, 0, -1/2)`, where the normal is `(0, 0, 1)`.
pub proof fn lemma_head_on_first_hit()
    ensures
        first_hit(seq![grey_sphere()], &head_on_ray()) == Some(
            HitRecord {
                t: Scalar { raw: 0x80_0000 },
                p: hit_point(),
                normal: Vec3 { x: Scalar::of_int(0), y: Scalar::of_int(0), z: Scalar::of_int(1) },
                material: grey_sphere().material,
            },
        ),
{
    let s = grey_sphere();
    let axis = head_on_ray().direction;
    let dist = Scalar::of_int(1);
    let eps = Scalar::of_ratio(1, 1000);
    let far = Scalar { raw: MAX_RAW };
    assert(eps@ == 16777) by {
        assert(ONE_RAW * ONE_RAW == 0x1_0000_0000_0000);
        assert(0x1_0000_0000_0000int / 16777216000int == 16777int);
    }
    lemma_head_on_hit(s, axis, dist, eps, far);
    let zero = Scalar::of_int(0);
    assert(zero.times(dist) == zero);
    assert(axis.z.times(dist)@ == -ONE_RAW) by {
        assert(axis.z@ * dist@ == -(ONE_RAW * ONE_RAW)) by (nonlinear_arith)
            requires
                axis.z@ == -ONE_RAW,
                dist@ == ONE_RAW,
        ;
        assert((ONE_RAW * ONE_RAW) / (ONE_RAW as int) == ONE_RAW);
    }
    assert(s.center.minus(axis.scaled(dist)) == head_on_ray().origin);
    assert(zero.times(s.radius) == zero);
    assert(axis.z.times(s.radius)@ == -0x80_0000) by {
        assert(axis.z@ * s.radius@ == -(0x80_0000 * ONE_RAW)) by (nonlinear_arith)
            requires
                axis.z@ == -ONE_RAW,
                s.radius@ == 0x80_0000,
        ;
        assert((0x80_0000 * ONE_RAW) / (ONE_RAW as int) == 0x80_0000);
    }
    assert(s.center.minus(axis.scaled(s.radius)) == hit_point());
    let hits = independent_hits(seq![s], &head_on_ray(), eps, far);
    assert(hits.len() == 1);
    assert(hits.drop_last().len() == 0);
    assert(nearest_of(hits.drop_last()) is None);
    assert(hits.last() == s.intersect(&head_on_ray(), eps, far));
}

/// A ray that leaves the hit point on the side of the normal does not
/// meet the grey sphere again.
pub proof fn lemma_scattered_ray_misses(jitter: Vec3)
    requires
        in_cube(jitter),
    ensures
        first_hit(seq![grey_sphere()], &scattered_ray(jitter)) is None,
{
    let s = grey_sphere();
    let r = scattered_ray(jitter);
    let eps = Scalar::of_ratio(1, 1000);
    let far = Scalar { raw: MAX_RAW };
    assert(eps@ == 16777) by {
        assert(ONE_RAW * ONE_RAW == 0x1_0000_0000_0000);
        assert(0x1_0000_0000_0000int / 16777216000int == 16777int);
    }
    let zero = Scalar::of_int(0);
    let half = Scalar { raw: 0x80_0000 };
    let oc = r.origin.minus(s.center);
    assert(oc == Vec3 { x: zero, y: zero, z: half });
    let d = r.direction;
    assert(0 <= d.z@ <= 2 * ONE_RAW);
    assert(zero.times(d.x) == zero && zero.times(d.y) == zero) by {
        assert(zero@ * d.x@ == 0) by (nonlinear_arith)
            requires
                zero@ == 0,
        ;
        assert(zero@ * d.y@ == 0) by (nonlinear_arith)
            requires
                zero@ == 0,
        ;
        assert(0int / (ONE_RAW as int) == 0);
    }
    assert(zero.times(zero) == zero);
    let b = s.coeff_b(&r);
    assert(half@ * d.z@ == 0x80_0000 * d.z@) by (nonlinear_arith)
        requires
            half@ == 0x80_0000,
    ;
    assert(b@ == (0x80_0000 * d.z@) / 0x100_0000);
    assert(0 <= b@ <= ONE_RAW);
    assert(half.times(half)@ == 0x40_0000) by {
        assert(half@ * half@ == 0x4000_0000_0000) by (nonlinear_arith)
            requires
                half@ == 0x80_0000,
        ;
        assert(0x4000_0000_0000int / 0x100_0000int == 0x40_0000int);
    }
    assert(s.coeff_c(&r) == zero);
    let a = s.coeff_a(&r);
    lemma_square_nonnegative(d.x);
    lemma_square_nonnegative(d.y);
    lemma_square_nonnegative(d.z);
    assert(a@ >= 0);
    assert(a.times(zero) == zero) by {
        assert(a@ * zero@ == 0) by (nonlinear_arith)
            requires
                zero@ == 0,
        ;
        assert(0int / (ONE_RAW as int) == 0);
    }
    let disc = s.discriminant(&r);
    assert(disc == b.times(b));
    lemma_square_nonnegative(b);
    let root = disc.sqrt_spec();
    lemma_sqrt_bounds(disc);
    assert(root@ <= b@) by {
        if disc@ > 0 {
            assert(0 <= b@ * b@ <= ONE_RAW * ONE_RAW) by (nonlinear_arith)
                requires
                    0 <= b@ <= ONE_RAW,
            ;
            assert((b@ * b@) / (ONE_RAW as int) <= ONE_RAW) by (nonlinear_arith)
                requires
                    0 <= b@ * b@ <= ONE_RAW * ONE_RAW,
                    ONE_RAW == 0x100_0000,
            ;
            assert(disc@ == (b@ * b@) / (ONE_RAW as int));
            assert(disc@ * ONE_RAW <= b@ * b@);
            if root@ > b@ {
                assert(root@ * root@ > b@ * b@) by (nonlinear_arith)
                    requires
                        root@ > b@,
                        b@ >= 0,
                ;
            }
        }
    }
    let near = s.near_root(&r);
    let far_root = s.far_root(&r);
    lemma_nonpositive_over(b.negated().minus(root), a);
    lemma_nonpositive_over(b.negated().plus(root), a);
    assert(near@ <= 0 && far_root@ <= 0);
    assert(s.intersect(&r, eps, far) is None);
    let hits = independent_hits(seq![s], &r, eps, far);
    assert(hits.len() == 1);
    assert(hits.drop_last().len() == 0);
    assert(nearest_of(hits.drop_last()) is None);
    assert(hits.last() == s.intersect(&r, eps, far));
}

/// A number that is not positive, over one that is not negative, is not
/// positive.
proof fn lemma_nonpositive_over(x: Scalar, a: Scalar)
    requires
        x@ <= 0,
        a@ >= 0,
    ensures
        x.over(a)@ <= 0,
{
    if a@ > 0 {
        let m = -(x@ * ONE_RAW);
        assert(m / a@ >= 0) by (nonlinear_arith)
            requires
                m >= 0,
                a@ > 0,
        ;
        assert(0int / a@ == 0) by (nonlinear_arith)
            requires
                a@ > 0,
        ;
    }
}

/// What the grey sphere does with the head-on ray for the jitter
/// `jitter`: the ray leaves the hit point along the normal plus the
/// jitter, and the light is halved.
pub proof fn lemma_diffuse_scattering(jitter: Vec3)
    requires
        in_cube(jitter),
    ensures
        Material::lambertian_spec(
            grey(),
            hit_point(),
            Vec3 { x: Scalar::of_int(0), y: Scalar::of_int(0), z: Scalar::of_int(1) },
            jitter,
        ) == (Scattering { ray: scattered_ray(jitter), attenuation: grey() }),
{
}

/// The light path of the head-on ray is the one scattering at the grey
/// sphere, whatever the draws.
pub proof fn lemma_one_bounce_path(stream: Stream)
    requires
        forall|i: nat| is_unit_draw(#[trigger] stream(i)),
    ensures
        light_path_spec(seq![grey_sphere()], head_on_ray(), 0, stream) == seq![
            Scattering { ray: scattered_ray(ball_point_spec(stream)), attenuation: grey() },
        ],
{
    let spheres = seq![grey_sphere()];
    let r = head_on_ray();
    let jitter = ball_point_spec(stream);
    lemma_ball_point_in_cube(stream);
    lemma_head_on_first_hit();
    lemma_scattered_ray_misses(jitter);
    lemma_diffuse_scattering(jitter);
    let hit = first_hit(spheres, &r)->Some_0;
    let out = scattered_ray(jitter);
    let scattering = Scattering { ray: out, attenuation: grey() };
    assert(hit.material.scatter_drawn(&r, &hit.p, &hit.normal, stream) == Some(scattering));
    let left = rest(stream, hit.material.scatter_taken(&r, &hit.normal, stream));
    assert(light_path_spec(spheres, out, 1, left) == Seq::<Scattering>::empty());
    assert(light_path_spec(spheres, r, 0, stream) == seq![scattering] + light_path_spec(
        spheres,
        out,
        1,
        left,
    ));
    assert(seq![scattering] + Seq::<Scattering>::empty() =~= seq![scattering]);
}

/// The grey sphere seen head on: whatever the draws, the ray is scattered
/// once and then sees the sky. The light is half of the colour of the sky
/// in the direction of the normal plus the jitter: red lies between a
/// quarter and a half, green is at most a half, and blue is a half.
pub proof fn lemma_one_bounce(stream: Stream)
    requires
        forall|i: nat| is_unit_draw(#[trigger] stream(i)),
    ensures
        radiance_spec(seq![grey_sphere()], head_on_ray(), 0, stream) == grey().times(
            sky_spec(&scattered_ray(ball_point_spec(stream))),
        ),
        ONE_RAW / 4 <= radiance_spec(seq![grey_sphere()], head_on_ray(), 0, stream).x@ <= ONE_RAW
            / 2,
        radiance_spec(seq![grey_sphere()], head_on_ray(), 0, stream).y@ <= ONE_RAW / 2,
        radiance_spec(seq![grey_sphere()], head_on_ray(), 0, stream).z@ == ONE_RAW / 2,
{
    let spheres = seq![grey_sphere()];
    let r = head_on_ray();
    let jitter = ball_point_spec(stream);
    let out = scattered_ray(jitter);
    let scattering = Scattering { ray: out, attenuation: grey() };
    lemma_one_bounce_path(stream);
    lemma_ball_point_in_cube(stream);
    lemma_scattered_ray_misses(jitter);
    let path = seq![scattering];
    assert(path.drop_first() =~= Seq::<Scattering>::empty());
    assert(path[0] == scattering);
    let sky = sky_spec(&out);
    assert(path_radiance(spheres, out, path.drop_first()) == sky);
    assert(path_radiance(spheres, r, path) == grey().times(sky));
    lemma_sky_in_range(&out);
    lemma_halved(sky.x);
    lemma_halved(sky.y);
    lemma_halved(sky.z);
}

/// To multiply by one half is to halve, rounding down.
proof fn lemma_halved(x: Scalar)
    requires
        0 <= x@ <= ONE_RAW,
    ensures
        (Scalar { raw: 0x80_0000 }).times(x)@ == x@ / 2,
{
    let half = Scalar { raw: 0x80_0000 };
    assert(half@ * x@ == 0x80_0000 * x@) by (nonlinear_arith)
        requires
            half@ == 0x80_0000,
    ;
    let q = x@ / 2;
    let rem = x@ % 2;
    vstd::arithmetic::div_mod::lemma_fundamental_div_mod_converse(
        0x80_0000 * x@,
        0x100_0000,
        q,
        0x80_0000 * rem,
    );
}

} // verus!
