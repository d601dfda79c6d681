//! A ray aimed at the centre of a sphere from outside, in any direction.
//! Where the direction of the ray is the vector from its origin to the
//! centre, the ray reaches the centre at the parameter one and the sphere
//! at `1 - radius / distance`. In fixed point that holds up to rounding,
//! and this module states by how much.

use vstd::prelude::*;
use crate::ray::Ray;
use crate::quadratic::{exact_discriminant, lemma_near_root_solves};
use crate::scalar::{lemma_sqrt_bounds, Scalar, ONE_RAW};
use crate::sphere::Sphere;
use crate::vec3::Vec3;

verus! {

/// The largest coordinate for which the laws of this module are stated:
/// `2^7`.
pub open spec fn box_reach() -> int {
    0x8000_0000
}

/// Whether each coordinate of `p` lies within [`box_reach`].
pub open spec fn within_box(p: Vec3) -> bool {
    &&& -box_reach() <= p.x@ <= box_reach()
    &&& -box_reach() <= p.y@ <= box_reach()
    &&& -box_reach() <= p.z@ <= box_reach()
}

/// The ray from `origin` whose direction is the vector to the centre of
/// `sphere`.
pub open spec fn aimed_ray(sphere: Sphere, origin: Vec3) -> Ray {
    Ray { origin, direction: sphere.center.minus(origin) }
}

/// The squared distance from `origin` to the centre of `sphere`, as the
/// library computes it: raw value of the squared norm.
pub open spec fn squared_distance(sphere: Sphere, origin: Vec3) -> int {
    sphere.center.minus(origin).squared_norm_spec()@
}

/// The squared radius of `sphere`, as the library computes it.
pub open spec fn squared_radius(sphere: Sphere) -> int {
    sphere.radius.times(sphere.radius)@
}

/// The square of a coordinate difference and its product with its own
/// negation.
proof fn lemma_square_of_difference(x: Scalar, y: Scalar)
    requires
        x@ == -y@,
        -0x1_0000_0000 <= x@ <= 0x1_0000_0000,
    ensures
        x.times(x)@ == (x@ * x@) / (ONE_RAW as int),
        0 <= x.times(x)@ <= 0x100_0000_0000,
        y.times(x)@ == -x.times(x)@,
        y.times(y)@ == x.times(x)@,
{
    assert(0 <= x@ * x@ <= 0x1_0000_0000_0000_0000int) by (nonlinear_arith)
        requires
            -0x1_0000_0000 <= x@ <= 0x1_0000_0000,
    ;
    assert(y@ * x@ == -(x@ * x@)) by (nonlinear_arith)
        requires
            x@ == -y@,
    ;
    assert(y@ * y@ == x@ * x@) by (nonlinear_arith)
        requires
            x@ == -y@,
    ;
    let n = x@ * x@;
    vstd::arithmetic::div_mod::lemma_div_is_ordered(0, n, ONE_RAW as int);
    vstd::arithmetic::div_mod::lemma_div_is_ordered(
        n,
        0x1_0000_0000_0000_0000int,
        ONE_RAW as int,
    );
    assert(0int / (ONE_RAW as int) == 0);
    assert(0x1_0000_0000_0000_0000int / (ONE_RAW as int) == 0x100_0000_0000int);
}

/// The coefficients of the quadratic for an aimed ray: with `s` the
/// squared distance and `r2` the squared radius, `a = s`, `b = -s` and
/// `c = s - r2`, exactly.
pub proof fn lemma_aimed_coefficients(sphere: Sphere, origin: Vec3)
    requires
        within_box(sphere.center),
        within_box(origin),
        0 < sphere.radius@ <= 0x1_0000_0000,
    ensures
        ({
            let r = aimed_ray(sphere, origin);
            let s = squared_distance(sphere, origin);
            let r2 = squared_radius(sphere);
            &&& 0 <= s <= 0x300_0000_0000
            &&& 0 <= r2 <= 0x100_0000_0000
            &&& sphere.coeff_a(&r)@ == s
            &&& sphere.coeff_b(&r)@ == -s
            &&& sphere.coeff_c(&r)@ == s - r2
        }),
{
    let r = aimed_ray(sphere, origin);
    let v = r.direction;
    let oc = origin.minus(sphere.center);
    lemma_square_of_difference(v.x, oc.x);
    lemma_square_of_difference(v.y, oc.y);
    lemma_square_of_difference(v.z, oc.z);
    let rad = sphere.radius;
    assert(0 <= rad@ * rad@ <= 0x1_0000_0000_0000_0000int) by (nonlinear_arith)
        requires
            0 < rad@ <= 0x1_0000_0000,
    ;
    vstd::arithmetic::div_mod::lemma_div_is_ordered(0, rad@ * rad@, ONE_RAW as int);
    vstd::arithmetic::div_mod::lemma_div_is_ordered(
        rad@ * rad@,
        0x1_0000_0000_0000_0000int,
        ONE_RAW as int,
    );
    assert(0int / (ONE_RAW as int) == 0);
    assert(0x1_0000_0000_0000_0000int / (ONE_RAW as int) == 0x100_0000_0000int);
}

/// The difference of two rounded quotients is the rounded quotient of the
/// difference, or one more.
proof fn lemma_floor_difference(x: int, y: int)
    requires
        0 <= y <= x,
    ensures
        y / (ONE_RAW as int) <= x / (ONE_RAW as int) - (x - y) / (ONE_RAW as int) <= y / (
        ONE_RAW as int) + 1,
{
    let d = ONE_RAW as int;
    vstd::arithmetic::div_mod::lemma_fundamental_div_mod(x, d);
    vstd::arithmetic::div_mod::lemma_fundamental_div_mod(y, d);
    vstd::arithmetic::div_mod::lemma_fundamental_div_mod(x - y, d);
    vstd::arithmetic::div_mod::lemma_mod_bound(x, d);
    vstd::arithmetic::div_mod::lemma_mod_bound(y, d);
    vstd::arithmetic::div_mod::lemma_mod_bound(x - y, d);
}

/// The discriminant of the quadratic for an aimed ray is the product of
/// the squared distance and the squared radius, rounded down, or one raw
/// unit more.
pub proof fn lemma_aimed_discriminant(sphere: Sphere, origin: Vec3)
    requires
        within_box(sphere.center),
        within_box(origin),
        0 < sphere.radius@ <= 0x1_0000_0000,
        squared_radius(sphere) <= squared_distance(sphere, origin),
    ensures
        ({
            let r = aimed_ray(sphere, origin);
            let s = squared_distance(sphere, origin);
            let r2 = squared_radius(sphere);
            let d = sphere.discriminant(&r)@;
            (s * r2) / (ONE_RAW as int) <= d <= (s * r2) / (ONE_RAW as int) + 1
        }),
{
    let r = aimed_ray(sphere, origin);
    let s = squared_distance(sphere, origin);
    let r2 = squared_radius(sphere);
    lemma_aimed_coefficients(sphere, origin);
    let a = sphere.coeff_a(&r);
    let b = sphere.coeff_b(&r);
    let c = sphere.coeff_c(&r);
    assert(b@ * b@ == s * s) by (nonlinear_arith)
        requires
            b@ == -s,
    ;
    assert(a@ * c@ == s * s - s * r2) by (nonlinear_arith)
        requires
            a@ == s,
            c@ == s - r2,
    ;
    assert(0 <= s * r2 <= s * s <= 0x9_0000_0000_0000_0000_0000int) by (nonlinear_arith)
        requires
            0 <= r2 <= s <= 0x300_0000_0000,
    ;
    let d = ONE_RAW as int;
    vstd::arithmetic::div_mod::lemma_div_is_ordered(0, s * s, d);
    vstd::arithmetic::div_mod::lemma_div_is_ordered(s * s, 0x9_0000_0000_0000_0000_0000int, d);
    vstd::arithmetic::div_mod::lemma_div_is_ordered(0, s * s - s * r2, d);
    vstd::arithmetic::div_mod::lemma_div_is_ordered(s * s - s * r2, s * s, d);
    assert(0int / d == 0);
    assert(0x9_0000_0000_0000_0000_0000int / d == 0x900_0000_0000_0000int);
    assert(b.times(b)@ == (s * s) / d);
    assert(a.times(c)@ == (s * s - s * r2) / d);
    lemma_floor_difference(s * s, s * r2);
}

/// Where an aimed ray meets the sphere. With `s` the squared distance,
/// `r2` the squared radius and `t` the smaller root, which is positive
/// for an origin outside the sphere, the ray has `w = 1 - t` of its way
/// to the centre left, and `w^2 s` is `r2` up to rounding: the point
/// reached lies at the distance of the radius from the centre, which is
/// to say that `t` is one less the radius over the distance. In raw
/// values,
/// `(s r2 - 2 s - 2^25) 2^48 <= (w s)^2 <= (s r2 + 2^24) 2^48 + (2^25 + 1) s^2`.
pub proof fn lemma_aimed_hit(sphere: Sphere, origin: Vec3, t_min: Scalar, t_max: Scalar)
    requires
        within_box(sphere.center),
        within_box(origin),
        0 < sphere.radius@ <= 0x1_0000_0000,
        squared_radius(sphere) <= squared_distance(sphere, origin),
        squared_distance(sphere, origin) * squared_radius(sphere) >= ONE_RAW,
    ensures
        ({
            let r = aimed_ray(sphere, origin);
            let s = squared_distance(sphere, origin);
            let r2 = squared_radius(sphere);
            let t = sphere.near_root(&r);
            let w = ONE_RAW - t@;
            &&& sphere.discriminant(&r)@ > 0
            &&& t@ < ONE_RAW
            &&& t@ > 0 ==> (s * r2 - 2 * s - 2 * ONE_RAW) * (ONE_RAW * ONE_RAW) <= (w * s) * (w
                * s)
            &&& t@ > 0 ==> (w * s) * (w * s) <= (s * r2 + ONE_RAW) * (ONE_RAW * ONE_RAW) + (2
                * ONE_RAW + 1) * (s * s)
            &&& t_min@ < t@ < t_max@ ==> sphere.intersect(&r, t_min, t_max) == Some(
                sphere.record_at(&r, t),
            )
        }),
{
    let r = aimed_ray(sphere, origin);
    let s = squared_distance(sphere, origin);
    let r2 = squared_radius(sphere);
    let one = ONE_RAW as int;
    lemma_aimed_coefficients(sphere, origin);
    lemma_aimed_discriminant(sphere, origin);
    let disc = sphere.discriminant(&r);
    let p = s * r2;
    vstd::arithmetic::div_mod::lemma_div_is_ordered(one, p, one);
    assert(one / one == 1);
    assert(disc@ >= 1);
    lemma_sqrt_bounds(disc);
    let root = disc.sqrt_spec()@;
    assert(root >= 1) by {
        if root < 1 {
            assert((root + 1) * (root + 1) == 1) by (nonlinear_arith)
                requires
                    root == 0,
            ;
        }
    }
    assert(s >= 1) by (nonlinear_arith)
        requires
            s * r2 >= 1,
            s >= 0,
            r2 >= 0,
    ;
    let n = sphere.coeff_b(&r).negated().minus(disc.sqrt_spec());
    assert(n@ == s - root);
    let t = sphere.near_root(&r);
    assert(t == n.over(sphere.coeff_a(&r)));
    lemma_fraction_below_one(n@, s);
    let w = one - t@;
    if t@ > 0 {
        lemma_near_root_solves(sphere, &r);
        let y = -(s * t@ + (-s) * one);
        assert(y == w * s) by (nonlinear_arith)
            requires
                y == -(s * t@ + (-s) * one),
                w == one - t@,
        ;
        assert(exact_discriminant(sphere, &r) == s * r2) by (nonlinear_arith)
            requires
                exact_discriminant(sphere, &r) == (-s) * (-s) - s * (s - r2),
        ;
        assert(2 * s * (s * one) + s * s == (2 * one + 1) * (s * s)) by (nonlinear_arith);
    }
}

/// A numerator below its denominator gives a quotient below one.
proof fn lemma_fraction_below_one(n: int, s: int)
    requires
        0 < s,
        n < s,
    ensures
        crate::scalar::sat(crate::scalar::quot(n * ONE_RAW, s)) < ONE_RAW,
{
    let one = ONE_RAW as int;
    if n >= 0 {
        let m = n * one;
        assert(0 <= m < s * one) by (nonlinear_arith)
            requires
                m == n * one,
                0 <= n < s,
                one > 0,
        ;
        vstd::arithmetic::div_mod::lemma_fundamental_div_mod(m, s);
        vstd::arithmetic::div_mod::lemma_mod_bound(m, s);
        let q = m / s;
        assert(q < one) by (nonlinear_arith)
            requires
                m == s * q + m % s,
                0 <= m % s,
                m < s * one,
                s > 0,
        ;
        assert(q >= 0) by (nonlinear_arith)
            requires
                m == s * q + m % s,
                m % s < s,
                m >= 0,
                s > 0,
        ;
    } else {
        let m = -(n * one);
        assert(m > 0) by (nonlinear_arith)
            requires
                m == -(n * one),
                n < 0,
                one > 0,
        ;
        assert(m / s >= 0) by (nonlinear_arith)
            requires
                m > 0,
                s > 0,
        ;
    }
}

/// One coordinate of the normal where an aimed ray meets the sphere: it
/// points against the coordinate `v` of the direction, or is zero.
proof fn lemma_aimed_normal_coordinate(o: Scalar, c: Scalar, radius: Scalar, t: Scalar)
    requires
        -box_reach() <= o@ <= box_reach(),
        -box_reach() <= c@ <= box_reach(),
        0 < radius@,
        0 < t@ < ONE_RAW,
    ensures
        ({
            let v = c.minus(o);
            let n = o.plus(v.times(t)).minus(c).over(radius);
            &&& v@ >= 0 ==> n@ <= 0
            &&& v@ <= 0 ==> n@ >= 0
            &&& n.times(v)@ <= 0
        }),
{
    let one = ONE_RAW as int;
    let v = c.minus(o);
    assert(v@ == c@ - o@);
    let m = v.times(t);
    let mag: int = if v@ < 0 {
        -v@
    } else {
        v@
    };
    assert(0 <= mag * t@ <= mag * one) by (nonlinear_arith)
        requires
            0 <= mag,
            0 < t@ < one,
    ;
    assert(crate::scalar::magnitude(v@ * t@) == mag * t@) by (nonlinear_arith)
        requires
            mag == v@ || mag == -v@,
            mag >= 0,
            t@ > 0,
            crate::scalar::magnitude(v@ * t@) == if v@ * t@ < 0 {
                -(v@ * t@)
            } else {
                v@ * t@
            },
    ;
    vstd::arithmetic::div_mod::lemma_div_is_ordered(0, mag * t@, one);
    vstd::arithmetic::div_mod::lemma_div_is_ordered(mag * t@, mag * one, one);
    assert(0int / one == 0);
    assert((mag * one) / one == mag);
    let q = (mag * t@) / one;
    assert(0 <= q <= mag);
    assert(v@ >= 0 ==> v@ * t@ >= 0) by (nonlinear_arith)
        requires
            t@ > 0,
    ;
    assert(v@ < 0 ==> v@ * t@ < 0) by (nonlinear_arith)
        requires
            t@ > 0,
    ;
    assert(v@ >= 0 ==> m@ == q);
    assert(v@ < 0 ==> m@ == -q);
    let d = o.plus(m).minus(c);
    assert(d@ == o@ + m@ - c@);
    assert(v@ >= 0 ==> d@ <= 0);
    assert(v@ <= 0 ==> d@ >= 0);
    let n = d.over(radius);
    let dm: int = if d@ < 0 {
        -d@
    } else {
        d@
    };
    assert((dm * one) / radius@ >= 0) by (nonlinear_arith)
        requires
            dm >= 0,
            one > 0,
            radius@ > 0,
    ;
    assert(crate::scalar::magnitude(d@ * one) == dm * one);
    assert(d@ <= 0 ==> n@ <= 0);
    assert(d@ >= 0 ==> n@ >= 0);
    let nm: int = if n@ < 0 {
        -n@
    } else {
        n@
    };
    assert(n@ * v@ <= 0) by (nonlinear_arith)
        requires
            (v@ >= 0 && n@ <= 0) || (v@ <= 0 && n@ >= 0),
    ;
    assert(crate::scalar::magnitude(n@ * v@) / one >= 0) by (nonlinear_arith)
        requires
            crate::scalar::magnitude(n@ * v@) >= 0,
            one > 0,
    ;
}

/// Where an aimed ray meets the sphere before it reaches the centre, the
/// normal points back against the ray: each of its coordinates points
/// against that of the direction or is zero, and so their dot product is
/// not positive.
pub proof fn lemma_aimed_normal(sphere: Sphere, origin: Vec3, t: Scalar)
    requires
        within_box(sphere.center),
        within_box(origin),
        0 < sphere.radius@,
        0 < t@ < ONE_RAW,
    ensures
        ({
            let r = aimed_ray(sphere, origin);
            let n = sphere.record_at(&r, t).normal;
            let v = r.direction;
            &&& v.x@ >= 0 ==> n.x@ <= 0
            &&& v.x@ <= 0 ==> n.x@ >= 0
            &&& v.y@ >= 0 ==> n.y@ <= 0
            &&& v.y@ <= 0 ==> n.y@ >= 0
            &&& v.z@ >= 0 ==> n.z@ <= 0
            &&& v.z@ <= 0 ==> n.z@ >= 0
            &&& n.dot_spec(&v)@ <= 0
        }),
{
    lemma_aimed_normal_coordinate(origin.x, sphere.center.x, sphere.radius, t);
    lemma_aimed_normal_coordinate(origin.y, sphere.center.y, sphere.radius, t);
    lemma_aimed_normal_coordinate(origin.z, sphere.center.z, sphere.radius, t);
}

} // verus!
