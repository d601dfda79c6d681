//! Spheres, and the analytic intersection of a ray with one.

use vstd::prelude::*;
use core::ops::Neg;
use crate::hitable::{HitRecord, Hitable};
use crate::material::Material;
use crate::ray::Ray;
use crate::scalar::{
    lemma_over_negated, lemma_quot_monotonic, lemma_sqrt_bounds, lemma_square_nonnegative,
    Scalar, MAX_RAW, ONE_RAW,
};
use crate::vec3::Vec3;

verus! {

/// A sphere. A negative radius describes the same set of points, with the
/// normals turned inward: the inner face of a hollow shell.
#[derive(Clone, Copy, Debug, PartialEq, Eq, Structural)]
pub struct Sphere {
    pub center: Vec3,
    pub radius: Scalar,
    pub material: Material,
}

impl Sphere {
    /// The leading coefficient `a = D . D` of the quadratic
    /// `a t^2 + 2 b t + c = 0` that the ray `O + t D` solves on the sphere.
    pub open spec fn coeff_a(&self, r: &Ray) -> Scalar {
        r.direction.dot_spec(&r.direction)
    }

    /// The halved middle coefficient `b = (O - C) . D`.
    pub open spec fn coeff_b(&self, r: &Ray) -> Scalar {
        r.origin.minus(self.center).dot_spec(&r.direction)
    }

    /// The constant coefficient `c = (O - C) . (O - C) - radius^2`.
    pub open spec fn coeff_c(&self, r: &Ray) -> Scalar {
        let oc = r.origin.minus(self.center);
        oc.dot_spec(&oc).minus(self.radius.times(self.radius))
    }

    /// The discriminant `b^2 - a c` of the halved quadratic.
    pub open spec fn discriminant(&self, r: &Ray) -> Scalar {
        let b = self.coeff_b(r);
        b.times(b).minus(self.coeff_a(r).times(self.coeff_c(r)))
    }

    /// The smaller root, `(-b - sqrt(discriminant)) / a`.
    pub open spec fn near_root(&self, r: &Ray) -> Scalar {
        self.coeff_b(r).negated().minus(self.discriminant(r).sqrt_spec()).over(self.coeff_a(r))
    }

    /// The larger root, `(-b + sqrt(discriminant)) / a`.
    pub open spec fn far_root(&self, r: &Ray) -> Scalar {
        self.coeff_b(r).negated().plus(self.discriminant(r).sqrt_spec()).over(self.coeff_a(r))
    }

    /// The record of the hit at parameter `t`: the normal is
    /// `(p - center) / radius`, which a negative radius turns around.
    pub open spec fn record_at(&self, r: &Ray, t: Scalar) -> HitRecord {
        let p = r.point_at_spec(t);
        HitRecord { t, p, normal: p.minus(self.center).over(self.radius), material: self.material }
    }

    /// The hit at the smaller root of the quadratic if that lies strictly
    /// within the bounds, else at the larger root if that does. A ray that
    /// misses the sphere or only touches it, so that the discriminant is
    /// not positive, does not hit.
    pub open spec fn intersect(&self, r: &Ray, t_min: Scalar, t_max: Scalar) -> Option<HitRecord> {
        let near = self.near_root(r);
        let far = self.far_root(r);
        if self.discriminant(r)@ <= 0 {
            None
        } else if t_min@ < near@ < t_max@ {
            Some(self.record_at(r, near))
        } else if t_min@ < far@ < t_max@ {
            Some(self.record_at(r, far))
        } else {
            None
        }
    }

    /// The same sphere with the radius negated.
    pub open spec fn inverted(&self) -> Sphere {
        Sphere { center: self.center, radius: self.radius.negated(), material: self.material }
    }

    /// A hit is the record at its own parameter: the point lies on the ray
    /// there, and the material is that of the sphere.
    pub proof fn lemma_hit_is_record(&self, r: &Ray, t_min: Scalar, t_max: Scalar)
        ensures
            self.intersect(r, t_min, t_max) matches Some(h) ==> {
                &&& h == self.record_at(r, h.t)
                &&& h.p == r.point_at_spec(h.t)
                &&& h.material == self.material
                &&& t_min@ < h.t@ < t_max@
            },
    {
    }

    /// The smaller root is not greater than the larger one.
    pub proof fn lemma_roots_ordered(&self, r: &Ray)
        ensures
            self.near_root(r)@ <= self.far_root(r)@,
    {
        let d = r.direction;
        lemma_square_nonnegative(d.x);
        lemma_square_nonnegative(d.y);
        lemma_square_nonnegative(d.z);
        let a = self.coeff_a(r);
        assert(a@ >= 0);
        let root = self.discriminant(r).sqrt_spec();
        lemma_sqrt_bounds(self.discriminant(r));
        let lo = self.coeff_b(r).negated().minus(root);
        let hi = self.coeff_b(r).negated().plus(root);
        assert(lo@ <= hi@);
        if a@ > 0 {
            lemma_quot_monotonic(lo@ * ONE_RAW, hi@ * ONE_RAW, a@);
        }
    }

    /// To lower the far bound is to drop the hits at or beyond it, and to
    /// change no other.
    pub proof fn lemma_hit_bound_lowered(&self, r: &Ray, t_min: Scalar, t_max: Scalar, bound: Scalar)
        requires
            bound@ <= t_max@,
        ensures
            self.intersect(r, t_min, bound) == match self.intersect(r, t_min, t_max) {
                Some(h) => if h.t@ < bound@ {
                    Some(h)
                } else {
                    None
                },
                None => None,
            },
    {
        self.lemma_roots_ordered(r);
    }

    /// A sphere with the radius negated is hit by the same rays at the same
    /// points, and its normal there is the exact negation.
    pub proof fn lemma_inverted_flips_normal(&self, r: &Ray, t_min: Scalar, t_max: Scalar)
        requires
            -MAX_RAW <= self.radius@,
            self.radius@ != 0,
        ensures
            self.inverted().intersect(r, t_min, t_max) == match self.intersect(r, t_min, t_max) {
                Some(h) => Some(
                    HitRecord { t: h.t, p: h.p, normal: h.normal.negated(), material: h.material },
                ),
                None => None,
            },
    {
        let twin = self.inverted();
        let rad = self.radius;
        assert(twin.radius@ == -rad@);
        assert(twin.radius@ * twin.radius@ == rad@ * rad@) by (nonlinear_arith)
            requires
                twin.radius@ == -rad@,
        ;
        assert(twin.radius.times(twin.radius) == rad.times(rad));
        assert(twin.coeff_c(r) == self.coeff_c(r));
        assert(twin.discriminant(r) == self.discriminant(r));
        assert(twin.near_root(r) == self.near_root(r));
        assert(twin.far_root(r) == self.far_root(r));
        assert forall|t: Scalar|
            #[trigger] twin.record_at(r, t) == (HitRecord {
                t: self.record_at(r, t).t,
                p: self.record_at(r, t).p,
                normal: self.record_at(r, t).normal.negated(),
                material: self.record_at(r, t).material,
            }) by {
            let v = r.point_at_spec(t).minus(self.center);
            lemma_over_negated(v.x, rad);
            lemma_over_negated(v.y, rad);
            lemma_over_negated(v.z, rad);
        }
    }
}

/// Whether `d` is one of the six unit vectors along an axis.
pub open spec fn is_axis(d: Vec3) -> bool {
    ||| (d.x@ == ONE_RAW || d.x@ == -ONE_RAW) && d.y@ == 0 && d.z@ == 0
    ||| d.x@ == 0 && (d.y@ == ONE_RAW || d.y@ == -ONE_RAW) && d.z@ == 0
    ||| d.x@ == 0 && d.y@ == 0 && (d.z@ == ONE_RAW || d.z@ == -ONE_RAW)
}

/// The largest coordinate and distance for which [`lemma_head_on_hit`]
/// is stated: `2^18`.
pub open spec fn reach() -> int {
    0x400_0000_0000
}

/// Whether each coordinate of `p` lies within [`reach`].
pub open spec fn within_reach(p: Vec3) -> bool {
    &&& -reach() <= p.x@ <= reach()
    &&& -reach() <= p.y@ <= reach()
    &&& -reach() <= p.z@ <= reach()
}

/// What [`lemma_head_on_hit`] needs of one coordinate: `c` is that of the
/// centre and `d` that of the direction.
proof fn lemma_head_on_coordinate(c: Scalar, d: Scalar, dist: Scalar, radius: Scalar)
    requires
        -reach() <= c@ <= reach(),
        d@ == ONE_RAW || d@ == -ONE_RAW || d@ == 0,
        0 < radius@ < dist@ <= reach(),
    ensures
        ({
            let o = c.minus(d.times(dist));
            let oc = o.minus(c);
            let p = o.plus(d.times(dist.minus(radius)));
            &&& d@ == 0 ==> d.times(d)@ == 0 && oc.times(d)@ == 0 && oc.times(oc)@ == 0
            &&& d@ != 0 ==> d.times(d)@ == ONE_RAW && oc.times(d)@ == -dist@ && oc.times(oc)
                == dist.times(dist)
            &&& p == c.minus(d.times(radius))
            &&& p.minus(c).over(radius) == d.negated()
        }),
{
    let t = dist.minus(radius);
    assert(t@ == dist@ - radius@);
    assert(0int / (ONE_RAW as int) == 0);
    if d@ == 0 {
        assert(d@ * dist@ == 0) by (nonlinear_arith)
            requires
                d@ == 0,
        ;
        assert(d@ * t@ == 0) by (nonlinear_arith)
            requires
                d@ == 0,
        ;
        assert(d@ * radius@ == 0) by (nonlinear_arith)
            requires
                d@ == 0,
        ;
        assert(d@ * d@ == 0) by (nonlinear_arith)
            requires
                d@ == 0,
        ;
        let o = c.minus(d.times(dist));
        assert(o == c);
        let oc = o.minus(c);
        assert(oc@ == 0);
        assert(oc@ * d@ == 0) by (nonlinear_arith)
            requires
                d@ == 0,
        ;
        assert(oc@ * oc@ == 0) by (nonlinear_arith)
            requires
                oc@ == 0,
        ;
        assert(0int / radius@ == 0) by (nonlinear_arith)
            requires
                radius@ > 0,
        ;
        assert(0 * ONE_RAW == 0);
    } else {
        let sign: int = if d@ > 0 {
            1
        } else {
            -1
        };
        assert(d@ == sign * ONE_RAW);
        lemma_times_unit(d, dist);
        lemma_times_unit(d, t);
        lemma_times_unit(d, radius);
        lemma_times_unit(d, d);
        let o = c.minus(d.times(dist));
        assert(o@ == c@ - sign * dist@);
        let oc = o.minus(c);
        assert(oc@ == -sign * dist@);
        lemma_times_unit(d, oc);
        assert(oc.times(d)@ == d.times(oc)@) by {
            assert(oc@ * d@ == d@ * oc@) by (nonlinear_arith);
        }
        assert(oc@ * oc@ == dist@ * dist@) by (nonlinear_arith)
            requires
                oc@ == dist@ || oc@ == -dist@,
        ;
        let p = o.plus(d.times(t));
        assert(p@ == c@ - sign * radius@);
        let n = p.minus(c);
        assert(n@ == -sign * radius@);
        assert(n@ * ONE_RAW == -sign * (radius@ * ONE_RAW));
        assert((radius@ * ONE_RAW) / radius@ == ONE_RAW) by (nonlinear_arith)
            requires
                radius@ > 0,
        ;
    }
}

/// To multiply by plus or minus one is to keep or to negate.
proof fn lemma_times_unit(d: Scalar, x: Scalar)
    requires
        d@ == ONE_RAW || d@ == -ONE_RAW,
        -MAX_RAW <= x@ <= MAX_RAW,
    ensures
        d@ == ONE_RAW ==> d.times(x) == x,
        d@ == -ONE_RAW ==> d.times(x)@ == -x@,
{
    let m: int = if x@ < 0 {
        -x@
    } else {
        x@
    };
    assert((m * ONE_RAW) / (ONE_RAW as int) == m);
    if d@ == ONE_RAW {
        assert(d@ * x@ == x@ * ONE_RAW) by (nonlinear_arith)
            requires
                d@ == ONE_RAW,
        ;
    } else {
        assert(d@ * x@ == -(x@ * ONE_RAW)) by (nonlinear_arith)
            requires
                d@ == -ONE_RAW,
        ;
    }
}

/// The square of a scalar that is a multiple of `2^-12` is exact, and
/// its square root is the scalar again.
proof fn lemma_exact_square(x: Scalar)
    requires
        0 < x@ <= reach(),
        x@ % 4096 == 0,
    ensures
        x.times(x)@ * ONE_RAW == x@ * x@,
        x.times(x)@ > 0,
        x.times(x).sqrt_spec() == x,
{
    let k = x@ / 4096;
    assert(x@ == 4096 * k);
    assert(1 <= k <= 0x4000_0000);
    assert(x@ * x@ == (k * k) * ONE_RAW) by (nonlinear_arith)
        requires
            x@ == 4096 * k,
            ONE_RAW == 4096 * 4096,
    ;
    assert(1 <= k * k <= 0x4000_0000 * 0x4000_0000) by (nonlinear_arith)
        requires
            1 <= k <= 0x4000_0000,
    ;
    assert(((k * k) * ONE_RAW) / (ONE_RAW as int) == k * k);
    let x2 = x.times(x);
    assert(x2@ == k * k);
    assert(crate::scalar::is_isqrt(x2@ * ONE_RAW, x@)) by {
        assert((x@ + 1) * (x@ + 1) > x@ * x@) by (nonlinear_arith)
            requires
                x@ > 0,
        ;
    }
    crate::scalar::lemma_isqrt_is(x2@ * ONE_RAW, x@);
}

/// Within [`reach`], the square of the smaller of two positive scalars is
/// the smaller square, and no square saturates.
proof fn lemma_squares_ordered(x: Scalar, y: Scalar)
    requires
        0 < x@ < y@ <= reach(),
    ensures
        0 <= x.times(x)@ <= y.times(y)@ <= 0x1000_0000_0000_0000,
{
    assert(0 <= x@ * x@ <= y@ * y@) by (nonlinear_arith)
        requires
            0 < x@ < y@,
    ;
    assert(y@ * y@ <= reach() * reach()) by (nonlinear_arith)
        requires
            0 < y@ <= reach(),
    ;
    vstd::arithmetic::div_mod::lemma_div_is_ordered(x@ * x@, y@ * y@, ONE_RAW as int);
    vstd::arithmetic::div_mod::lemma_div_is_ordered(0, x@ * x@, ONE_RAW as int);
    vstd::arithmetic::div_mod::lemma_div_is_ordered(y@ * y@, reach() * reach(), ONE_RAW as int);
    assert((reach() * reach()) / (ONE_RAW as int) == 0x1000_0000_0000_0000);
    assert(0int / (ONE_RAW as int) == 0);
}

/// The coefficients of the quadratic for a ray along an axis at the
/// centre of a sphere.
proof fn lemma_head_on_coefficients(sphere: Sphere, axis: Vec3, dist: Scalar)
    requires
        is_axis(axis),
        within_reach(sphere.center),
        0 < sphere.radius@ < dist@ <= reach(),
    ensures
        ({
            let r = Ray { origin: sphere.center.minus(axis.scaled(dist)), direction: axis };
            &&& sphere.coeff_a(&r)@ == ONE_RAW
            &&& sphere.coeff_b(&r)@ == -dist@
            &&& sphere.coeff_c(&r)@ == dist.times(dist)@ - sphere.radius.times(sphere.radius)@
            &&& sphere.discriminant(&r) == sphere.radius.times(sphere.radius)
        }),
{
    let c = sphere.center;
    let radius = sphere.radius;
    let r = Ray { origin: c.minus(axis.scaled(dist)), direction: axis };
    lemma_head_on_coordinate(c.x, axis.x, dist, radius);
    lemma_head_on_coordinate(c.y, axis.y, dist, radius);
    lemma_head_on_coordinate(c.z, axis.z, dist, radius);
    lemma_squares_ordered(radius, dist);
    let d2 = dist.times(dist);
    let r2 = radius.times(radius);
    let zero = Scalar { raw: 0 };
    let oc = r.origin.minus(c);
    assert(oc.x == r.origin.x.minus(c.x));
    assert(oc.y == r.origin.y.minus(c.y));
    assert(oc.z == r.origin.z.minus(c.z));
    assert(r.origin.x == c.x.minus(axis.x.times(dist)));
    assert(r.origin.y == c.y.minus(axis.y.times(dist)));
    assert(r.origin.z == c.z.minus(axis.z.times(dist)));
    let a = sphere.coeff_a(&r);
    assert(a@ == ONE_RAW);
    let b = sphere.coeff_b(&r);
    assert(b@ == -dist@);
    assert(oc.dot_spec(&oc)@ == d2@);
    let cc = sphere.coeff_c(&r);
    assert(cc@ == d2@ - r2@);
    assert(b.times(b) == d2) by {
        assert(b@ * b@ == dist@ * dist@) by (nonlinear_arith)
            requires
                b@ == -dist@,
        ;
    }
    lemma_times_unit(a, cc);
    assert(a.times(cc) == cc);
    assert(sphere.discriminant(&r)@ == r2@);
}

/// A ray along an axis that starts outside a sphere and points at its
/// centre hits the sphere at the distance to the centre less the radius,
/// and the normal there is the negation of the direction. This is stated
/// where the arithmetic is exact: for coordinates and distances within
/// [`reach`], and a radius that is a multiple of `2^-12`, whose square is
/// a scalar.
pub proof fn lemma_head_on_hit(
    sphere: Sphere,
    axis: Vec3,
    dist: Scalar,
    t_min: Scalar,
    t_max: Scalar,
)
    requires
        is_axis(axis),
        within_reach(sphere.center),
        0 < sphere.radius@ < dist@ <= reach(),
        sphere.radius@ % 4096 == 0,
        t_min@ < dist@ - sphere.radius@ < t_max@,
    ensures
        sphere.intersect(
            &Ray { origin: sphere.center.minus(axis.scaled(dist)), direction: axis },
            t_min,
            t_max,
        ) == Some(
            HitRecord {
                t: dist.minus(sphere.radius),
                p: sphere.center.minus(axis.scaled(sphere.radius)),
                normal: axis.negated(),
                material: sphere.material,
            },
        ),
{
    let c = sphere.center;
    let radius = sphere.radius;
    let r = Ray { origin: c.minus(axis.scaled(dist)), direction: axis };
    lemma_head_on_coefficients(sphere, axis, dist);
    lemma_exact_square(radius);
    let t = dist.minus(radius);
    assert(sphere.near_root(&r) == t) by {
        let b = sphere.coeff_b(&r);
        let a = sphere.coeff_a(&r);
        let root = sphere.discriminant(&r).sqrt_spec();
        assert(root == radius);
        assert(b.negated()@ == dist@);
        assert(b.negated().minus(root)@ == dist@ - radius@);
        assert(((dist@ - radius@) * ONE_RAW) / (ONE_RAW as int) == dist@ - radius@);
    }
    assert(sphere.record_at(&r, t) == (HitRecord {
        t,
        p: c.minus(axis.scaled(radius)),
        normal: axis.negated(),
        material: sphere.material,
    })) by {
        lemma_head_on_coordinate(c.x, axis.x, dist, radius);
        lemma_head_on_coordinate(c.y, axis.y, dist, radius);
        lemma_head_on_coordinate(c.z, axis.z, dist, radius);
    }
}

impl Hitable for Sphere {
    open spec fn hit_spec(&self, r: &Ray, t_min: Scalar, t_max: Scalar) -> Option<HitRecord> {
        self.intersect(r, t_min, t_max)
    }

    proof fn lemma_hit_within_bounds(&self, r: &Ray, t_min: Scalar, t_max: Scalar) {
    }

    fn hit(&self, r: &Ray, t_min: Scalar, t_max: Scalar) -> (out: Option<HitRecord>)
        ensures
            out matches Some(h) ==> h == self.record_at(r, h.t),
    {
        let zero: Scalar = Scalar::from_int(0);
        let oc: Vec3 = r.origin - self.center;
        let a: Scalar = r.direction.dot(&r.direction);
        let b: Scalar = oc.dot(&r.direction);
        let c: Scalar = oc.dot(&oc) - self.radius * self.radius;
        let discriminant: Scalar = b * b - a * c;
        if discriminant <= zero {
            return None;
        }
        let discriminant_root: Scalar = discriminant.sqrt();
        let t: Scalar = (b.neg() - discriminant_root) / a;
        if (t < t_max) && (t > t_min) {
            let p: Vec3 = r.point_at_parameter(t);
            let normal: Vec3 = (p - self.center) / self.radius;
            return Some(HitRecord { t, p, normal, material: self.material });
        }
        let t: Scalar = (b.neg() + discriminant_root) / a;
        if (t < t_max) && (t > t_min) {
            let p: Vec3 = r.point_at_parameter(t);
            let normal: Vec3 = (p - self.center) / self.radius;
            return Some(HitRecord { t, p, normal, material: self.material });
        }
        None
    }
}

} // verus!
