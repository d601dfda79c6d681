//! The roots that a sphere finds for a ray solve the quadratic of the
//! intersection up to rounding: the point reached lies on the sphere. This
//! module states the rounding exactly, step by step, for every ray whose
//! coefficients are small enough not to saturate.

use vstd::prelude::*;
use crate::ray::Ray;
use crate::scalar::{is_isqrt, lemma_sqrt_bounds, magnitude, quot, sat, Scalar, MAX_RAW, ONE_RAW};
use crate::sphere::Sphere;

verus! {

/// The largest magnitude of a coefficient for which the laws of this
/// module are stated: `3 * 2^16`.
pub open spec fn coefficient_reach() -> int {
    0x300_0000_0000
}

/// Whether the three coefficients of the quadratic for `r` on `sphere`
/// lie within [`coefficient_reach`], with `a` positive.
pub open spec fn coefficients_in_reach(sphere: Sphere, r: &Ray) -> bool {
    &&& 0 < sphere.coeff_a(r)@ <= coefficient_reach()
    &&& -coefficient_reach() <= sphere.coeff_b(r)@ <= coefficient_reach()
    &&& -coefficient_reach() <= sphere.coeff_c(r)@ <= coefficient_reach()
}

/// The exact value `b^2 - a c` that the discriminant rounds, in units of
/// `2^-48`.
pub open spec fn exact_discriminant(sphere: Sphere, r: &Ray) -> int {
    sphere.coeff_b(r)@ * sphere.coeff_b(r)@ - sphere.coeff_a(r)@ * sphere.coeff_c(r)@
}

/// The product of two numbers within reach, rounded, is their product over
/// `2^24` rounded toward zero, and does not saturate.
proof fn lemma_product_in_reach(x: Scalar, y: Scalar)
    requires
        -coefficient_reach() <= x@ <= coefficient_reach(),
        -coefficient_reach() <= y@ <= coefficient_reach(),
    ensures
        x.times(y)@ == quot(x@ * y@, ONE_RAW as int),
        x@ * y@ >= 0 ==> x.times(y)@ == (x@ * y@) / (ONE_RAW as int),
        x@ * y@ < 0 ==> x.times(y)@ == -((-(x@ * y@)) / (ONE_RAW as int)),
        -0x900_0000_0000_0000 <= x.times(y)@ <= 0x900_0000_0000_0000,
{
    let one = ONE_RAW as int;
    let p = x@ * y@;
    assert(-0x9_0000_0000_0000_0000_0000int <= p <= 0x9_0000_0000_0000_0000_0000int)
        by (nonlinear_arith)
        requires
            p == x@ * y@,
            -0x300_0000_0000 <= x@ <= 0x300_0000_0000,
            -0x300_0000_0000 <= y@ <= 0x300_0000_0000,
    ;
    let m = magnitude(p);
    vstd::arithmetic::div_mod::lemma_div_is_ordered(0, m, one);
    vstd::arithmetic::div_mod::lemma_div_is_ordered(m, 0x9_0000_0000_0000_0000_0000int, one);
    assert(0int / one == 0);
    assert(0x9_0000_0000_0000_0000_0000int / one == 0x900_0000_0000_0000int);
}

/// The sum of two quotients rounded down is the quotient of the sum
/// rounded down, or one less.
proof fn lemma_floor_sum(x: int, y: int)
    requires
        0 <= x,
        0 <= y,
    ensures
        (x + y) / (ONE_RAW as int) - 1 <= x / (ONE_RAW as int) + y / (ONE_RAW as int) <= (x + y) / (
        ONE_RAW as int),
{
    let d = ONE_RAW as int;
    vstd::arithmetic::div_mod::lemma_fundamental_div_mod(x, d);
    vstd::arithmetic::div_mod::lemma_fundamental_div_mod(y, d);
    vstd::arithmetic::div_mod::lemma_fundamental_div_mod(x + y, d);
    vstd::arithmetic::div_mod::lemma_mod_bound(x, d);
    vstd::arithmetic::div_mod::lemma_mod_bound(y, d);
    vstd::arithmetic::div_mod::lemma_mod_bound(x + y, d);
}

/// The discriminant rounds `b^2 - a c`: a positive discriminant lies
/// within two raw units of the exact value over `2^24`.
pub proof fn lemma_discriminant_rounds(sphere: Sphere, r: &Ray)
    requires
        coefficients_in_reach(sphere, r),
        sphere.discriminant(r)@ > 0,
    ensures
        exact_discriminant(sphere, r) - 2 * ONE_RAW < sphere.discriminant(r)@ * ONE_RAW
            <= exact_discriminant(sphere, r) + ONE_RAW,
{
    let one = ONE_RAW as int;
    let a = sphere.coeff_a(r);
    let b = sphere.coeff_b(r);
    let c = sphere.coeff_c(r);
    lemma_product_in_reach(b, b);
    lemma_product_in_reach(a, c);
    let x = b@ * b@;
    assert(x >= 0) by (nonlinear_arith)
        requires
            x == b@ * b@,
    ;
    let bb = b.times(b)@;
    let ac = a.times(c)@;
    assert(sphere.discriminant(r)@ == bb - ac);
    vstd::arithmetic::div_mod::lemma_fundamental_div_mod(x, one);
    vstd::arithmetic::div_mod::lemma_mod_bound(x, one);
    if c@ >= 0 {
        let z = a@ * c@;
        assert(z >= 0) by (nonlinear_arith)
            requires
                z == a@ * c@,
                a@ > 0,
                c@ >= 0,
        ;
        vstd::arithmetic::div_mod::lemma_fundamental_div_mod(z, one);
        vstd::arithmetic::div_mod::lemma_mod_bound(z, one);
    } else {
        let z = -(a@ * c@);
        assert(z > 0) by (nonlinear_arith)
            requires
                z == -(a@ * c@),
                a@ > 0,
                c@ < 0,
        ;
        vstd::arithmetic::div_mod::lemma_fundamental_div_mod(z, one);
        vstd::arithmetic::div_mod::lemma_mod_bound(z, one);
    }
}

/// A root is the quotient of its numerator by `a`, rounded down: with
/// `t` the root and `n` the numerator, `a t <= n 2^24 < a t + a`.
proof fn lemma_root_rounds(n: Scalar, a: Scalar)
    requires
        0 < a@,
        0 < n.over(a)@ < MAX_RAW,
    ensures
        n@ > 0,
        a@ * n.over(a)@ <= n@ * ONE_RAW < a@ * n.over(a)@ + a@,
{
    let one = ONE_RAW as int;
    let t = n.over(a)@;
    let m = magnitude(n@ * one);
    assert(m / a@ >= 0) by (nonlinear_arith)
        requires
            m >= 0,
            a@ > 0,
    ;
    assert(n@ > 0);
    assert(m == n@ * one);
    vstd::arithmetic::div_mod::lemma_fundamental_div_mod(m, a@);
    vstd::arithmetic::div_mod::lemma_mod_bound(m, a@);
    assert(t == m / a@);
}

/// The smaller root solves the quadratic up to rounding. With `t` the
/// root and `root` the square root of the discriminant, in raw values:
/// `root 2^24 <= -(a t + b 2^24) < root 2^24 + a`, where `root` is the
/// integer square root of the discriminant times `2^24`, and the
/// discriminant rounds `b^2 - a c` as [`lemma_discriminant_rounds`] says.
/// So `(a t + b)^2` is `b^2 - a c` up to rounding, which is to say that
/// `a t^2 + 2 b t + c` is zero: the point at `t` lies on the sphere.
pub proof fn lemma_near_root_solves(sphere: Sphere, r: &Ray)
    requires
        coefficients_in_reach(sphere, r),
        sphere.discriminant(r)@ > 0,
        0 < sphere.near_root(r)@ < MAX_RAW,
    ensures
        ({
            let a = sphere.coeff_a(r)@;
            let b = sphere.coeff_b(r)@;
            let t = sphere.near_root(r)@;
            let root = sphere.discriminant(r).sqrt_spec()@;
            let y = -(a * t + b * ONE_RAW);
            let exact = exact_discriminant(sphere, r);
            &&& is_isqrt(sphere.discriminant(r)@ * ONE_RAW, root)
            &&& 0 <= root < -b
            &&& root * ONE_RAW <= y < root * ONE_RAW + a
            &&& (exact - 2 * ONE_RAW + 2 * b) * (ONE_RAW * ONE_RAW) <= y * y
            &&& y * y <= (exact + ONE_RAW) * (ONE_RAW * ONE_RAW) + 2 * (-b) * (a * ONE_RAW) + a * a
        }),
{
    let one = ONE_RAW as int;
    let a = sphere.coeff_a(r);
    let b = sphere.coeff_b(r);
    let disc = sphere.discriminant(r);
    lemma_sqrt_bounds(disc);
    lemma_discriminant_rounds(sphere, r);
    let root = disc.sqrt_spec();
    let n = b.negated().minus(root);
    assert(n@ == -b@ - root@);
    lemma_root_rounds(n, a);
    let t = sphere.near_root(r)@;
    assert(t == n.over(a)@);
    let y = -(a@ * t + b@ * one);
    assert(n@ * one == -(b@ * one) - root@ * one) by (nonlinear_arith)
        requires
            n@ == -b@ - root@,
    ;
    assert(root@ * one <= y < root@ * one + a@);
    lemma_square_bounds(
        a@,
        -b@,
        root@,
        disc@,
        exact_discriminant(sphere, r),
        y,
    );
}

/// The larger root solves the quadratic up to rounding: with `t` the root
/// and `root` the square root of the discriminant, in raw values,
/// `root 2^24 - a < a t + b 2^24 <= root 2^24`.
pub proof fn lemma_far_root_solves(sphere: Sphere, r: &Ray)
    requires
        coefficients_in_reach(sphere, r),
        sphere.discriminant(r)@ > 0,
        0 < sphere.far_root(r)@ < MAX_RAW,
    ensures
        ({
            let a = sphere.coeff_a(r)@;
            let b = sphere.coeff_b(r)@;
            let t = sphere.far_root(r)@;
            let root = sphere.discriminant(r).sqrt_spec()@;
            let y = a * t + b * ONE_RAW;
            &&& is_isqrt(sphere.discriminant(r)@ * ONE_RAW, root)
            &&& root * ONE_RAW - a < y <= root * ONE_RAW
        }),
{
    let one = ONE_RAW as int;
    let a = sphere.coeff_a(r);
    let b = sphere.coeff_b(r);
    let disc = sphere.discriminant(r);
    lemma_sqrt_bounds(disc);
    let root = disc.sqrt_spec();
    let n = b.negated().plus(root);
    assert(n@ == -b@ + root@);
    lemma_root_rounds(n, a);
    assert(n@ * one == -(b@ * one) + root@ * one) by (nonlinear_arith)
        requires
            n@ == -b@ + root@,
    ;
}

/// The bounds on the square of [`lemma_near_root_solves`], from those on
/// the root.
proof fn lemma_square_bounds(a: int, nb: int, root: int, disc: int, exact: int, y: int)
    requires
        0 < a,
        0 <= root < nb,
        exact - 2 * ONE_RAW < disc * ONE_RAW <= exact + ONE_RAW,
        is_isqrt(disc * ONE_RAW, root),
        root * ONE_RAW <= y < root * ONE_RAW + a,
    ensures
        (exact - 2 * ONE_RAW - 2 * nb) * (ONE_RAW * ONE_RAW) <= y * y,
        y * y <= (exact + ONE_RAW) * (ONE_RAW * ONE_RAW) + 2 * nb * (a * ONE_RAW) + a * a,
{
    let one = ONE_RAW as int;
    let lo = root * one;
    let hi = root * one + a;
    assert(lo * lo <= y * y <= hi * hi) by (nonlinear_arith)
        requires
            0 <= lo <= y < hi,
    ;
    assert(lo * lo == (root * root) * (one * one)) by (nonlinear_arith)
        requires
            lo == root * one,
    ;
    let cross = root * (a * one);
    assert(hi * hi == (root * root) * (one * one) + 2 * cross + a * a) by (nonlinear_arith)
        requires
            hi == root * one + a,
            cross == root * (a * one),
    ;
    assert((root + 1) * (root + 1) == root * root + 2 * root + 1) by (nonlinear_arith);
    let rr = root * root;
    assert(exact - 2 * one - 2 * nb < rr <= exact + one);
    let k = one * one;
    assert((exact - 2 * one - 2 * nb) * k <= rr * k) by (nonlinear_arith)
        requires
            exact - 2 * one - 2 * nb <= rr,
            k > 0,
    ;
    assert(rr * k <= (exact + one) * k) by (nonlinear_arith)
        requires
            rr <= exact + one,
            k > 0,
    ;
    let most = nb * (a * one);
    assert(cross <= most) by (nonlinear_arith)
        requires
            cross == root * (a * one),
            most == nb * (a * one),
            0 <= root < nb,
            a > 0,
            one > 0,
    ;
    assert(2 * nb * (a * one) == 2 * most) by (nonlinear_arith)
        requires
            most == nb * (a * one),
    ;
}

} // verus!
