//! Saturating fixed-point numbers.
//!
//! A [`Scalar`] stands for the rational number `raw / 2^24`. Every operation
//! rounds toward zero and clamps its result to the symmetric range
//! `-MAX_RAW ..= MAX_RAW`, so that arithmetic is total: nothing overflows and
//! nothing panics. Division by zero saturates by the sign of the dividend.

use vstd::prelude::*;
use core::cmp::Ordering;

verus! {

/// The raw value of the scalar one, `2^24`.
pub const ONE_RAW: i64 = 0x100_0000;

/// The largest raw value; the smallest is its negation.
pub const MAX_RAW: i64 = 0x7fff_ffff_ffff_ffff;

/// How many terms after the leading one the series of [`Scalar::tan`] have.
pub const SERIES_TERMS: u32 = 8;

/// A fixed-point number with 24 fractional bits.
#[derive(Clone, Copy, Debug, PartialEq, Eq, Structural)]
pub struct Scalar {
    pub raw: i64,
}

impl View for Scalar {
    type V = int;

    open spec fn view(&self) -> int {
        self.raw as int
    }
}

/// Clamps `x` to the range of raw values.
pub open spec fn sat(x: int) -> int {
    if x > MAX_RAW {
        MAX_RAW as int
    } else if x < -MAX_RAW {
        -(MAX_RAW as int)
    } else {
        x
    }
}

/// The absolute value of `x`.
pub open spec fn magnitude(x: int) -> int {
    if x < 0 {
        -x
    } else {
        x
    }
}

/// The quotient of `a` by `b`, rounded toward zero: the magnitudes are
/// divided, and the quotient is negative where the signs differ.
pub open spec fn quot(a: int, b: int) -> int
    recommends
        b != 0,
{
    if (a < 0) != (b < 0) {
        -(magnitude(a) / magnitude(b))
    } else {
        magnitude(a) / magnitude(b)
    }
}

/// Raw value of the sum of two scalars.
pub open spec fn fx_add(a: int, b: int) -> int {
    sat(a + b)
}

/// Raw value of the difference of two scalars.
pub open spec fn fx_sub(a: int, b: int) -> int {
    sat(a - b)
}

/// Raw value of the negation of a scalar.
pub open spec fn fx_neg(a: int) -> int {
    sat(-a)
}

/// Raw value of the product of two scalars.
pub open spec fn fx_mul(a: int, b: int) -> int {
    sat(quot(a * b, ONE_RAW as int))
}

/// Raw value of the quotient of two scalars. A zero divisor gives the
/// largest magnitude with the sign of the dividend, and zero for `0 / 0`.
pub open spec fn fx_div(a: int, b: int) -> int {
    if b == 0 {
        if a > 0 {
            MAX_RAW as int
        } else if a < 0 {
            -(MAX_RAW as int)
        } else {
            0
        }
    } else {
        sat(quot(a * ONE_RAW, b))
    }
}

/// Whether `r` is the integer square root of `n`: the largest `r >= 0` with
/// `r * r <= n`.
pub open spec fn is_isqrt(n: int, r: int) -> bool {
    0 <= r && r * r <= n && n < (r + 1) * (r + 1)
}

/// The integer square root of `n`, for `n >= 0`.
pub open spec fn isqrt(n: int) -> int
    recommends
        n >= 0,
{
    choose|r: int| is_isqrt(n, r)
}

/// Raw value of the square root of a scalar; zero for a negative one.
pub open spec fn fx_sqrt(a: int) -> int {
    if a <= 0 {
        0
    } else {
        isqrt(a * ONE_RAW)
    }
}

/// At most one number is the integer square root of `n`.
pub proof fn lemma_isqrt_unique(n: int, r1: int, r2: int)
    requires
        is_isqrt(n, r1),
        is_isqrt(n, r2),
    ensures
        r1 == r2,
{
    if r1 < r2 {
        assert((r1 + 1) * (r1 + 1) <= r2 * r2) by (nonlinear_arith)
            requires
                0 <= r1,
                r1 + 1 <= r2,
        ;
    } else if r2 < r1 {
        assert((r2 + 1) * (r2 + 1) <= r1 * r1) by (nonlinear_arith)
            requires
                0 <= r2,
                r2 + 1 <= r1,
        ;
    }
}

/// A number that passes the test of [`is_isqrt`] is [`isqrt`].
pub proof fn lemma_isqrt_is(n: int, r: int)
    requires
        is_isqrt(n, r),
    ensures
        isqrt(n) == r,
{
    lemma_isqrt_unique(n, r, isqrt(n));
}

/// Negating the divisor negates the quotient.
pub proof fn lemma_quot_neg_divisor(a: int, b: int)
    requires
        b != 0,
    ensures
        quot(a, -b) == -quot(a, b),
{
    assert(0int / magnitude(b) == 0) by (nonlinear_arith)
        requires
            magnitude(b) > 0,
    ;
}

/// Toward a positive divisor the quotient grows with the dividend.
pub proof fn lemma_quot_monotonic(a1: int, a2: int, b: int)
    requires
        a1 <= a2,
        b > 0,
    ensures
        quot(a1, b) <= quot(a2, b),
{
    if a1 >= 0 {
        vstd::arithmetic::div_mod::lemma_div_is_ordered(a1, a2, b);
    } else if a2 < 0 {
        vstd::arithmetic::div_mod::lemma_div_is_ordered(-a2, -a1, b);
    } else {
        vstd::arithmetic::div_mod::lemma_div_is_ordered(0, -a1, b);
        vstd::arithmetic::div_mod::lemma_div_is_ordered(0, a2, b);
    }
}

/// Divides two wide integers, rounding toward zero.
fn quot_wide(a: i128, b: i128) -> (q: i128)
    requires
        b != 0,
        a > i128::MIN,
        b > i128::MIN,
    ensures
        q == quot(a as int, b as int),
{
    let ma: i128 = if a < 0 { -a } else { a };
    let mb: i128 = if b < 0 { -b } else { b };
    let m: i128 = ma / mb;
    assert(0 <= m <= ma) by (nonlinear_arith)
        requires
            m == ma as int / mb as int,
            ma >= 0,
            mb > 0,
    ;
    if (a < 0) != (b < 0) {
        -m
    } else {
        m
    }
}

/// The square of a scalar is not negative.
pub proof fn lemma_square_nonnegative(x: Scalar)
    ensures
        x.times(x)@ >= 0,
{
    assert(x@ * x@ >= 0) by (nonlinear_arith);
    assert((x@ * x@) / (ONE_RAW as int) >= 0) by (nonlinear_arith)
        requires
            x@ * x@ >= 0,
    ;
}

/// The square root of a scalar is not negative, and less than `2^20`.
pub proof fn lemma_sqrt_bounds(x: Scalar)
    ensures
        0 <= x.sqrt_spec()@ < 0x1000_0000_0000,
        x.sqrt_spec()@ == fx_sqrt(x@),
        x@ > 0 ==> is_isqrt(x@ * ONE_RAW, x.sqrt_spec()@),
{
    if x@ > 0 {
        let n = x@ * ONE_RAW;
        assert(exists|r: int| is_isqrt(n, r)) by {
            lemma_isqrt_exists(n);
        }
        assert(is_isqrt(n, isqrt(n)));
        assert(isqrt(n) * isqrt(n) <= n);
        assert(isqrt(n) < 0x1000_0000_0000) by (nonlinear_arith)
            requires
                isqrt(n) >= 0,
                isqrt(n) * isqrt(n) <= n,
                n < 0x100_0000_0000_0000_0000_0000,
        ;
    }
}

/// Every natural number has an integer square root.
pub proof fn lemma_isqrt_exists(n: int)
    requires
        n >= 0,
    ensures
        exists|r: int| is_isqrt(n, r),
    decreases n,
{
    if n == 0 {
        assert(is_isqrt(0, 0));
    } else {
        let m = n - 1;
        lemma_isqrt_exists(m);
        let r = choose|r: int| is_isqrt(m, r);
        if n < (r + 1) * (r + 1) {
            assert(is_isqrt(n, r));
        } else {
            assert((r + 2) * (r + 2) > (r + 1) * (r + 1)) by (nonlinear_arith)
                requires
                    r >= 0,
            ;
            assert(is_isqrt(n, r + 1));
        }
    }
}

/// To divide by the negated divisor is to negate the quotient.
pub proof fn lemma_over_negated(x: Scalar, d: Scalar)
    requires
        -MAX_RAW <= d@,
        d@ != 0,
    ensures
        x.over(d.negated()) == x.over(d).negated(),
{
    lemma_quot_neg_divisor(x@ * ONE_RAW, d@);
}

/// Every operation gives a scalar in the symmetric range, whatever it is
/// given; and there zero is neutral and negation undoes itself.
pub proof fn lemma_operations_in_range(a: Scalar, b: Scalar)
    ensures
        a.negated().in_range(),
        a.plus(b).in_range(),
        a.minus(b).in_range(),
        a.times(b).in_range(),
        a.over(b).in_range(),
        a.sqrt_spec().in_range(),
        a.in_range() ==> a.plus(Scalar::of_int(0)) == a && a.minus(Scalar::of_int(0)) == a,
        a.in_range() ==> a.negated().negated() == a,
{
    lemma_sqrt_bounds(a);
}

/// Clamps a wide integer to the range of raw values.
fn clamp(wide: i128) -> (raw: i64)
    ensures
        raw == sat(wide as int),
{
    if wide > MAX_RAW as i128 {
        MAX_RAW
    } else if wide < -(MAX_RAW as i128) {
        -MAX_RAW
    } else {
        wide as i64
    }
}

/// Integer square root by bisection.
fn isqrt_wide(n: u128) -> (r: u128)
    ensures
        r == isqrt(n as int),
        is_isqrt(n as int, r as int),
        r < 0x1_0000_0000_0000_0000,
{
    let mut lo: u128 = 0;
    let mut hi: u128 = 0x1_0000_0000_0000_0000;
    assert(n < hi * hi) by (nonlinear_arith)
        requires
            n < 0x1_0000_0000_0000_0000_0000_0000_0000_0000,
            hi == 0x1_0000_0000_0000_0000,
    ;
    while hi - lo > 1
        invariant
            lo < hi <= 0x1_0000_0000_0000_0000,
            lo * lo <= n < hi * hi,
        decreases hi - lo,
    {
        let mid: u128 = lo + (hi - lo) / 2;
        assert(mid * mid < 0x1_0000_0000_0000_0000_0000_0000_0000_0000) by (nonlinear_arith)
            requires
                0 <= mid < 0x1_0000_0000_0000_0000,
        ;
        if mid * mid <= n {
            lo = mid;
        } else {
            hi = mid;
        }
    }
    proof {
        lemma_isqrt_is(n as int, lo as int);
    }
    lo
}

/// The square of a raw value as a wide integer.
fn square_wide(x: i64) -> (out: u128)
    ensures
        out == x * x,
        out <= 0x4000_0000_0000_0000_0000_0000_0000_0000,
{
    assert(0 <= x * x <= 0x4000_0000_0000_0000_0000_0000_0000_0000) by (nonlinear_arith)
        requires
            -0x8000_0000_0000_0000 <= x <= 0x8000_0000_0000_0000,
    ;
    let wide: i128 = x as i128 * x as i128;
    wide as u128
}

/// Raw value of the length of a vector of three scalars: the integer
/// square root of the exact sum of the three raw squares. Nothing is
/// rounded before the root is taken, so that no vector but the zero vector
/// has the length zero.
pub open spec fn fx_norm(a: int, b: int, c: int) -> int {
    sat(isqrt(a * a + b * b + c * c))
}

/// The length of a vector is not negative, and zero for the zero vector
/// alone; no component is longer than the vector, but for the one raw unit
/// that is lost where the length saturates.
pub proof fn lemma_norm_dominates(a: int, b: int, c: int)
    requires
        -0x8000_0000_0000_0000 <= a <= MAX_RAW,
    ensures
        0 <= fx_norm(a, b, c) <= MAX_RAW,
        magnitude(a) <= fx_norm(a, b, c) + 1,
        fx_norm(a, b, c) < MAX_RAW ==> magnitude(a) <= fx_norm(a, b, c),
        (fx_norm(a, b, c) == 0) == (a == 0 && b == 0 && c == 0),
{
    let n = a * a + b * b + c * c;
    assert(a * a >= 0 && b * b >= 0 && c * c >= 0) by (nonlinear_arith);
    lemma_isqrt_exists(n);
    let r = isqrt(n);
    assert(is_isqrt(n, r));
    let m = magnitude(a);
    assert(m * m == a * a) by (nonlinear_arith)
        requires
            m == a || m == -a,
    ;
    if r < m {
        assert((r + 1) * (r + 1) <= m * m) by (nonlinear_arith)
            requires
                0 <= r,
                r + 1 <= m,
        ;
    }
    if r == 0 {
        assert((r + 1) * (r + 1) == 1) by (nonlinear_arith)
            requires
                r == 0,
        ;
        assert(a == 0) by (nonlinear_arith)
            requires
                a * a < 1,
        ;
        assert(b == 0) by (nonlinear_arith)
            requires
                b * b < 1,
        ;
        assert(c == 0) by (nonlinear_arith)
            requires
                c * c < 1,
        ;
    } else {
        assert(r * r >= 1) by (nonlinear_arith)
            requires
                r >= 1,
        ;
    }
    if a == 0 && b == 0 && c == 0 {
        assert(n == 0);
        lemma_isqrt_is(0, 0);
    }
}

/// A component of a vector over the length of the vector lies between
/// minus one and plus one.
pub proof fn lemma_component_over_norm(a: Scalar, b: Scalar, c: Scalar)
    ensures
        -ONE_RAW <= a.over(Scalar::norm3_spec(a, b, c))@ <= ONE_RAW,
{
    lemma_norm_dominates(a@, b@, c@);
    let n = fx_norm(a@, b@, c@);
    let m = magnitude(a@);
    if n != 0 {
        assert(magnitude(a@ * ONE_RAW) == m * ONE_RAW);
        assert(m * ONE_RAW < n * (ONE_RAW + 1)) by (nonlinear_arith)
            requires
                0 <= m <= n + 1,
                n < MAX_RAW ==> m <= n,
                n >= 1,
                n <= MAX_RAW,
                ONE_RAW == 0x100_0000,
                MAX_RAW == 0x7fff_ffff_ffff_ffff,
        ;
        assert((m * ONE_RAW) / n <= ONE_RAW) by (nonlinear_arith)
            requires
                n >= 1,
                m * ONE_RAW < n * (ONE_RAW + 1),
                m >= 0,
        ;
        assert((m * ONE_RAW) / n >= 0) by (nonlinear_arith)
            requires
                n >= 1,
                m >= 0,
                ONE_RAW > 0,
        ;
    }
}

impl Scalar {
    /// The scalar with the given raw value, `i64::MIN` clamped into range.
    pub fn from_raw(raw: i64) -> (out: Scalar)
        ensures
            out@ == sat(raw as int),
            out.in_range(),
    {
        Scalar { raw: clamp(raw as i128) }
    }

    /// The scalar that stands for the integer `n`, where it is in range.
    pub open spec fn of_int(n: int) -> Scalar {
        Scalar { raw: (n * ONE_RAW) as i64 }
    }

    /// The scalar nearest to `num / den` toward zero.
    pub open spec fn of_ratio(num: int, den: int) -> Scalar {
        Scalar::of_int(num).over(Scalar::of_int(den))
    }

    /// The scalar that stands for the integer `n`.
    pub fn from_int(n: i32) -> (out: Scalar)
        ensures
            out == Scalar::of_int(n as int),
            out@ == n * ONE_RAW,
            out.in_range(),
    {
        Scalar { raw: n as i64 * ONE_RAW }
    }

    /// The scalar nearest to `num / den` toward zero.
    pub fn ratio(num: i32, den: i32) -> (out: Scalar)
        ensures
            out == Scalar::of_ratio(num as int, den as int),
            out@ == fx_div(num * ONE_RAW, den * ONE_RAW),
            out.in_range(),
    {
        Scalar::from_int(num) / Scalar::from_int(den)
    }

    /// The whole part of the scalar: its value rounded toward zero.
    pub fn to_int(self) -> (out: i64)
        ensures
            out == quot(self@, ONE_RAW as int),
    {
        quot_wide(self.raw as i128, ONE_RAW as i128) as i64
    }

    /// The largest scalar, which serves as an unbounded limit.
    pub fn max_value() -> (out: Scalar)
        ensures
            out@ == MAX_RAW,
            out.in_range(),
    {
        Scalar { raw: MAX_RAW }
    }

    /// Whether the scalar lies in the symmetric range from `-MAX_RAW` to
    /// `MAX_RAW`: every scalar does but the one of the raw value
    /// `i64::MIN`, which no operation gives and no constructor but the
    /// struct literal makes.
    pub open spec fn in_range(self) -> bool {
        -MAX_RAW <= self@ <= MAX_RAW
    }

    /// The negation, as the operator `-` computes it.
    pub open spec fn negated(self) -> Scalar {
        Scalar { raw: fx_neg(self@) as i64 }
    }

    /// The sum, as the operator `+` computes it.
    pub open spec fn plus(self, rhs: Scalar) -> Scalar {
        Scalar { raw: fx_add(self@, rhs@) as i64 }
    }

    /// The difference, as the operator `-` computes it.
    pub open spec fn minus(self, rhs: Scalar) -> Scalar {
        Scalar { raw: fx_sub(self@, rhs@) as i64 }
    }

    /// The product, as the operator `*` computes it.
    pub open spec fn times(self, rhs: Scalar) -> Scalar {
        Scalar { raw: fx_mul(self@, rhs@) as i64 }
    }

    /// The quotient, as the operator `/` computes it.
    pub open spec fn over(self, rhs: Scalar) -> Scalar {
        Scalar { raw: fx_div(self@, rhs@) as i64 }
    }

    /// The number pi, rounded down.
    pub open spec fn pi_spec() -> Scalar {
        Scalar { raw: 52707178 }
    }

    /// The alternating series `1 - x2/(d (d+1)) (1 - x2/((d+2) (d+3)) (1 - ...))`
    /// of the given number of terms after the leading one, where `d` is
    /// `first`. With the square of an angle for `x2`, it is the start of the
    /// power series of the cosine where `first` is one, and of the sine over
    /// the angle where `first` is two.
    pub open spec fn series_spec(x2: Scalar, first: int, terms: nat) -> Scalar
        decreases terms,
    {
        if terms == 0 {
            Scalar::of_int(1)
        } else {
            Scalar::of_int(1).minus(
                x2.over(Scalar::of_int(first * (first + 1))).times(
                    Scalar::series_spec(x2, first + 2, (terms - 1) as nat),
                ),
            )
        }
    }

    /// Specification of [`Scalar::tan`]: the quotient of the power series of
    /// the sine and of the cosine, each up to the term of [`SERIES_TERMS`].
    pub open spec fn tan_spec(self) -> Scalar {
        let x2 = self.times(self);
        self.times(Scalar::series_spec(x2, 2, SERIES_TERMS as nat)).over(
            Scalar::series_spec(x2, 1, SERIES_TERMS as nat),
        )
    }

    /// The number pi, rounded down.
    pub fn pi() -> (out: Scalar)
        ensures
            out == Scalar::pi_spec(),
            out.in_range(),
    {
        Scalar { raw: 52707178 }
    }

    /// Evaluates the alternating series from the innermost term outward.
    fn series(x2: Scalar, first: u32, terms: u32) -> (out: Scalar)
        requires
            0 < first <= 2,
            terms <= SERIES_TERMS,
        ensures
            out == Scalar::series_spec(x2, first as int, terms as nat),
    {
        let one: Scalar = Scalar::from_int(1);
        let mut acc: Scalar = one;
        let mut done: u32 = 0;
        while done < terms
            invariant
                0 < first <= 2,
                done <= terms <= SERIES_TERMS,
                one == Scalar::of_int(1),
                acc == Scalar::series_spec(x2, first + 2 * (terms - done), done as nat),
            decreases terms - done,
        {
            let d: u32 = first + 2 * (terms - done - 1);
            assert(d * (d + 1) < 1024) by (nonlinear_arith)
                requires
                    d < 32,
            ;
            let step: i32 = (d * (d + 1)) as i32;
            acc = one - x2 / Scalar::from_int(step) * acc;
            done = done + 1;
        }
        acc
    }

    /// The tangent of an angle in radians: the power series of the sine
    /// over that of the cosine, each cut off after [`SERIES_TERMS`] terms
    /// beyond the leading one. That is close between minus and plus a right
    /// angle, and of no use far outside.
    pub fn tan(self) -> (out: Scalar)
        ensures
            out == self.tan_spec(),
            out.in_range(),
    {
        let x2: Scalar = self * self;
        self * Scalar::series(x2, 2, SERIES_TERMS) / Scalar::series(x2, 1, SERIES_TERMS)
    }

    /// Specification of [`Scalar::sqrt`].
    pub open spec fn sqrt_spec(self) -> Scalar {
        Scalar { raw: fx_sqrt(self@) as i64 }
    }

    /// The square root, rounded down; zero for a negative scalar.
    pub fn sqrt(self) -> (out: Scalar)
        ensures
            out == self.sqrt_spec(),
            out@ == fx_sqrt(self@),
            out.in_range(),
    {
        if self.raw <= 0 {
            Scalar { raw: 0 }
        } else {
            let n: u128 = self.raw as u128 * (ONE_RAW as u128);
            let r: u128 = isqrt_wide(n);
            proof {
                lemma_sqrt_bounds(self);
            }
            Scalar { raw: r as i64 }
        }
    }

    /// Specification of [`Scalar::norm3`].
    pub open spec fn norm3_spec(a: Scalar, b: Scalar, c: Scalar) -> Scalar {
        Scalar { raw: fx_norm(a@, b@, c@) as i64 }
    }

    /// The length of the vector `(a, b, c)`: the square root of the sum of
    /// the squares, rounded down. The squares are summed exactly, so that
    /// a short vector keeps its length.
    pub fn norm3(a: Scalar, b: Scalar, c: Scalar) -> (out: Scalar)
        ensures
            out == Scalar::norm3_spec(a, b, c),
            out.in_range(),
    {
        let n: u128 = square_wide(a.raw) + square_wide(b.raw) + square_wide(c.raw);
        let r: u128 = isqrt_wide(n);
        if r > MAX_RAW as u128 {
            Scalar { raw: MAX_RAW }
        } else {
            Scalar { raw: r as i64 }
        }
    }
}

impl core::ops::Neg for Scalar {
    type Output = Scalar;

    fn neg(self) -> (out: Scalar)
        ensures
            out.in_range(),
    {
        Scalar { raw: clamp(-(self.raw as i128)) }
    }
}

impl vstd::std_specs::ops::NegSpecImpl for Scalar {
    open spec fn obeys_neg_spec() -> bool {
        true
    }

    open spec fn neg_req(self) -> bool {
        true
    }

    open spec fn neg_spec(self) -> Scalar {
        self.negated()
    }
}

impl core::ops::Add for Scalar {
    type Output = Scalar;

    fn add(self, rhs: Scalar) -> (out: Scalar)
        ensures
            out.in_range(),
    {
        Scalar { raw: clamp(self.raw as i128 + rhs.raw as i128) }
    }
}

impl vstd::std_specs::ops::AddSpecImpl for Scalar {
    open spec fn obeys_add_spec() -> bool {
        true
    }

    open spec fn add_req(self, rhs: Scalar) -> bool {
        true
    }

    open spec fn add_spec(self, rhs: Scalar) -> Scalar {
        self.plus(rhs)
    }
}

impl core::ops::Sub for Scalar {
    type Output = Scalar;

    fn sub(self, rhs: Scalar) -> (out: Scalar)
        ensures
            out.in_range(),
    {
        Scalar { raw: clamp(self.raw as i128 - rhs.raw as i128) }
    }
}

impl vstd::std_specs::ops::SubSpecImpl for Scalar {
    open spec fn obeys_sub_spec() -> bool {
        true
    }

    open spec fn sub_req(self, rhs: Scalar) -> bool {
        true
    }

    open spec fn sub_spec(self, rhs: Scalar) -> Scalar {
        self.minus(rhs)
    }
}

impl core::ops::Mul for Scalar {
    type Output = Scalar;

    fn mul(self, rhs: Scalar) -> (out: Scalar)
        ensures
            out.in_range(),
    {
        assert(-0x4000_0000_0000_0000_0000_0000_0000_0000 <= self.raw * rhs.raw
            <= 0x4000_0000_0000_0000_0000_0000_0000_0000) by (nonlinear_arith)
            requires
                -0x8000_0000_0000_0000 <= self.raw <= 0x8000_0000_0000_0000,
                -0x8000_0000_0000_0000 <= rhs.raw <= 0x8000_0000_0000_0000,
        ;
        let wide: i128 = self.raw as i128 * rhs.raw as i128;
        Scalar { raw: clamp(quot_wide(wide, ONE_RAW as i128)) }
    }
}

impl vstd::std_specs::ops::MulSpecImpl for Scalar {
    open spec fn obeys_mul_spec() -> bool {
        true
    }

    open spec fn mul_req(self, rhs: Scalar) -> bool {
        true
    }

    open spec fn mul_spec(self, rhs: Scalar) -> Scalar {
        self.times(rhs)
    }
}

impl core::ops::Div for Scalar {
    type Output = Scalar;

    fn div(self, rhs: Scalar) -> (out: Scalar)
        ensures
            out.in_range(),
    {
        if rhs.raw == 0 {
            if self.raw > 0 {
                Scalar { raw: MAX_RAW }
            } else if self.raw < 0 {
                Scalar { raw: -MAX_RAW }
            } else {
                Scalar { raw: 0 }
            }
        } else {
            let wide: i128 = self.raw as i128 * ONE_RAW as i128;
            Scalar { raw: clamp(quot_wide(wide, rhs.raw as i128)) }
        }
    }
}

impl vstd::std_specs::ops::DivSpecImpl for Scalar {
    open spec fn obeys_div_spec() -> bool {
        true
    }

    open spec fn div_req(self, rhs: Scalar) -> bool {
        true
    }

    open spec fn div_spec(self, rhs: Scalar) -> Scalar {
        self.over(rhs)
    }
}

impl PartialOrd for Scalar {
    fn partial_cmp(&self, other: &Scalar) -> (out: Option<Ordering>) {
        if self.raw < other.raw {
            Some(Ordering::Less)
        } else if self.raw > other.raw {
            Some(Ordering::Greater)
        } else {
            Some(Ordering::Equal)
        }
    }
}

impl vstd::std_specs::cmp::PartialOrdSpecImpl for Scalar {
    open spec fn obeys_partial_cmp_spec() -> bool {
        true
    }

    open spec fn partial_cmp_spec(&self, other: &Scalar) -> Option<Ordering> {
        if self@ < other@ {
            Some(Ordering::Less)
        } else if self@ > other@ {
            Some(Ordering::Greater)
        } else {
            Some(Ordering::Equal)
        }
    }
}

} // verus!
