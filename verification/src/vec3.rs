//! Three-component vectors of fixed-point scalars, used for positions,
//! directions and colours alike.

use vstd::prelude::*;
use core::ops::Neg;
use crate::scalar::{lemma_component_over_norm, lemma_norm_dominates, Scalar, ONE_RAW};

verus! {

/// A vector of three scalars.
#[derive(Clone, Copy, Debug, PartialEq, Eq, Structural)]
pub struct Vec3 {
    pub x: Scalar,
    pub y: Scalar,
    pub z: Scalar,
}

impl Vec3 {
    pub fn new(x: Scalar, y: Scalar, z: Scalar) -> (out: Vec3)
        ensures
            out == (Vec3 { x, y, z }),
    {
        Vec3 { x, y, z }
    }

    pub fn x(&self) -> (out: Scalar)
        ensures
            out == self.x,
    {
        self.x
    }

    pub fn y(&self) -> (out: Scalar)
        ensures
            out == self.y,
    {
        self.y
    }

    pub fn z(&self) -> (out: Scalar)
        ensures
            out == self.z,
    {
        self.z
    }

    /// The first component, read as the red channel of a colour.
    pub fn r(&self) -> (out: Scalar)
        ensures
            out == self.x,
    {
        self.x
    }

    /// The second component, read as the green channel of a colour.
    pub fn g(&self) -> (out: Scalar)
        ensures
            out == self.y,
    {
        self.y
    }

    /// The third component, read as the blue channel of a colour.
    pub fn b(&self) -> (out: Scalar)
        ensures
            out == self.z,
    {
        self.z
    }

    /// The negation, component by component.
    pub open spec fn negated(self) -> Vec3 {
        Vec3 { x: self.x.negated(), y: self.y.negated(), z: self.z.negated() }
    }

    /// The sum of two vectors.
    pub open spec fn plus(self, other: Vec3) -> Vec3 {
        Vec3 { x: self.x.plus(other.x), y: self.y.plus(other.y), z: self.z.plus(other.z) }
    }

    /// The vector with `scalar` added to each component.
    pub open spec fn offset(self, scalar: Scalar) -> Vec3 {
        Vec3 { x: self.x.plus(scalar), y: self.y.plus(scalar), z: self.z.plus(scalar) }
    }

    /// The difference of two vectors.
    pub open spec fn minus(self, other: Vec3) -> Vec3 {
        Vec3 { x: self.x.minus(other.x), y: self.y.minus(other.y), z: self.z.minus(other.z) }
    }

    /// The vector with each component multiplied by `scalar`.
    pub open spec fn scaled(self, scalar: Scalar) -> Vec3 {
        Vec3 { x: self.x.times(scalar), y: self.y.times(scalar), z: self.z.times(scalar) }
    }

    /// The product of two vectors, component by component.
    pub open spec fn times(self, other: Vec3) -> Vec3 {
        Vec3 { x: self.x.times(other.x), y: self.y.times(other.y), z: self.z.times(other.z) }
    }

    /// The vector with each component divided by `scalar`.
    pub open spec fn over(self, scalar: Scalar) -> Vec3 {
        Vec3 { x: self.x.over(scalar), y: self.y.over(scalar), z: self.z.over(scalar) }
    }

    /// Specification of [`Vec3::dot`]: the products are summed from left
    /// to right.
    pub open spec fn dot_spec(&self, rhs: &Vec3) -> Scalar {
        self.x.times(rhs.x).plus(self.y.times(rhs.y)).plus(self.z.times(rhs.z))
    }

    /// Specification of [`Vec3::squared_norm`].
    pub open spec fn squared_norm_spec(&self) -> Scalar {
        self.dot_spec(self)
    }

    /// Specification of [`Vec3::norm`]: the square root of the exact sum
    /// of the squares of the components. It is zero for the zero vector
    /// alone.
    pub open spec fn norm_spec(&self) -> Scalar {
        Scalar::norm3_spec(self.x, self.y, self.z)
    }

    /// Specification of [`Vec3::unit`].
    pub open spec fn unit_spec(&self) -> Vec3 {
        self.over(self.norm_spec())
    }

    /// Specification of [`Vec3::cross`].
    pub open spec fn cross_spec(&self, rhs: &Vec3) -> Vec3 {
        Vec3 {
            x: self.y.times(rhs.z).minus(self.z.times(rhs.y)),
            y: self.x.times(rhs.z).minus(self.z.times(rhs.x)).negated(),
            z: self.x.times(rhs.y).minus(self.y.times(rhs.x)),
        }
    }

    /// Each component of the unit vector lies between minus one and plus
    /// one, and the unit vector of the zero vector is the zero vector.
    pub proof fn lemma_unit_in_range(&self)
        ensures
            -ONE_RAW <= self.unit_spec().x@ <= ONE_RAW,
            -ONE_RAW <= self.unit_spec().y@ <= ONE_RAW,
            -ONE_RAW <= self.unit_spec().z@ <= ONE_RAW,
            self.x@ == 0 && self.y@ == 0 && self.z@ == 0 ==> self.unit_spec() == *self,
    {
        let (a, b, c) = (self.x, self.y, self.z);
        lemma_component_over_norm(a, b, c);
        lemma_component_over_norm(b, a, c);
        lemma_component_over_norm(c, a, b);
        assert(a@ * a@ + b@ * b@ + c@ * c@ == b@ * b@ + a@ * a@ + c@ * c@);
        assert(a@ * a@ + b@ * b@ + c@ * c@ == c@ * c@ + a@ * a@ + b@ * b@);
        lemma_norm_dominates(a@, b@, c@);
    }

    pub fn squared_norm(&self) -> (out: Scalar)
        ensures
            out == self.squared_norm_spec(),
    {
        self.x * self.x + self.y * self.y + self.z * self.z
    }

    pub fn norm(&self) -> (out: Scalar)
        ensures
            out == self.norm_spec(),
    {
        Scalar::norm3(self.x, self.y, self.z)
    }

    /// The vector divided by its norm, and the zero vector for the zero
    /// vector. Each component lies between minus one and plus one.
    pub fn unit(&self) -> (out: Vec3)
        ensures
            out == self.unit_spec(),
    {
        *self / self.norm()
    }

    pub fn dot(&self, rhs: &Vec3) -> (out: Scalar)
        ensures
            out == self.dot_spec(rhs),
    {
        self.x * rhs.x + self.y * rhs.y + self.z * rhs.z
    }

    pub fn cross(&self, rhs: &Vec3) -> (out: Vec3)
        ensures
            out == self.cross_spec(rhs),
    {
        Vec3 {
            x: self.y * rhs.z - self.z * rhs.y,
            y: (self.x * rhs.z - self.z * rhs.x).neg(),
            z: self.x * rhs.y - self.y * rhs.x,
        }
    }
}

impl core::ops::Neg for Vec3 {
    type Output = Vec3;

    fn neg(self) -> (out: Vec3) {
        Vec3 { x: self.x.neg(), y: self.y.neg(), z: self.z.neg() }
    }
}

impl vstd::std_specs::ops::NegSpecImpl for Vec3 {
    open spec fn obeys_neg_spec() -> bool {
        true
    }

    open spec fn neg_req(self) -> bool {
        true
    }

    open spec fn neg_spec(self) -> Vec3 {
        self.negated()
    }
}

impl core::ops::Add for Vec3 {
    type Output = Vec3;

    fn add(self, other: Vec3) -> (out: Vec3) {
        Vec3 { x: self.x + other.x, y: self.y + other.y, z: self.z + other.z }
    }
}

impl vstd::std_specs::ops::AddSpecImpl for Vec3 {
    open spec fn obeys_add_spec() -> bool {
        true
    }

    open spec fn add_req(self, other: Vec3) -> bool {
        true
    }

    open spec fn add_spec(self, other: Vec3) -> Vec3 {
        self.plus(other)
    }
}

impl core::ops::Add<Scalar> for Vec3 {
    type Output = Vec3;

    fn add(self, scalar: Scalar) -> (out: Vec3) {
        Vec3 { x: self.x + scalar, y: self.y + scalar, z: self.z + scalar }
    }
}

impl vstd::std_specs::ops::AddSpecImpl<Scalar> for Vec3 {
    open spec fn obeys_add_spec() -> bool {
        true
    }

    open spec fn add_req(self, scalar: Scalar) -> bool {
        true
    }

    open spec fn add_spec(self, scalar: Scalar) -> Vec3 {
        self.offset(scalar)
    }
}

impl core::ops::Sub for Vec3 {
    type Output = Vec3;

    fn sub(self, other: Vec3) -> (out: Vec3) {
        Vec3 { x: self.x - other.x, y: self.y - other.y, z: self.z - other.z }
    }
}

impl vstd::std_specs::ops::SubSpecImpl for Vec3 {
    open spec fn obeys_sub_spec() -> bool {
        true
    }

    open spec fn sub_req(self, other: Vec3) -> bool {
        true
    }

    open spec fn sub_spec(self, other: Vec3) -> Vec3 {
        self.minus(other)
    }
}

impl core::ops::Mul<Scalar> for Vec3 {
    type Output = Vec3;

    fn mul(self, scalar: Scalar) -> (out: Vec3) {
        Vec3 { x: self.x * scalar, y: self.y * scalar, z: self.z * scalar }
    }
}

impl vstd::std_specs::ops::MulSpecImpl<Scalar> for Vec3 {
    open spec fn obeys_mul_spec() -> bool {
        true
    }

    open spec fn mul_req(self, scalar: Scalar) -> bool {
        true
    }

    open spec fn mul_spec(self, scalar: Scalar) -> Vec3 {
        self.scaled(scalar)
    }
}

impl core::ops::Mul<Vec3> for Scalar {
    type Output = Vec3;

    fn mul(self, vec: Vec3) -> (out: Vec3) {
        vec * self
    }
}

impl vstd::std_specs::ops::MulSpecImpl<Vec3> for Scalar {
    open spec fn obeys_mul_spec() -> bool {
        true
    }

    open spec fn mul_req(self, vec: Vec3) -> bool {
        true
    }

    open spec fn mul_spec(self, vec: Vec3) -> Vec3 {
        vec.scaled(self)
    }
}

/// The product of two colours, channel by channel.
impl core::ops::Mul for Vec3 {
    type Output = Vec3;

    fn mul(self, other: Vec3) -> (out: Vec3) {
        Vec3 { x: self.x * other.x, y: self.y * other.y, z: self.z * other.z }
    }
}

impl vstd::std_specs::ops::MulSpecImpl for Vec3 {
    open spec fn obeys_mul_spec() -> bool {
        true
    }

    open spec fn mul_req(self, other: Vec3) -> bool {
        true
    }

    open spec fn mul_spec(self, other: Vec3) -> Vec3 {
        self.times(other)
    }
}

impl core::ops::Div<Scalar> for Vec3 {
    type Output = Vec3;

    fn div(self, scalar: Scalar) -> (out: Vec3) {
        Vec3 { x: self.x / scalar, y: self.y / scalar, z: self.z / scalar }
    }
}

impl vstd::std_specs::ops::DivSpecImpl<Scalar> for Vec3 {
    open spec fn obeys_div_spec() -> bool {
        true
    }

    open spec fn div_req(self, scalar: Scalar) -> bool {
        true
    }

    open spec fn div_spec(self, scalar: Scalar) -> Vec3 {
        self.over(scalar)
    }
}

impl core::ops::AddAssign for Vec3 {
    fn add_assign(&mut self, other: Vec3)
        ensures
            *final(self) == old(self).plus(other),
    {
        *self = *self + other;
    }
}

impl core::ops::SubAssign for Vec3 {
    fn sub_assign(&mut self, other: Vec3)
        ensures
            *final(self) == old(self).minus(other),
    {
        *self = *self - other;
    }
}

impl core::ops::MulAssign<Scalar> for Vec3 {
    fn mul_assign(&mut self, scalar: Scalar)
        ensures
            *final(self) == old(self).scaled(scalar),
    {
        *self = *self * scalar;
    }
}

impl core::ops::DivAssign<Scalar> for Vec3 {
    fn div_assign(&mut self, scalar: Scalar)
        ensures
            *final(self) == old(self).over(scalar),
    {
        *self = *self / scalar;
    }
}

} // verus!
