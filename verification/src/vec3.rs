//! Three-component vectors, used alike for points, directions and colours.

use core::ops::Neg;
use vstd::prelude::*;
use crate::scalar::{Fixed, SCALE};

verus! {

/// A vector of three fixed-point components.
#[derive(Clone, Copy, Debug, PartialEq, Eq, Structural)]
pub struct Vec3(pub Fixed, pub Fixed, pub Fixed);

pub type Point3 = Vec3;

pub type Color = Vec3;

impl Vec3 {
    /// Every component is a valid number.
    pub open spec fn wf(self) -> bool {
        self.0.wf() && self.1.wf() && self.2.wf()
    }

    /// The dot product does not depend on the order of its arguments.
    pub proof fn lemma_dot_commutes(self, o: Vec3)
        requires
            self.wf(),
            o.wf(),
        ensures
            self.spec_dot(o) == o.spec_dot(self),
    {
        self.0.lemma_mul_neg(o.0);
        self.1.lemma_mul_neg(o.1);
        self.2.lemma_mul_neg(o.2);
    }

    /// The dot product changes sign with either argument.
    pub proof fn lemma_dot_neg(self, o: Vec3)
        requires
            self.wf(),
            o.wf(),
        ensures
            self.spec_dot(o.spec_neg()) == self.spec_dot(o).spec_neg(),
            self.spec_neg().spec_dot(o) == self.spec_dot(o).spec_neg(),
            self.spec_dot(o).spec_neg()@ == -self.spec_dot(o)@,
    {
        broadcast use Fixed::lemma_of;

        self.0.lemma_mul_neg(o.0);
        self.1.lemma_mul_neg(o.1);
        self.2.lemma_mul_neg(o.2);
        let a = self.0.spec_mul(o.0);
        let b = self.1.spec_mul(o.1);
        let c = self.2.spec_mul(o.2);
        a.lemma_add_neg(b);
        a.spec_add(b).lemma_add_neg(c);
        a.spec_add(b).spec_add(c).lemma_neg_neg();
    }

    /// A vector and its negation have the same length.
    pub proof fn lemma_length_squared_of_negation(self)
        requires
            self.wf(),
        ensures
            self.spec_neg().spec_length_squared() == self.spec_length_squared(),
    {
        self.0.spec_mul(self.0).lemma_neg_neg_of_product(self.0, self.0);
        self.1.spec_mul(self.1).lemma_neg_neg_of_product(self.1, self.1);
        self.2.spec_mul(self.2).lemma_neg_neg_of_product(self.2, self.2);
    }

    /// A squared length is never negative.
    pub proof fn lemma_length_squared_nonnegative(self)
        ensures
            self.spec_length_squared()@ >= 0,
    {
        broadcast use Fixed::lemma_of;

        self.0.lemma_square_nonnegative();
        self.1.lemma_square_nonnegative();
        self.2.lemma_square_nonnegative();
    }

    /// The vector with all components zero.
    pub open spec fn spec_zero() -> Vec3 {
        Vec3(Fixed::of(0), Fixed::of(0), Fixed::of(0))
    }

    /// The vector with all components one: pure white as a colour.
    pub open spec fn spec_ones() -> Vec3 {
        Vec3(Fixed::of(SCALE as int), Fixed::of(SCALE as int), Fixed::of(SCALE as int))
    }

    pub open spec fn spec_add(self, o: Vec3) -> Vec3 {
        Vec3(self.0.spec_add(o.0), self.1.spec_add(o.1), self.2.spec_add(o.2))
    }

    pub open spec fn spec_neg(self) -> Vec3 {
        Vec3(self.0.spec_neg(), self.1.spec_neg(), self.2.spec_neg())
    }

    pub open spec fn spec_sub(self, o: Vec3) -> Vec3 {
        Vec3(self.0.spec_sub(o.0), self.1.spec_sub(o.1), self.2.spec_sub(o.2))
    }

    /// The component-wise product, as used to attenuate a colour.
    pub open spec fn spec_mul(self, o: Vec3) -> Vec3 {
        Vec3(self.0.spec_mul(o.0), self.1.spec_mul(o.1), self.2.spec_mul(o.2))
    }

    /// Every component multiplied by `k`.
    pub open spec fn spec_scale(self, k: Fixed) -> Vec3 {
        Vec3(self.0.spec_mul(k), self.1.spec_mul(k), self.2.spec_mul(k))
    }

    /// Every component divided by `k`.
    pub open spec fn spec_div(self, k: Fixed) -> Vec3 {
        Vec3(self.0.spec_div(k), self.1.spec_div(k), self.2.spec_div(k))
    }

    pub open spec fn spec_dot(self, o: Vec3) -> Fixed {
        self.0.spec_mul(o.0).spec_add(self.1.spec_mul(o.1)).spec_add(self.2.spec_mul(o.2))
    }

    pub open spec fn spec_cross(self, o: Vec3) -> Vec3 {
        Vec3(
            self.1.spec_mul(o.2).spec_sub(self.2.spec_mul(o.1)),
            self.2.spec_mul(o.0).spec_sub(self.0.spec_mul(o.2)),
            self.0.spec_mul(o.1).spec_sub(self.1.spec_mul(o.0)),
        )
    }

    pub open spec fn spec_length_squared(self) -> Fixed {
        self.spec_dot(self)
    }

    pub open spec fn spec_length(self) -> Fixed {
        self.spec_length_squared().spec_sqrt()
    }

    /// The vector divided by its own length.
    pub open spec fn spec_unit(self) -> Vec3 {
        self.spec_div(self.spec_length())
    }

    /// Every component is smaller than `10^-8` in magnitude.
    pub open spec fn spec_near_zero(self) -> bool {
        &&& self.0.spec_abs()@ * 100000000 < SCALE
        &&& self.1.spec_abs()@ * 100000000 < SCALE
        &&& self.2.spec_abs()@ * 100000000 < SCALE
    }

    pub fn zero() -> (r: Vec3)
        ensures
            r == Vec3::spec_zero(),
    {
        Vec3(Fixed::zero(), Fixed::zero(), Fixed::zero())
    }

    pub fn ones() -> (r: Vec3)
        ensures
            r == Vec3::spec_ones(),
    {
        Vec3(Fixed::one(), Fixed::one(), Fixed::one())
    }

    pub fn length_squared(&self) -> (r: Fixed)
        ensures
            r == self.spec_length_squared(),
            r@ >= 0,
    {
        proof {
            self.lemma_length_squared_nonnegative();
        }
        self.0 * self.0 + self.1 * self.1 + self.2 * self.2
    }

    pub fn length(&self) -> (r: Fixed)
        ensures
            r == self.spec_length(),
            r@ >= 0,
    {
        proof {
            self.spec_length_squared().lemma_sqrt_nonnegative();
        }
        self.length_squared().sqrt()
    }

    pub fn unit_vec3(self) -> (r: Vec3)
        ensures
            r == self.spec_unit(),
    {
        self / self.length()
    }

    pub fn dot(&self, other: &Vec3) -> (r: Fixed)
        ensures
            r == self.spec_dot(*other),
    {
        self.0 * other.0 + self.1 * other.1 + self.2 * other.2
    }

    pub fn cross(&self, other: &Vec3) -> (r: Vec3)
        ensures
            r == self.spec_cross(*other),
    {
        Vec3(
            self.1 * other.2 - self.2 * other.1,
            self.2 * other.0 - self.0 * other.2,
            self.0 * other.1 - self.1 * other.0,
        )
    }

    pub fn near_zero(&self) -> (r: bool)
        ensures
            r == self.spec_near_zero(),
    {
        self.0.below_threshold() && self.1.below_threshold() && self.2.below_threshold()
    }

    pub fn add_assign(&mut self, other: Vec3)
        ensures
            *final(self) == old(self).spec_add(other),
    {
        *self = Vec3(self.0 + other.0, self.1 + other.1, self.2 + other.2);
    }

    pub fn mul_assign(&mut self, other: Fixed)
        ensures
            *final(self) == old(self).spec_scale(other),
    {
        *self = Vec3(self.0 * other, self.1 * other, self.2 * other);
    }

    pub fn div_assign(&mut self, other: Fixed)
        ensures
            *final(self) == old(self).spec_div(other),
    {
        *self = Vec3(self.0 / other, self.1 / other, self.2 / other);
    }
}

impl Default for Vec3 {
    fn default() -> (r: Vec3)
        ensures
            r == Vec3::spec_zero(),
    {
        Vec3::zero()
    }
}

impl core::ops::Neg for Vec3 {
    type Output = Vec3;

    fn neg(self) -> (r: Vec3) {
        Vec3(self.0.neg(), self.1.neg(), self.2.neg())
    }
}

impl vstd::std_specs::ops::NegSpecImpl for Vec3 {
    open spec fn obeys_neg_spec() -> bool {
        true
    }

    open spec fn neg_req(self) -> bool {
        true
    }

    open spec fn neg_spec(self) -> Vec3 {
        self.spec_neg()
    }
}

impl core::ops::Add for Vec3 {
    type Output = Vec3;

    fn add(self, other: Vec3) -> (r: Vec3) {
        Vec3(self.0 + other.0, self.1 + other.1, self.2 + other.2)
    }
}

impl vstd::std_specs::ops::AddSpecImpl for Vec3 {
    open spec fn obeys_add_spec() -> bool {
        true
    }

    open spec fn add_req(self, other: Vec3) -> bool {
        true
    }

    open spec fn add_spec(self, other: Vec3) -> Vec3 {
        self.spec_add(other)
    }
}

impl core::ops::Sub for Vec3 {
    type Output = Vec3;

    fn sub(self, other: Vec3) -> (r: Vec3) {
        Vec3(self.0 - other.0, self.1 - other.1, self.2 - other.2)
    }
}

impl vstd::std_specs::ops::SubSpecImpl for Vec3 {
    open spec fn obeys_sub_spec() -> bool {
        true
    }

    open spec fn sub_req(self, other: Vec3) -> bool {
        true
    }

    open spec fn sub_spec(self, other: Vec3) -> Vec3 {
        self.spec_sub(other)
    }
}

impl core::ops::Mul for Vec3 {
    type Output = Vec3;

    fn mul(self, other: Vec3) -> (r: Vec3) {
        Vec3(self.0 * other.0, self.1 * other.1, self.2 * other.2)
    }
}

impl vstd::std_specs::ops::MulSpecImpl for Vec3 {
    open spec fn obeys_mul_spec() -> bool {
        true
    }

    open spec fn mul_req(self, other: Vec3) -> bool {
        true
    }

    open spec fn mul_spec(self, other: Vec3) -> Vec3 {
        self.spec_mul(other)
    }
}

impl core::ops::Mul<Fixed> for Vec3 {
    type Output = Vec3;

    fn mul(self, other: Fixed) -> (r: Vec3) {
        Vec3(self.0 * other, self.1 * other, self.2 * other)
    }
}

impl vstd::std_specs::ops::MulSpecImpl<Fixed> for Vec3 {
    open spec fn obeys_mul_spec() -> bool {
        true
    }

    open spec fn mul_req(self, other: Fixed) -> bool {
        true
    }

    open spec fn mul_spec(self, other: Fixed) -> Vec3 {
        self.spec_scale(other)
    }
}

impl core::ops::Mul<Vec3> for Fixed {
    type Output = Vec3;

    fn mul(self, other: Vec3) -> (r: Vec3) {
        Vec3(other.0 * self, other.1 * self, other.2 * self)
    }
}

impl vstd::std_specs::ops::MulSpecImpl<Vec3> for Fixed {
    open spec fn obeys_mul_spec() -> bool {
        true
    }

    open spec fn mul_req(self, other: Vec3) -> bool {
        true
    }

    open spec fn mul_spec(self, other: Vec3) -> Vec3 {
        other.spec_scale(self)
    }
}

impl core::ops::Div<Fixed> for Vec3 {
    type Output = Vec3;

    fn div(self, other: Fixed) -> (r: Vec3) {
        Vec3(self.0 / other, self.1 / other, self.2 / other)
    }
}

impl vstd::std_specs::ops::DivSpecImpl<Fixed> for Vec3 {
    open spec fn obeys_div_spec() -> bool {
        true
    }

    open spec fn div_req(self, other: Fixed) -> bool {
        true
    }

    open spec fn div_spec(self, other: Fixed) -> Vec3 {
        self.spec_div(other)
    }
}

} // verus!
