//! Three-component vectors of binary64 values.

use crate::product::product;
use crate::quotient::quotient;
use crate::root::square_root;
use crate::scalar::Scalar;
use crate::sum::{difference, sum};
use vstd::prelude::*;

verus! {

/// A point or a direction in space. A pure value: it has no identity.
#[derive(Clone, Copy, Debug, PartialEq, Eq, Structural)]
pub struct Vec3 {
    pub x: Scalar,
    pub y: Scalar,
    pub z: Scalar,
}

/// Componentwise sum.
pub open spec fn vec_sum(a: Vec3, b: Vec3) -> Vec3 {
    Vec3 { x: sum(a.x, b.x), y: sum(a.y, b.y), z: sum(a.z, b.z) }
}

/// Componentwise difference.
pub open spec fn vec_difference(a: Vec3, b: Vec3) -> Vec3 {
    Vec3 { x: difference(a.x, b.x), y: difference(a.y, b.y), z: difference(a.z, b.z) }
}

/// Every component times `k`.
pub open spec fn vec_scaled(a: Vec3, k: Scalar) -> Vec3 {
    Vec3 { x: product(a.x, k), y: product(a.y, k), z: product(a.z, k) }
}

/// Every component divided by `k`.
pub open spec fn vec_divided(a: Vec3, k: Scalar) -> Vec3 {
    Vec3 { x: quotient(a.x, k), y: quotient(a.y, k), z: quotient(a.z, k) }
}

/// Every component with the opposite sign.
pub open spec fn vec_negation(a: Vec3) -> Vec3 {
    Vec3 { x: a.x.negation(), y: a.y.negation(), z: a.z.negation() }
}

/// The Euclidean length: the root of the squares summed from `x` to `z`.
pub open spec fn norm(a: Vec3) -> Scalar {
    square_root(sum(sum(product(a.x, a.x), product(a.y, a.y)), product(a.z, a.z)))
}

/// The vector of three positive zeros.
pub open spec fn zero_vector() -> Vec3 {
    Vec3 {
        x: Scalar::signed_zero(false),
        y: Scalar::signed_zero(false),
        z: Scalar::signed_zero(false),
    }
}

impl Vec3 {
    pub fn new(x: Scalar, y: Scalar, z: Scalar) -> (v: Vec3)
        ensures
            v == (Vec3 { x, y, z }),
    {
        Vec3 { x, y, z }
    }

    /// The origin.
    pub fn zero() -> (v: Vec3)
        ensures
            v == zero_vector(),
    {
        Vec3 { x: Scalar::zero(), y: Scalar::zero(), z: Scalar::zero() }
    }

    pub fn add(&self, rhs: &Vec3) -> (v: Vec3)
        ensures
            v == vec_sum(*self, *rhs),
    {
        Vec3 { x: self.x.add(rhs.x), y: self.y.add(rhs.y), z: self.z.add(rhs.z) }
    }

    pub fn sub(&self, rhs: &Vec3) -> (v: Vec3)
        ensures
            v == vec_difference(*self, *rhs),
    {
        Vec3 { x: self.x.sub(rhs.x), y: self.y.sub(rhs.y), z: self.z.sub(rhs.z) }
    }

    /// Scales by `rhs`.
    pub fn mul(&self, rhs: Scalar) -> (v: Vec3)
        ensures
            v == vec_scaled(*self, rhs),
    {
        Vec3 { x: self.x.mul(rhs), y: self.y.mul(rhs), z: self.z.mul(rhs) }
    }

    pub fn div(&self, rhs: Scalar) -> (v: Vec3)
        ensures
            v == vec_divided(*self, rhs),
    {
        Vec3 { x: self.x.div(rhs), y: self.y.div(rhs), z: self.z.div(rhs) }
    }

    pub fn neg(&self) -> (v: Vec3)
        ensures
            v == vec_negation(*self),
    {
        Vec3 { x: self.x.neg(), y: self.y.neg(), z: self.z.neg() }
    }

    /// Adds `rhs` in place.
    pub fn add_assign(&mut self, rhs: &Vec3)
        ensures
            *final(self) == vec_sum(*old(self), *rhs),
    {
        self.x = self.x.add(rhs.x);
        self.y = self.y.add(rhs.y);
        self.z = self.z.add(rhs.z);
    }

    /// Scales in place.
    pub fn mul_assign(&mut self, rhs: Scalar)
        ensures
            *final(self) == vec_scaled(*old(self), rhs),
    {
        self.x = self.x.mul(rhs);
        self.y = self.y.mul(rhs);
        self.z = self.z.mul(rhs);
    }

    /// The Euclidean length.
    pub fn l2_norm(&self) -> (r: Scalar)
        ensures
            r == norm(*self),
    {
        let xx: Scalar = self.x.mul(self.x);
        let yy: Scalar = self.y.mul(self.y);
        let zz: Scalar = self.z.mul(self.z);
        xx.add(yy).add(zz).sqrt()
    }
}

} // verus!
