//! One point mass and its rate of change.

use crate::product::product;
use crate::quotient::quotient;
use crate::root::square_root;
use crate::scalar::Scalar;
use crate::vec3::{vec_scaled, vec_sum, zero_vector, Vec3};
use vstd::prelude::*;

verus! {

/// The rate of change of one body: how fast its position changes (its velocity)
/// and how fast its velocity changes (its acceleration). It carries no mass and
/// lives only within one integration stage.
#[derive(Clone, Copy, Debug, PartialEq, Eq, Structural)]
pub struct SimObjDerivative {
    pub velocity: Vec3,
    pub acceleration: Vec3,
}

/// The physical state of one body: position in metres, velocity in metres per
/// second, mass in kilograms.
///
/// The same shape also holds the change of a body over an interval (see
/// [`SimObjDerivative::step`]); the mass of such a change is a placeholder.
#[derive(Clone, Copy, Debug, PartialEq, Eq, Structural)]
pub struct SimObj {
    pub position: Vec3,
    pub velocity: Vec3,
    pub mass: Scalar,
}

/// The change of a body that moves at the rates `d` for the time `dt`.
pub open spec fn stepped(d: SimObjDerivative, dt: Scalar) -> SimObj {
    SimObj {
        position: vec_scaled(d.velocity, dt),
        velocity: vec_scaled(d.acceleration, dt),
        mass: Scalar::signed_zero(false),
    }
}

/// Both rates of `a` plus those of `b`.
pub open spec fn derivative_sum(a: SimObjDerivative, b: SimObjDerivative) -> SimObjDerivative {
    SimObjDerivative {
        velocity: vec_sum(a.velocity, b.velocity),
        acceleration: vec_sum(a.acceleration, b.acceleration),
    }
}

/// Both rates of `d` times `k`.
pub open spec fn derivative_scaled(d: SimObjDerivative, k: Scalar) -> SimObjDerivative {
    SimObjDerivative {
        velocity: vec_scaled(d.velocity, k),
        acceleration: vec_scaled(d.acceleration, k),
    }
}

/// The rates `d` with `a` added to the acceleration.
pub open spec fn accelerated(d: SimObjDerivative, a: Vec3) -> SimObjDerivative {
    SimObjDerivative { velocity: d.velocity, acceleration: vec_sum(d.acceleration, a) }
}

/// The body `b` displaced by `delta`: position and velocity are added, the mass
/// stays that of `b`.
pub open spec fn moved(b: SimObj, delta: SimObj) -> SimObj {
    SimObj {
        position: vec_sum(b.position, delta.position),
        velocity: vec_sum(b.velocity, delta.velocity),
        mass: b.mass,
    }
}

/// The rates of a body on which no force acts yet: its own velocity, and no
/// acceleration.
pub open spec fn coasting(b: SimObj) -> SimObjDerivative {
    SimObjDerivative { velocity: b.velocity, acceleration: zero_vector() }
}

/// The speed of a circular orbit of radius `r` around the mass `mass`:
/// `sqrt(g * mass / r)`.
pub open spec fn orbit_speed(g: Scalar, mass: Scalar, r: Scalar) -> Scalar {
    square_root(quotient(product(g, mass), r))
}

impl SimObjDerivative {
    /// The change over the time `dt`: the velocity gives the change of position,
    /// the acceleration the change of velocity. The mass of the result means
    /// nothing.
    pub fn step(&self, dt: Scalar) -> (delta: SimObj)
        ensures
            delta == stepped(*self, dt),
    {
        SimObj {
            position: self.velocity.mul(dt),
            velocity: self.acceleration.mul(dt),
            mass: Scalar::zero(),
        }
    }

    /// Adds `a` to the acceleration.
    pub fn apply_acceleration(&mut self, a: &Vec3)
        ensures
            *final(self) == accelerated(*old(self), *a),
    {
        self.acceleration.add_assign(a);
    }

    /// Scales both rates in place.
    pub fn mul_assign(&mut self, rhs: Scalar)
        ensures
            *final(self) == derivative_scaled(*old(self), rhs),
    {
        self.velocity.mul_assign(rhs);
        self.acceleration.mul_assign(rhs);
    }

    pub fn add(&self, rhs: &SimObjDerivative) -> (d: SimObjDerivative)
        ensures
            d == derivative_sum(*self, *rhs),
    {
        SimObjDerivative {
            velocity: self.velocity.add(&rhs.velocity),
            acceleration: self.acceleration.add(&rhs.acceleration),
        }
    }
}

impl SimObj {
    /// The speed at which a light body circles this one at the distance `r`,
    /// under the gravitational constant `g`.
    pub fn stable_orbit(&self, g: Scalar, r: Scalar) -> (v: Scalar)
        ensures
            v == orbit_speed(g, self.mass, r),
    {
        g.mul(self.mass).div(r).sqrt()
    }

    /// The rates of this body before any force is applied.
    pub fn derivative(&self) -> (d: SimObjDerivative)
        ensures
            d == coasting(*self),
    {
        SimObjDerivative { velocity: self.velocity, acceleration: Vec3::zero() }
    }

    /// Displaces the body by `rhs` in place.
    pub fn add_assign(&mut self, rhs: &SimObj)
        ensures
            *final(self) == moved(*old(self), *rhs),
    {
        self.position.add_assign(&rhs.position);
        self.velocity.add_assign(&rhs.velocity);
    }

    /// The body displaced by `rhs`.
    pub fn add(&self, rhs: &SimObj) -> (b: SimObj)
        ensures
            b == moved(*self, *rhs),
    {
        SimObj {
            position: self.position.add(&rhs.position),
            velocity: self.velocity.add(&rhs.velocity),
            mass: self.mass,
        }
    }
}

} // verus!
