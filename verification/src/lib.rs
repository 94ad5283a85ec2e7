//! Point masses under mutual Newtonian gravity, advanced in time by the classical
//! fourth-order Runge-Kutta method.
//!
//! Every number is an IEEE 754 binary64 value, handled as its bit pattern: the
//! arithmetic in [`sum`], [`product`], [`quotient`] and [`root`] is integer
//! arithmetic with one correct rounding for each operation, so a whole step of the
//! integrator is an exact function of the state before it. [`system`] holds the
//! force accumulator and the integrator, [`pairs`] the order in which the pairs of
//! bodies act, [`laws`] what is proved of a step and of a run.
//!
//! [`spf`] and [`machine`] describe the small emulated machine on which guest
//! programs run: its memory map and the math functions that the host serves.

pub mod body;
pub mod laws;
pub mod machine;
pub mod pairs;
pub mod product;
pub mod quotient;
pub mod root;
pub mod rounding;
pub mod scalar;
pub mod spf;
pub mod sum;
pub mod system;
pub mod vec3;
