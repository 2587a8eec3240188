//! Exact intercept geometry for a pursuer chasing a moving target.
//!
//! A [`Target`] holds where the target is and how it moves, relative to the
//! pursuer. From it the library decides whether the target is closing
//! ([`Target::is_closing`]), and computes the acceleration that proportional
//! navigation commands ([`ipn`]), the direction in which to launch a
//! projectile of constant speed and the time at which it hits
//! ([`linear_aim`]), and the change of velocity that steers a projectile in
//! flight ([`linear_steer`]).
//!
//! Coordinates are fixed-point numbers counted in thousandths, so every
//! decision the guidance laws make (is the target closing, can it be reached,
//! which root comes first) is made exactly. Every answer is an exact number
//! too: a ratio of integers, or a ratio that holds one square root, which is
//! left for the caller to draw. What such a number means is stated over the
//! reals, for the square root of its radicand.

pub mod intercept;
pub mod laws;
pub mod navigation;
pub mod quadratic;
pub mod scalar;
pub mod surd;
pub mod target;
pub mod vector;

pub use intercept::{linear_aim, linear_steer, VelocityChange};
pub use navigation::{ipn, RationalVector3};
pub use scalar::Scalar;
pub use surd::{Surd, SurdVector3};
pub use target::Target;
pub use vector::{Vector3, WideVector3};
