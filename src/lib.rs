//! A stochastic recursive ray tracer over fixed-point arithmetic.
//!
//! Scalars are `i64` values scaled by [`fixed::FX`] that saturate at
//! [`fixed::LIM`], so every geometric and shading step has an exact statement
//! that the verifier checks. The pipeline runs camera ray generation
//! ([`camera`]), nearest-hit and shadow queries over spheres ([`sphere`],
//! [`hit`]), material scattering ([`material`]) and the depth-limited color
//! integrator with its per-pixel sampler ([`render`]).
//!
//! Randomness comes from a generator that the caller owns and passes in
//! ([`random`]); each stochastic function also has a form that takes its draws
//! as arguments and is specified exactly.
//!
//! Two first-match rules are kept on purpose: the shadow query trusts the first
//! surface in scene order that a ray meets, not the nearest one, and the plain
//! light test returns the first visible light rather than a sum.
use vstd::prelude::*;

pub mod fixed;
pub mod vec3;
pub mod ray;
pub mod random;
pub mod material;
pub mod hit;
pub mod sphere;
pub mod light;
pub mod camera;
pub mod render;
pub mod scene;
