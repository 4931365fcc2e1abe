//! A small ray tracer verified over fixed-point arithmetic.
//!
//! Geometry (vectors, rays, spheres), scene aggregation, material
//! scattering and recursive color resolution are all written over a
//! scaled-integer scalar type, so every step of the rendering core
//! carries an exact arithmetic contract.

pub mod fixed;
pub mod vec;
pub mod ray;
pub mod hit;
pub mod sphere;
pub mod scatter;
pub mod world;
pub mod color;
pub mod camera;
