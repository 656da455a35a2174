//! A small software ray caster.
//!
//! Every pixel of a fixed-resolution image casts a parallel ray into a scene
//! of spheres; the nearest surface is found, shaded by how directly it faces
//! the ray, and written as one byte per color channel into a flat buffer.
//!
//! All geometry is carried in fixed-point arithmetic: a coordinate, radius,
//! color channel or shade is an `i64` holding the real value times
//! [`math::SCALE`], so every step of the pipeline is exact integer
//! computation with a contract.

pub mod intersect;
pub mod laws;
pub mod math;
pub mod render;
pub mod scene;
pub mod shade;
pub mod sphere;
pub mod vec3;
