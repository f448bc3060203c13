//! A small path tracer for scenes of spheres, computed in fixed-point
//! arithmetic so that every step has an exact integer meaning.
pub mod fixed;
pub mod vec3;
pub mod color;
pub mod ray;
pub mod hittable;
pub mod material;
pub mod random;
pub mod render;
pub mod pixel;
