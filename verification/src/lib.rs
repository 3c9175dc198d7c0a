//! A path tracer over saturating fixed-point numbers, with every routine
//! specified and proved.
//!
//! The scene is a list of spheres with diffuse, metallic or glassy surfaces.
//! The camera turns a position on the image into a ray, and the integrator
//! follows the ray from bounce to bounce until it escapes into the sky, is
//! absorbed, or has used up its depth.
//!
//! All numbers are [`scalar::Fixed`]: 32 fractional bits, rounding toward
//! zero, saturation at the ends of the range. Randomness comes from a
//! [`sampler::Sampler`], and every routine that draws from it is specified as
//! a function of the words it drew.

pub mod scalar;
pub mod trig;
pub mod vec3;
pub mod ray;
pub mod sampler;
pub mod sampling;
pub mod material;
pub mod hittable;
pub mod sphere;
pub mod hittable_list;
pub mod accuracy;
pub mod camera;
pub mod integrator;
pub mod render;
pub mod color;
pub mod scene;
