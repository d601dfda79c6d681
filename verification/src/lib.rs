//! A recursive path tracer over saturating fixed-point arithmetic.

pub mod aimed;
pub mod camera;
pub mod grey_sphere;
pub mod hitable;
pub mod hitable_list;
pub mod material;
pub mod quadratic;
pub mod ray;
pub mod render;
pub mod sampler;
pub mod scalar;
pub mod scene;
pub mod sphere;
pub mod vec3;
