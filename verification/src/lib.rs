//! A small Monte Carlo ray tracer over spheres with diffuse, reflective and
//! refractive materials.
//!
//! Scalars are carried in a fixed-point representation (see [`fixed`]), so the
//! whole light-transport engine — sphere intersection, material scattering,
//! camera ray generation and the recursive integrator — is stated and proved
//! over exact integer arithmetic.

pub mod fixed;
pub mod vec3;
pub mod ray;
pub mod sampler;
pub mod hit_record;
pub mod sphere;
pub mod camera;
pub mod render;
