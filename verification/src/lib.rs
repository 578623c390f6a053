//! A recursive Monte Carlo path tracer over fixed-point arithmetic.
//!
//! Real quantities (coordinates, colors, ray parameters) are stored as
//! 64-bit integers scaled by `math::SCALE`, so that every arithmetic step
//! has an exact, machine-checkable meaning. The modules mirror the parts
//! of the renderer: vector algebra, rays, spheres and their intersection,
//! materials and scattering, the scene aggregate, the camera model, and
//! the recursive integrator.

pub mod camera;
pub mod file_format;
pub mod hittable;
pub mod material;
pub mod math;
pub mod ray;
pub mod render;
pub mod sphere;
pub mod vec;
