//! A Monte Carlo path tracer over fixed-point arithmetic.
//!
//! Every quantity the renderer works with -- coordinates, directions,
//! colors, ray parameters -- is a signed 64-bit integer holding a
//! multiple of `1/65536`.  All arithmetic is therefore exact integer
//! arithmetic with a single, fully specified rounding (toward zero),
//! which lets every stage of the renderer carry a precise contract:
//! vector algebra, sphere intersection, nearest-hit selection over a
//! scene, material scattering, the camera model and the integrator.

pub mod camera;
pub mod fx;
pub mod hittable;
pub mod material;
pub mod ray;
pub mod render;
pub mod sample;
pub mod sphere;
pub mod vec3;

pub use fx::FX_ONE;
