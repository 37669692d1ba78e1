//! A path-tracing ray tracer over fixed-point scalars.
//!
//! Every scalar is an `i64` that holds its value times [`fixed::ONE`]
//! (16 fractional bits). Arithmetic saturates at the ends of the `i64`
//! range, which play the role of the infinities.

pub mod fixed;
pub mod random;
pub mod vec3;
pub mod vec3_bounds;
pub mod interval;
pub mod ray;
pub mod hittable;
pub mod material;
pub mod sphere;
pub mod hittable_list;
pub mod ppm;
pub mod camera;
