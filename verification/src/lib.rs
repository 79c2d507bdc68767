//! The verified core of a small ray tracer.
//!
//! The library holds what the renderer does with whole numbers and bytes: the
//! frame buffer and its colours, the texts of images and of meshes, the sum of
//! the light that falls on a pixel, and the choice of the hit that a ray sees.
//! The geometry itself is floating-point arithmetic and lives with the
//! program that uses this library.

pub mod color;
pub mod coordinate;
pub mod lighting;
pub mod mesh;
pub mod pixmap;
pub mod ppm;
pub mod ppm_laws;
pub mod raytrace;
pub mod text;
