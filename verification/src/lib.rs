//! A CPU-only software rasterizer: triangle meshes are scan-converted into a
//! depth-buffered RGB framebuffer using exact fixed-point arithmetic.
//!
//! Geometry is carried in integer units of 1/256 of a pixel; depth values are
//! exact rationals, so the depth test, barycentric coverage and shading are
//! all verified without any floating point.

pub mod geometry;
pub mod line;
pub mod num;
pub mod obj;
pub mod render;
pub mod triangle;
