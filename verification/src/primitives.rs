//! Pixel-space rasterization primitives shared by the shape entry points.

pub mod line;
pub mod triangle;
