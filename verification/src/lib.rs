//! A CPU-only software rasterizer: a generic pixel buffer, Bresenham line
//! drawing and scanline triangle fill, and a binary TGA image codec with
//! optional run-length encoding.

pub mod codec;
pub mod math;
pub mod rasterizer;
pub mod tga;
