//! Assemble a set of decoded raster images into a single sprite sheet:
//! a grid of fixed-size tiles, one input image per cell in row-major order.
//!
//! The crate owns the layout and compositing logic. Decoding input files,
//! encoding the finished sheet and reporting progress are left to callers.

pub mod grid;
pub mod raster;
pub mod compose;
