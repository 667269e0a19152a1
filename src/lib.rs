//! Freehand ink strokes: pointer samples are decimated into a stroke, and each
//! stroke is turned into a variable-width ribbon of triangles.
//!
//! All quantities are fixed-point integers: positions are in 1/256 of a pixel,
//! pressure in thousandths, and the brush scale in tenths.
pub mod point;
pub mod sqrt;
pub mod ribbon;
pub mod stroke;
pub mod sampler;
pub mod document;
