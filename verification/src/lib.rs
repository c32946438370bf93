//! Watermarking and re-encoding of raster images.
//!
//! The crate lays watermark text out over a chain of fallback fonts, shrinks
//! it to the canvas, places it at one of nine anchors, blends every covered
//! pixel onto the destination, and picks the codec parameters for the output
//! from a single quality setting.
pub mod canvas;
pub mod color;
pub mod compose;
pub mod coverage;
pub mod errors;
pub mod fit;
pub mod fonts;
pub mod format;
pub mod metrics;
pub mod position;
pub mod resize;
pub mod text;
