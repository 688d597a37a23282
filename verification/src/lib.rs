//! In-memory raster edge detection on RGBA8 pixel buffers.
//!
//! The core is a Canny-style pipeline: integer luma projection, separable
//! smoothing with a preset kernel, Sobel gradients with a four-way quantized
//! orientation, non-maximum suppression, dual-threshold hysteresis linking,
//! and an optional morphological thickening pass.  A simpler single-pass
//! detector thresholds squared gradient magnitudes at an adaptive percentile.
//!
//! All arithmetic is exact integer arithmetic.  Gradient magnitudes are kept
//! squared (comparisons between non-negative magnitudes and their squares
//! agree), and the orientation bins at 22.5, 67.5, 112.5 and 157.5 degrees
//! are decided by exact integer inequalities equivalent to the irrational
//! tangent comparisons, so no floating point is needed anywhere.

pub mod grid;
pub mod preset;
pub mod luma;
pub mod convolve;
pub mod gradient;
pub mod suppress;
pub mod hysteresis;
pub mod morphology;
pub mod percentile;
pub mod canny;
pub mod sobel;
