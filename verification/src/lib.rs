//! Styling data for a GPU-rendered UI: text styles, highlight layering,
//! element styles, and the segmentation of overlapping highlight ranges.
//!
//! Floating-point quantities (colors, lengths, weights) are carried as the
//! IEEE-754 bit patterns of their `f32` values, so that the library can move,
//! compare and choose between them without doing float arithmetic. Where a
//! style blends or scales such values, the arithmetic is handed in by the
//! caller as a closure and the contracts state what it was applied to.

pub mod color;
pub mod geometry;
pub mod text;
pub mod highlights;
pub mod layout;
pub mod style;
