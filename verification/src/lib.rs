//! Animated images from a Hilbert-curve traversal of a square pixel grid.
//!
//! A grid of side `2^order` is traversed by the Hilbert space-filling curve;
//! every pixel gets a rank along the curve, each animation frame rotates the
//! ranks by a frame-dependent offset, and a colorizing function turns the
//! rotated rank into a color. This crate holds the verified core: the
//! curve mapping and its bijection proofs, the validated configuration,
//! the per-frame rank grids, and the exact strings and numbers that the
//! output sinks are driven by.

pub mod color;
pub mod gif;
pub mod hilbert;
pub mod output;
pub mod params;
pub mod text;
pub mod webp;
