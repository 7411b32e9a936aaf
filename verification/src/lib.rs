//! Pattern engine for an aurora-style animation on a serpentine-wired LED
//! matrix: transient noise-shaped light blobs with triangular fade envelopes,
//! blended into a per-cell brightness field, mapped through a color gradient,
//! under a rate-limited density controller.
//!
//! All scalar quantities (intensities, envelope weights, gradient positions)
//! are fixed-point milli-units: 1000 stands for 1.0.

pub mod color;
pub mod cooldown;
pub mod northen_light;
pub mod pattern;
