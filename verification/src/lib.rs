//! A verified stereo echo/delay engine in fixed-point arithmetic: a
//! fractional delay line driven by per-frame smoothed control values, a
//! feedback path with volume compensation and a saturation latch, and an
//! optional one-pole high-pass post-filter.

pub mod delay_line;
pub mod engine;
pub mod filter;
pub mod fixed;
pub mod laws;
pub mod smoother;
