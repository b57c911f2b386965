//! Numeric utilities for benchmark drivers: a dense two-dimensional matrix
//! with a transposed adapter, and a deterministic linear-congruential
//! pseudo-random number generator.

pub mod error;
pub mod grid;
pub mod matrix;
pub mod pseudo_random;
