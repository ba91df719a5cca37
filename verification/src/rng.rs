//! Random-number generation.
pub mod isaac64;
