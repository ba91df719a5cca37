//! Ordered containers.
pub mod tree;
