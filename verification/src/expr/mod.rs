//! Expression trees.
pub mod tree;
