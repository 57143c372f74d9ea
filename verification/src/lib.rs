//! A compact container for a sequence of variable-length rows of a uniform
//! element type, stored in one contiguous backing buffer.
//!
//! Every row's elements are concatenated in row order into a single `Vec`,
//! and a side array of offsets records where each row starts.  This gives
//! O(1) random access to any row without per-row heap allocation.

pub mod model;
pub mod offsets;
pub mod jagged;
pub mod iter;
pub mod laws;

pub use jagged::JaggedArray;
pub use iter::{Iter, IterMut};
