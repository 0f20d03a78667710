//! In-place partitioning of a mutable slice by a predicate: every element for
//! which the predicate holds is moved before every element for which it does
//! not, with O(1) extra memory and a single pass of two converging cursors.

pub mod laws;
pub mod model;
mod inplace;

pub use inplace::{partition, partition_index};
