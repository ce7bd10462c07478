//! A binary indexed tree (Fenwick tree): prefix sums and point updates over
//! a sequence of numbers in *O*(log *n*), with every operation's contract
//! proved by Verus.
//!
//! - [`tree`]: the tree, [`BITree`], and the conditions its operations need.
//! - [`value`]: the numbers a tree can hold, [`TreeValue`].
//! - [`sums`]: range sums, node sums and how the nodes tile the array.
//! - [`bits`]: the bit patterns that lay the nodes out.
//! - [`laws`]: what holds across operations.
//! - [`bounds`]: when the range conditions of the operations hold.

pub mod bits;
pub mod bounds;
pub mod laws;
pub mod sums;
pub mod tree;
pub mod value;

pub use tree::BITree;
pub use value::TreeValue;
