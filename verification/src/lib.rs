//! An ordered binary tree over `i64` keys.
//!
//! The tree supports two operations, `insert` and `search`, and maintains the
//! strict binary-search-tree ordering invariant: every value in a node's left
//! subtree is smaller than the node's value, every value in its right subtree
//! is larger, and no value is stored twice.  Each contract is stated over the
//! tree's abstract view, a `Set<i64>` of the stored values.

pub mod laws;
pub mod tree;

pub use tree::BinarySearchTree;
pub use tree::TreeNode;
