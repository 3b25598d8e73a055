//! An unbalanced binary search tree over `i32` keys.
//!
//! A [`tree::Tree`] owns at most one root [`node::Node`]; every node owns its
//! two optional children. Insertion attaches a new leaf, removal splices a
//! node out and promotes the in-order successor where the node has two
//! children. Every operation is stated over the set of keys a tree holds and
//! over the exact shape it leaves behind.

pub mod laws;
pub mod node;
pub mod text;
pub mod tree;
