//! The growing edge of an append-only tree of arity four whose nodes are
//! authenticated by hashes.
//!
//! Items are appended one at a time. The rightmost path of the tree is kept
//! as a chain of active nodes, one per height, each holding its growing child
//! and at most three finished children to the left of it. A finished child is
//! either retained in full or stands in the tree as its bare hash; the hash
//! of every node is the same either way.
//!
//! - [`hash`] holds the hash primitive, and [`cache`] the place in which a
//!   node remembers its hash.
//! - [`model`] holds the mathematical model over which the contracts are
//!   stated, and [`laws`] what is proved of it.
//! - [`interface`] holds the traits that the levels of the tree implement.
//! - [`leaf`] holds the lowest level and [`node`] the levels above it; a tree
//!   of a given height is a node type nested that many times around a leaf.
//! - [`three`] holds the buffer for the finished children of a growing node.

pub mod cache;
pub mod hash;
pub mod interface;
pub mod laws;
pub mod leaf;
pub mod model;
pub mod node;
pub mod three;

pub use interface::{Active, Complete, GetHash, Height};
pub use three::{Elems, Three};
