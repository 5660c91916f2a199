//! The levels of the tree above the leaves: nodes with four children.

pub mod active;
pub mod complete;

pub use active::{hash_active, Active};
pub use complete::Complete;
