//! The lowest level of the tree: leaves, each of which holds one item.

pub mod active;
pub mod complete;

pub use active::Active;
pub use complete::Complete;
