//! A finished leaf.

use vstd::prelude::*;
use crate::hash;
use crate::interface::Complete as _;
use crate::interface::{GetHash, Height};
use crate::model::Tree;

verus! {

/// A finished leaf: a retained item.
pub struct Complete<Item> {
    item: Item,
}

impl<Item: GetHash> Complete<Item> {
    /// The leaf that retains `item`.
    pub fn new(item: Item) -> (leaf: Self)
        ensures
            leaf@ == Tree::Leaf(item),
    {
        Complete { item }
    }

    /// The item in this leaf.
    pub fn item(&self) -> (item: &Item)
        ensures
            self@ == Tree::Leaf(*item),
    {
        &self.item
    }
}

impl<Item: GetHash> Height for Complete<Item> {
    open spec fn spec_height() -> nat {
        0
    }

    fn height() -> (h: usize) {
        0
    }
}

impl<Item: GetHash> GetHash for Complete<Item> {
    closed spec fn spec_hash(&self) -> hash::Hash {
        self.item.spec_hash()
    }

    /// The hash of a leaf is the hash of its item.
    fn hash(&self) -> (h: hash::Hash) {
        self.item.hash()
    }
}

impl<Item: GetHash> crate::interface::Complete for Complete<Item> {
    type Item = Item;

    closed spec fn view(&self) -> Tree<Item> {
        Tree::Leaf(self.item)
    }

    proof fn lemma_view(&self) {
    }
}

} // verus!
