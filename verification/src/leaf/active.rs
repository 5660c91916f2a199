//! The growing leaf.

use vstd::prelude::*;
use crate::hash;
use crate::interface::Active as _;
use crate::interface::Complete as _;
use crate::interface::{GetHash, Height};
use crate::leaf::complete::Complete;
use crate::model::Frontier;

verus! {

/// The growing leaf: it holds the item that was inserted last. A leaf holds
/// one item, so it is full from the start.
pub struct Active<Item> {
    item: Item,
}

impl<Item: GetHash> Height for Active<Item> {
    open spec fn spec_height() -> nat {
        0
    }

    fn height() -> (h: usize) {
        0
    }
}

impl<Item: GetHash> GetHash for Active<Item> {
    closed spec fn spec_hash(&self) -> hash::Hash {
        self.item.spec_hash()
    }

    /// The hash of a leaf is the hash of its item.
    fn hash(&self) -> (h: hash::Hash) {
        self.item.hash()
    }
}

impl<Item: GetHash> crate::interface::Active for Active<Item> {
    type Item = Item;

    type Complete = Complete<Item>;

    closed spec fn view(&self) -> Frontier<Item> {
        Frontier::Leaf(self.item)
    }

    proof fn lemma_view(&self) {
    }

    proof fn lemma_heights_agree() {
    }

    fn singleton(item: Item) -> (s: Self) {
        Active { item }
    }

    fn complete(self) -> (r: Result<Complete<Item>, hash::Hash>) {
        let leaf = Complete::new(self.item);
        proof {
            leaf.lemma_view();
        }
        Ok(leaf)
    }

    fn alter<T, F: FnOnce(&mut Item) -> T>(self, f: F) -> (r: (Self, Option<T>)) {
        let mut item = self.item;
        let out = f(&mut item);
        (Active { item }, Some(out))
    }

    fn insert(self, item: Item) -> (r: Result<Self, (Item, Result<Complete<Item>, hash::Hash>)>) {
        let carry = self.complete();
        Err((item, carry))
    }
}

} // verus!
