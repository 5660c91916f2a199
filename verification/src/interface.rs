//! What the levels of the tree have in common: every level reports its
//! height and its hash, a finished level stands for a subtree, and a growing
//! level stands for a frontier into which items are inserted.

use vstd::prelude::*;
use crate::hash;
use crate::model::{roots, Frontier, Tree};

verus! {

/// The height of a kind of node above the items. Items and the leaves that
/// hold them are at height zero.
pub trait Height {
    /// The height of every value of this type.
    spec fn spec_height() -> nat;

    /// The height of every value of this type, where a machine word holds it.
    fn height() -> (h: usize)
        requires
            Self::spec_height() <= usize::MAX,
        ensures
            h == Self::spec_height(),
    ;
}

/// A value that has a hash.
pub trait GetHash {
    /// The hash of this value: a function of what the value holds.
    spec fn spec_hash(&self) -> hash::Hash;

    /// The hash of this value. It may be remembered from an earlier call.
    fn hash(&self) -> (h: hash::Hash)
        ensures
            h == self.spec_hash(),
    ;
}

impl GetHash for hash::Hash {
    open spec fn spec_hash(&self) -> hash::Hash {
        *self
    }

    /// A hash used as an item is its own hash.
    fn hash(&self) -> (h: hash::Hash) {
        *self
    }
}

/// A finished node: all that will ever be below it is there. It stands for a
/// retained subtree.
pub trait Complete: Height + GetHash + Sized {
    /// The items at the leaves.
    type Item: GetHash;

    /// The subtree this value stands for.
    spec fn view(&self) -> Tree<Self::Item>;

    /// A finished node is never a bare hash, and its hash is the root of the
    /// subtree it stands for.
    proof fn lemma_view(&self)
        ensures
            !(self@ is Pruned),
            self.spec_hash() == self@.root(Self::spec_height()),
    ;
}

/// The subtree that a finished child stands for: the retained subtree, or
/// the bare hash that is left of a pruned one.
pub open spec fn tree_of<C: Complete>(child: Result<C, hash::Hash>) -> Tree<C::Item> {
    match child {
        Ok(complete) => complete@,
        Err(hash) => Tree::Pruned(hash),
    }
}

/// The subtrees that finished children stand for, in their order.
pub open spec fn trees_of<C: Complete>(children: Seq<Result<C, hash::Hash>>) -> Seq<Tree<C::Item>> {
    Seq::new(children.len(), |i: int| tree_of(children[i]))
}

/// The hash of a finished child: that of the retained subtree, or the bare
/// hash itself.
pub open spec fn spec_hash_of<T: GetHash>(child: Result<T, hash::Hash>) -> hash::Hash {
    match child {
        Ok(complete) => complete.spec_hash(),
        Err(hash) => hash,
    }
}

/// The hashes of finished children, in their order.
pub open spec fn hashes_of<T: GetHash>(children: Seq<Result<T, hash::Hash>>) -> Seq<hash::Hash> {
    Seq::new(children.len(), |i: int| spec_hash_of(children[i]))
}

/// The hash of a finished child: that of the retained subtree, or the bare
/// hash itself.
pub fn hash_of<T: GetHash>(child: &Result<T, hash::Hash>) -> (h: hash::Hash)
    ensures
        h == spec_hash_of(*child),
{
    match child {
        Ok(complete) => complete.hash(),
        Err(hash) => *hash,
    }
}

/// A finished child stands for a pruned subtree exactly where it is a bare
/// hash.
pub proof fn lemma_pruned_is_bare<C: Complete>(child: Result<C, hash::Hash>)
    ensures
        tree_of(child) is Pruned <==> child is Err,
{
    if let Ok(complete) = child {
        complete.lemma_view();
    }
}

/// A finished child and the subtree it stands for have the same hash.
pub proof fn lemma_hash_of<C: Complete>(child: Result<C, hash::Hash>)
    ensures
        spec_hash_of(child) == tree_of(child).root(C::spec_height()),
{
    if let Ok(complete) = child {
        complete.lemma_view();
    }
}

/// Finished children and the subtrees they stand for have the same hashes.
pub proof fn lemma_hashes_of<C: Complete>(children: Seq<Result<C, hash::Hash>>)
    ensures
        hashes_of(children) == roots(trees_of(children), C::spec_height()),
{
    assert forall|i: int| 0 <= i < children.len() implies hashes_of(children)[i] == roots(
        trees_of(children),
        C::spec_height(),
    )[i] by {
        lemma_hash_of(children[i]);
    }
}

/// A growing node: the rightmost node at its height. It stands for a
/// frontier.
pub trait Active: Height + GetHash + Sized {
    /// The items at the leaves.
    type Item: GetHash;

    /// What this node becomes once nothing more fits below it.
    type Complete: Complete<Item = Self::Item>;

    /// The frontier this value stands for.
    spec fn view(&self) -> Frontier<Self::Item>;

    /// The frontier of a value is well formed and as high as the type says,
    /// and the hash of the value is the root of its frontier.
    proof fn lemma_view(&self)
        ensures
            self@.wf(),
            self@.height() == Self::spec_height(),
            self.spec_hash() == self@.root(),
    ;

    /// A growing node and the finished node it becomes are equally high.
    proof fn lemma_heights_agree()
        ensures
            Self::spec_height() == <Self::Complete as Height>::spec_height(),
    ;

    /// The frontier that holds `item` alone, with no finished sibling at any
    /// height.
    fn singleton(item: Self::Item) -> (s: Self)
        requires
            Self::spec_height() <= usize::MAX,
        ensures
            s@ == Frontier::singleton(item, Self::spec_height()),
    ;

    /// Turns this node into a finished child of the node above: the retained
    /// node where all four children are there and one of them is retained,
    /// else the bare hash of this node.
    fn complete(self) -> (r: Result<Self::Complete, hash::Hash>)
        ensures
            tree_of(r) == self@.complete(),
            r is Err <==> self@.complete() is Pruned,
            spec_hash_of(r) == self.spec_hash(),
    ;

    /// Runs `f` on the item that was inserted last, the only one that can
    /// still change. Gives back the node with the item as `f` left it, and
    /// what `f` returned. Nothing else in the node changes, and no hash
    /// remembered before the call survives it.
    fn alter<T, F: FnOnce(&mut Self::Item) -> T>(self, f: F) -> (r: (Self, Option<T>))
        requires
            forall|item: &mut Self::Item| *item == self@.item() ==> call_requires(f, (item,)),
        ensures
            r.0@ == self@.with_item(r.0@.item()),
            r.1 matches Some(out) && exists|item: &mut Self::Item|
                *item == self@.item() && *final(item) == r.0@.item() && call_ensures(
                    f,
                    (item,),
                    out,
                ),
    ;

    /// Inserts `item` to the right of all items in this node. A node with
    /// room grows by the item. A full node gives `item` back together with
    /// its own finished form, which the caller places one level up; the hash
    /// of that form is the hash of this node.
    fn insert(self, item: Self::Item) -> (r: Result<
        Self,
        (Self::Item, Result<Self::Complete, hash::Hash>),
    >)
        ensures
            match r {
                Ok(grown) => !self@.is_full() && grown@ == self@.grown(item),
                Err((back, carry)) => {
                    &&& self@.is_full()
                    &&& back == item
                    &&& tree_of(carry) == self@.complete()
                    &&& carry is Err <==> self@.complete() is Pruned
                    &&& spec_hash_of(carry) == self.spec_hash()
                },
            },
    ;
}

} // verus!
