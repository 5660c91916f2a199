//! A finished node.

use vstd::prelude::*;
use crate::cache::CachedHash;
use crate::hash;
use crate::interface::Complete as _;
use crate::interface::{
    hash_of,
    hashes_of,
    lemma_hash_of,
    lemma_pruned_is_bare,
    spec_hash_of,
    tree_of,
    GetHash,
    Height,
};
use crate::model::{spec_hash_active, Tree};
use crate::three::{four, Elems, Three};

verus! {

/// A finished node: four children, left to right, of which at least one is
/// retained. Each child is a retained finished node one level down, or the
/// bare hash of a pruned one.
pub struct Complete<Child: crate::interface::Complete> {
    children: (
        Result<Child, hash::Hash>,
        Result<Child, hash::Hash>,
        Result<Child, hash::Hash>,
        Result<Child, hash::Hash>,
    ),
    hash: CachedHash,
}

impl<Child: crate::interface::Complete> Complete<Child> {
    /// The height fits a machine word, one of the children is retained, and
    /// the cache is the one for the hash of this node.
    #[verifier::type_invariant]
    spec fn inv(&self) -> bool {
        &&& Child::spec_height() < usize::MAX
        &&& self.children.0 is Ok || self.children.1 is Ok || self.children.2 is Ok
            || self.children.3 is Ok
        &&& self.hash.expected() == self.tree().root(Self::spec_height())
    }

    /// The subtree below this node: the subtrees of its four children.
    closed spec fn tree(&self) -> Tree<Child::Item> {
        Tree::Node(
            Box::new(tree_of(self.children.0)),
            Box::new(tree_of(self.children.1)),
            Box::new(tree_of(self.children.2)),
            Box::new(tree_of(self.children.3)),
        )
    }

    /// The finished node over four children, left to right: retained where
    /// one of the children is, else only its hash.
    pub fn from_children_or_else_hash(
        children: (
            Result<Child, hash::Hash>,
            Result<Child, hash::Hash>,
            Result<Child, hash::Hash>,
            Result<Child, hash::Hash>,
        ),
    ) -> (r: Result<Self, hash::Hash>)
        requires
            Child::spec_height() < usize::MAX,
        ensures
            tree_of(r) == Tree::parent(
                Self::spec_height(),
                tree_of(children.0),
                tree_of(children.1),
                tree_of(children.2),
                tree_of(children.3),
            ),
            r is Ok <==> children.0 is Ok || children.1 is Ok || children.2 is Ok
                || children.3 is Ok,
    {
        proof {
            lemma_pruned_is_bare(children.0);
            lemma_pruned_is_bare(children.1);
            lemma_pruned_is_bare(children.2);
            lemma_pruned_is_bare(children.3);
        }
        match (&children.0, &children.1, &children.2, &children.3) {
            (Err(a), Err(b), Err(c), Err(d)) => Err(
                hash::Hash::node(Child::height() + 1, *a, *b, *c, *d),
            ),
            _ => {
                let ghost tree = Tree::Node(
                    Box::new(tree_of(children.0)),
                    Box::new(tree_of(children.1)),
                    Box::new(tree_of(children.2)),
                    Box::new(tree_of(children.3)),
                );
                Ok(
                    Complete {
                        children,
                        hash: CachedHash::empty(Ghost(tree.root(Self::spec_height()))),
                    },
                )
            },
        }
    }

    /// The finished form of a growing node with the given finished children
    /// and, to the right of them, the finished form of its growing child.
    /// With three finished children the node has all four and is finished.
    /// With fewer it is not, and only its hash, over padding in the empty
    /// places, is given.
    pub fn from_siblings_and_focus_or_else_hash(
        siblings: Three<Result<Child, hash::Hash>>,
        focus: Result<Child, hash::Hash>,
    ) -> (r: Result<Self, hash::Hash>)
        requires
            Child::spec_height() < usize::MAX,
        ensures
            tree_of(r) == if siblings@.len() == 3 {
                Tree::parent(
                    Self::spec_height(),
                    tree_of(siblings@[0]),
                    tree_of(siblings@[1]),
                    tree_of(siblings@[2]),
                    tree_of(focus),
                )
            } else {
                Tree::Pruned(
                    spec_hash_active(
                        Self::spec_height(),
                        hashes_of(siblings@),
                        spec_hash_of(focus),
                    ),
                )
            },
            r is Ok <==> siblings@.len() == 3 && (siblings@[0] is Ok || siblings@[1] is Ok
                || siblings@[2] is Ok || focus is Ok),
    {
        proof {
            siblings.lemma_len();
        }
        let ghost pushed = siblings@.push(focus);
        match siblings.push(focus) {
            Err(children) => {
                assert(children.0 == pushed[0] && children.1 == pushed[1] && children.2
                    == pushed[2] && children.3 == pushed[3]) by {
                    assert(four(children) == pushed);
                    assert(four(children)[0] == children.0);
                    assert(four(children)[1] == children.1);
                    assert(four(children)[2] == children.2);
                    assert(four(children)[3] == children.3);
                }
                Self::from_children_or_else_hash(children)
            },
            Ok(present) => {
                let height: usize = Child::height() + 1;
                let padding = hash::Hash::padding();
                let ghost slots = hashes_of(siblings@).push(spec_hash_of(focus)) + seq![
                    padding,
                    padding,
                    padding,
                ];
                assert(present@ == pushed);
                assert(forall|i: int|
                    0 <= i < pushed.len() ==> slots[i] == spec_hash_of(#[trigger] pushed[i]));
                assert(forall|i: int| pushed.len() <= i < 4 ==> #[trigger] slots[i] == padding);
                match present.elems() {
                    Elems::_0 => unreached(),
                    Elems::_1(a) => {
                        assert(*a == pushed[0]);
                        Err(hash::Hash::node(height, hash_of(a), padding, padding, padding))
                    },
                    Elems::_2(a, b) => {
                        assert(*a == pushed[0] && *b == pushed[1]);
                        Err(hash::Hash::node(height, hash_of(a), hash_of(b), padding, padding))
                    },
                    Elems::_3(a, b, c) => {
                        assert(*a == pushed[0] && *b == pushed[1] && *c == pushed[2]);
                        Err(hash::Hash::node(height, hash_of(a), hash_of(b), hash_of(c), padding))
                    },
                }
            },
        }
    }

    /// The four children, left to right. One of them at least is retained.
    pub fn children(&self) -> (children: (
        &Result<Child, hash::Hash>,
        &Result<Child, hash::Hash>,
        &Result<Child, hash::Hash>,
        &Result<Child, hash::Hash>,
    ))
        ensures
            self@ == Tree::Node(
                Box::new(tree_of(*children.0)),
                Box::new(tree_of(*children.1)),
                Box::new(tree_of(*children.2)),
                Box::new(tree_of(*children.3)),
            ),
            children.0 is Ok || children.1 is Ok || children.2 is Ok || children.3 is Ok,
    {
        proof {
            use_type_invariant(self);
        }
        (&self.children.0, &self.children.1, &self.children.2, &self.children.3)
    }

    /// Makes this node remember `hash` as its hash, so that it is not
    /// computed again. The caller knows that it is the hash of this node.
    pub fn set_hash_unchecked(&self, hash: hash::Hash)
        requires
            hash == self.spec_hash(),
    {
        proof {
            use_type_invariant(self);
        }
        self.hash.set(hash);
    }
}

impl<Child: crate::interface::Complete> Height for Complete<Child> {
    /// A node is one level above its children.
    open spec fn spec_height() -> nat {
        Child::spec_height() + 1
    }

    fn height() -> (h: usize)
        ensures
            h == Child::spec_height() + 1,
    {
        Child::height() + 1
    }
}

impl<Child: crate::interface::Complete> GetHash for Complete<Child> {
    closed spec fn spec_hash(&self) -> hash::Hash {
        self.tree().root(Self::spec_height())
    }

    /// The hash of the node over the hashes of its four children. It is
    /// computed at the first call and remembered.
    fn hash(&self) -> (h: hash::Hash) {
        proof {
            use_type_invariant(self);
        }
        match self.hash.get() {
            Some(hash) => hash,
            None => {
                proof {
                    lemma_hash_of(self.children.0);
                    lemma_hash_of(self.children.1);
                    lemma_hash_of(self.children.2);
                    lemma_hash_of(self.children.3);
                }
                let hash = hash::Hash::node(
                    Child::height() + 1,
                    hash_of(&self.children.0),
                    hash_of(&self.children.1),
                    hash_of(&self.children.2),
                    hash_of(&self.children.3),
                );
                self.hash.set(hash);
                hash
            },
        }
    }
}

impl<Child: crate::interface::Complete> crate::interface::Complete for Complete<Child> {
    type Item = Child::Item;

    closed spec fn view(&self) -> Tree<Child::Item> {
        self.tree()
    }

    proof fn lemma_view(&self) {
    }
}

} // verus!
