//! A growing node.

use vstd::prelude::*;
use crate::cache::CachedHash;
use crate::hash;
use crate::interface::Active as _;
use crate::interface::Complete as _;
use crate::interface::{
    hash_of,
    hashes_of,
    lemma_hash_of,
    lemma_hashes_of,
    lemma_pruned_is_bare,
    tree_of,
    trees_of,
    GetHash,
    Height,
};
use crate::laws::lemma_complete_root;
use crate::model::{spec_hash_active, Frontier, Tree};
use crate::node::complete::Complete;
use crate::three::{four, Elems, Three};

verus! {

/// A growing node, one level above its `Focus`. It holds the growing child
/// one level down, the finished children to the left of it, and its own hash
/// once that has been asked for.
pub struct Active<Focus: crate::interface::Active> {
    focus: Focus,
    siblings: Three<Result<Focus::Complete, hash::Hash>>,
    hash: CachedHash,
}

impl<Focus: crate::interface::Active> Active<Focus> {
    /// The height fits a machine word, and the cache is the one for the hash
    /// of this node.
    #[verifier::type_invariant]
    spec fn inv(&self) -> bool {
        &&& Focus::spec_height() < usize::MAX
        &&& self.hash.expected() == self.frontier().root()
    }

    /// The frontier below and including this node.
    closed spec fn frontier(&self) -> Frontier<Focus::Item> {
        Frontier::Node { siblings: trees_of(self.siblings@), focus: Box::new(self.focus@) }
    }

    /// The node with the given finished children, left to right, and to the
    /// right of them the growing child. No hash is computed.
    pub fn from_parts(siblings: Three<Result<Focus::Complete, hash::Hash>>, focus: Focus) -> (node:
        Self)
        requires
            Focus::spec_height() < usize::MAX,
        ensures
            node@ == (Frontier::Node { siblings: trees_of(siblings@), focus: Box::new(focus@) }),
    {
        let ghost frontier = Frontier::Node {
            siblings: trees_of(siblings@),
            focus: Box::new(focus@),
        };
        Active { hash: CachedHash::empty(Ghost(frontier.root())), siblings, focus }
    }
}

/// A growing node is one level above its growing child, and as high as the
/// finished node it becomes. Every composition of levels has these heights:
/// a level whose growing and finished forms disagree on their height does
/// not implement [`crate::interface::Active`].
pub proof fn lemma_height_of_composition<Focus: crate::interface::Active>()
    ensures
        <Active<Focus> as Height>::spec_height() == Focus::spec_height() + 1,
        <Active<Focus> as Height>::spec_height() == <Complete<
            Focus::Complete,
        > as Height>::spec_height(),
        Focus::spec_height() == <Focus::Complete as Height>::spec_height(),
{
    Focus::lemma_heights_agree();
}

/// The hash of the growing node with the given finished children and growing
/// child: the combination, under the height of the node, of the hashes of
/// the finished children, then the hash of the growing child, then padding
/// up to four.
pub fn hash_active<Focus: crate::interface::Active>(
    siblings: &Three<Result<Focus::Complete, hash::Hash>>,
    focus: &Focus,
) -> (h: hash::Hash)
    requires
        Focus::spec_height() < usize::MAX,
    ensures
        h == spec_hash_active(
            Focus::spec_height() + 1,
            hashes_of(siblings@),
            focus.spec_hash(),
        ),
{
    let padding = hash::Hash::padding();
    let ghost slots = hashes_of(siblings@).push(focus.spec_hash()) + seq![
        padding,
        padding,
        padding,
    ];
    let (a, b, c, d) = match siblings.elems() {
        Elems::_0 => (focus.hash(), padding, padding, padding),
        Elems::_1(first) => {
            assert(*first == siblings@[0]);
            (hash_of(first), focus.hash(), padding, padding)
        },
        Elems::_2(first, second) => {
            assert(*first == siblings@[0] && *second == siblings@[1]);
            (hash_of(first), hash_of(second), focus.hash(), padding)
        },
        Elems::_3(first, second, third) => {
            assert(*first == siblings@[0] && *second == siblings@[1] && *third == siblings@[2]);
            (hash_of(first), hash_of(second), hash_of(third), focus.hash())
        },
    };
    assert(a == slots[0] && b == slots[1] && c == slots[2] && d == slots[3]);
    hash::Hash::node(Focus::height() + 1, a, b, c, d)
}

impl<Focus: crate::interface::Active> Height for Active<Focus> {
    /// A node is one level above its growing child.
    open spec fn spec_height() -> nat {
        Focus::spec_height() + 1
    }

    fn height() -> (h: usize)
        ensures
            h == Focus::spec_height() + 1,
    {
        Focus::height() + 1
    }
}

impl<Focus: crate::interface::Active> GetHash for Active<Focus> {
    closed spec fn spec_hash(&self) -> hash::Hash {
        self.frontier().root()
    }

    /// The hash of this node: the root of its frontier as it is now. It is
    /// computed at the first call and remembered for the later ones.
    fn hash(&self) -> (h: hash::Hash)
        ensures
            h == self@.root(),
    {
        proof {
            use_type_invariant(self);
        }
        match self.hash.get() {
            Some(hash) => hash,
            None => {
                proof {
                    self.focus.lemma_view();
                    Focus::lemma_heights_agree();
                    lemma_hashes_of(self.siblings@);
                }
                let hash = hash_active(&self.siblings, &self.focus);
                self.hash.set(hash);
                hash
            },
        }
    }
}

impl<Focus: crate::interface::Active> crate::interface::Active for Active<Focus> {
    type Item = Focus::Item;

    type Complete = Complete<Focus::Complete>;

    closed spec fn view(&self) -> Frontier<Focus::Item> {
        self.frontier()
    }

    proof fn lemma_view(&self) {
        self.siblings.lemma_len();
        self.focus.lemma_view();
    }

    proof fn lemma_heights_agree() {
        Focus::lemma_heights_agree();
    }

    fn singleton(item: Focus::Item) -> (s: Self) {
        let focus = Focus::singleton(item);
        let siblings = Three::new();
        assert(trees_of(siblings@) == Seq::<Tree<Focus::Item>>::empty());
        Self::from_parts(siblings, focus)
    }

    fn complete(self) -> (r: Result<Complete<Focus::Complete>, hash::Hash>) {
        proof {
            use_type_invariant(&self);
            self.lemma_view();
            self.focus.lemma_view();
            Focus::lemma_heights_agree();
            lemma_hashes_of(self.siblings@);
            lemma_complete_root(self@);
        }
        let r = Complete::from_siblings_and_focus_or_else_hash(
            self.siblings,
            self.focus.complete(),
        );
        proof {
            lemma_hash_of(r);
            lemma_pruned_is_bare(r);
        }
        r
    }

    fn alter<T, F: FnOnce(&mut Focus::Item) -> T>(self, f: F) -> (r: (Self, Option<T>)) {
        proof {
            use_type_invariant(&self);
        }
        let (focus, out) = self.focus.alter(f);
        (Self::from_parts(self.siblings, focus), out)
    }

    fn insert(self, item: Focus::Item) -> (r: Result<
        Self,
        (Focus::Item, Result<Complete<Focus::Complete>, hash::Hash>),
    >) {
        proof {
            use_type_invariant(&self);
            self.lemma_view();
            self.focus.lemma_view();
            Focus::lemma_heights_agree();
            lemma_complete_root(self@);
        }
        let Active { focus, siblings, hash } = self;
        match focus.insert(item) {
            // The growing child took the item: the finished children stay.
            Ok(focus) => Ok(Self::from_parts(siblings, focus)),
            // The growing child is full. Its finished form becomes the next
            // finished child, and a new growing child starts with the item.
            Err((item, sibling)) => {
                let ghost trees = trees_of(siblings@);
                match siblings.push(sibling) {
                    Ok(siblings) => {
                        assert(trees_of(siblings@) == trees.push(tree_of(sibling)));
                        Ok(Self::from_parts(siblings, Focus::singleton(item)))
                    },
                    // There is no room for another finished child: the node
                    // is full, and its own finished form is carried up.
                    Err(children) => {
                        assert(children.0 == siblings@[0] && children.1 == siblings@[1]
                            && children.2 == siblings@[2] && children.3 == sibling) by {
                            assert(four(children)[0] == children.0);
                            assert(four(children)[1] == children.1);
                            assert(four(children)[2] == children.2);
                            assert(four(children)[3] == children.3);
                        }
                        let carry = Complete::from_children_or_else_hash(children);
                        proof {
                            lemma_hash_of(carry);
                            lemma_pruned_is_bare(carry);
                        }
                        // The four children of the carry are those of this
                        // node, so a hash that this node remembers is the
                        // hash of the carry.
                        if let Ok(node) = &carry {
                            if let Some(known) = hash.get() {
                                node.set_hash_unchecked(known);
                            }
                        }
                        Err((item, carry))
                    },
                }
            },
        }
    }
}

} // verus!
