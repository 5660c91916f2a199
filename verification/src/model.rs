//! The mathematical model of the tree: finished subtrees, and the frontier
//! of growing nodes along the rightmost path. The contracts of the library
//! are stated over these.

use vstd::prelude::*;
use crate::hash;
use crate::interface::GetHash;

verus! {

/// A finished subtree.
pub enum Tree<Item> {
    /// A retained item, at height zero.
    Leaf(Item),
    /// A retained node with its four children, left to right.
    Node(Box<Tree<Item>>, Box<Tree<Item>>, Box<Tree<Item>>, Box<Tree<Item>>),
    /// A subtree of which only the hash was kept.
    Pruned(hash::Hash),
}

impl<Item: GetHash> Tree<Item> {
    /// The hash of this subtree when it stands at `height`.
    pub open spec fn root(self, height: nat) -> hash::Hash
        decreases self,
    {
        match self {
            Tree::Leaf(item) => item.spec_hash(),
            Tree::Node(a, b, c, d) => {
                let below = (height - 1) as nat;
                hash::Hash::spec_node(
                    height,
                    a.root(below),
                    b.root(below),
                    c.root(below),
                    d.root(below),
                )
            },
            Tree::Pruned(hash) => hash,
        }
    }

    /// The finished node at `height` over four children, left to right. It is
    /// retained where one of its children is; over four bare hashes only the
    /// hash of the node is kept.
    pub open spec fn parent(height: nat, a: Self, b: Self, c: Self, d: Self) -> Self {
        if a is Pruned && b is Pruned && c is Pruned && d is Pruned {
            Tree::Pruned(
                hash::Hash::spec_node(height, a->Pruned_0, b->Pruned_0, c->Pruned_0, d->Pruned_0),
            )
        } else {
            Tree::Node(Box::new(a), Box::new(b), Box::new(c), Box::new(d))
        }
    }

    /// What is left of this subtree, standing at `height`, once it is pruned.
    pub open spec fn pruned(self, height: nat) -> Self {
        Tree::Pruned(self.root(height))
    }

    /// The retained items of this subtree, left to right.
    pub open spec fn items(self) -> Seq<Item>
        decreases self,
    {
        match self {
            Tree::Leaf(item) => seq![item],
            Tree::Node(a, b, c, d) => a.items() + b.items() + c.items() + d.items(),
            Tree::Pruned(_) => Seq::empty(),
        }
    }

    /// Nothing of this subtree was pruned, and all its items are at the
    /// depth `height`.
    pub open spec fn entire(self, height: nat) -> bool
        decreases self,
    {
        match self {
            Tree::Leaf(_) => height == 0,
            Tree::Node(a, b, c, d) => {
                let below = (height - 1) as nat;
                height > 0 && a.entire(below) && b.entire(below) && c.entire(below) && d.entire(
                    below,
                )
            },
            Tree::Pruned(_) => false,
        }
    }
}

/// The hashes of items, in their order.
pub open spec fn hashes<Item: GetHash>(items: Seq<Item>) -> Seq<hash::Hash> {
    Seq::new(items.len(), |i: int| items[i].spec_hash())
}

/// The hash of the tree of the given height whose items, left to right,
/// have the hashes `leaves`. There is at least one item. The items fill the
/// tree from the left; a node without any item below it is padding.
pub open spec fn tree_root(height: nat, leaves: Seq<hash::Hash>) -> hash::Hash
    decreases height, 0nat,
{
    if height == 0 {
        leaves[0]
    } else {
        let below = (height - 1) as nat;
        let each = capacity(below);
        hash::Hash::spec_node(
            height,
            part_root(below, leaves, 0),
            part_root(below, leaves, each),
            part_root(below, leaves, 2 * each),
            part_root(below, leaves, 3 * each),
        )
    }
}

/// The hash of the subtree of the given height whose leftmost item is the
/// one at `from` among the items with the hashes `leaves`: padding where
/// there is no such item.
pub open spec fn part_root(height: nat, leaves: Seq<hash::Hash>, from: nat) -> hash::Hash
    decreases height, 1nat,
{
    if from >= leaves.len() {
        hash::Hash::spec_padding()
    } else {
        let to = if from + capacity(height) <= leaves.len() {
            from + capacity(height)
        } else {
            leaves.len()
        };
        tree_root(height, leaves.subrange(from as int, to as int))
    }
}

/// The retained items of subtrees that stand side by side, left to right.
pub open spec fn items_of<Item: GetHash>(trees: Seq<Tree<Item>>) -> Seq<Item>
    decreases trees.len(),
{
    if trees.len() == 0 {
        Seq::empty()
    } else {
        items_of(trees.drop_last()) + trees.last().items()
    }
}

/// What is left of subtrees that stand side by side at `height` once all of
/// them are pruned.
pub open spec fn all_pruned<Item: GetHash>(trees: Seq<Tree<Item>>, height: nat) -> Seq<Tree<Item>> {
    Seq::new(trees.len(), |i: int| trees[i].pruned(height))
}

/// The number of items that fit below a node at `height`: four to the power
/// of `height`.
pub open spec fn capacity(height: nat) -> nat
    decreases height,
{
    if height == 0 {
        1
    } else {
        4 * capacity((height - 1) as nat)
    }
}

/// The hashes of subtrees that stand side by side at `height`.
pub open spec fn roots<Item: GetHash>(trees: Seq<Tree<Item>>, height: nat) -> Seq<hash::Hash> {
    Seq::new(trees.len(), |i: int| trees[i].root(height))
}

/// The hash of a growing node at `height`: its children are the finished
/// siblings, then the growing child, then padding up to four.
pub open spec fn spec_hash_active(
    height: nat,
    siblings: Seq<hash::Hash>,
    focus: hash::Hash,
) -> hash::Hash {
    let padding = hash::Hash::spec_padding();
    let slots = siblings.push(focus) + seq![padding, padding, padding];
    hash::Hash::spec_node(height, slots[0], slots[1], slots[2], slots[3])
}

/// The growing edge of a tree: the chain of growing nodes from the top down
/// to the item inserted last.
pub enum Frontier<Item> {
    /// The item inserted last, at height zero.
    Leaf(Item),
    /// A growing node: its finished children, left to right, and to the
    /// right of them the growing child.
    Node { siblings: Seq<Tree<Item>>, focus: Box<Frontier<Item>> },
}

impl<Item: GetHash> Frontier<Item> {
    /// The height of the top node above the items.
    pub open spec fn height(self) -> nat
        decreases self,
    {
        match self {
            Frontier::Leaf(_) => 0,
            Frontier::Node { siblings, focus } => focus.height() + 1,
        }
    }

    /// No node has more than three finished children beside the growing one.
    pub open spec fn wf(self) -> bool
        decreases self,
    {
        match self {
            Frontier::Leaf(_) => true,
            Frontier::Node { siblings, focus } => siblings.len() <= 3 && focus.wf(),
        }
    }

    /// The item inserted last.
    pub open spec fn item(self) -> Item
        decreases self,
    {
        match self {
            Frontier::Leaf(item) => item,
            Frontier::Node { siblings, focus } => focus.item(),
        }
    }

    /// The same frontier with `item` in the place of the item inserted last.
    pub open spec fn with_item(self, item: Item) -> Self
        decreases self,
    {
        match self {
            Frontier::Leaf(_) => Frontier::Leaf(item),
            Frontier::Node { siblings, focus } => Frontier::Node {
                siblings,
                focus: Box::new(focus.with_item(item)),
            },
        }
    }

    /// The retained items, left to right: those of the finished children at
    /// every height, and last the item inserted last.
    pub open spec fn items(self) -> Seq<Item>
        decreases self,
    {
        match self {
            Frontier::Leaf(item) => seq![item],
            Frontier::Node { siblings, focus } => items_of(siblings) + focus.items(),
        }
    }

    /// Nothing of this frontier was pruned: every finished child is entire.
    pub open spec fn entire(self) -> bool
        decreases self,
    {
        match self {
            Frontier::Leaf(_) => true,
            Frontier::Node { siblings, focus } => focus.entire() && forall|i: int|
                0 <= i < siblings.len() ==> (#[trigger] siblings[i]).entire(focus.height()),
        }
    }

    /// The number of places for items that are taken: those below the
    /// finished children at every height, and the place of the last item.
    pub open spec fn len(self) -> nat
        decreases self,
    {
        match self {
            Frontier::Leaf(_) => 1,
            Frontier::Node { siblings, focus } => siblings.len() * capacity(focus.height())
                + focus.len(),
        }
    }

    /// The same frontier with every finished child pruned to its hash.
    pub open spec fn pruned(self) -> Self
        decreases self,
    {
        match self {
            Frontier::Leaf(item) => Frontier::Leaf(item),
            Frontier::Node { siblings, focus } => Frontier::Node {
                siblings: all_pruned(siblings, focus.height()),
                focus: Box::new(focus.pruned()),
            },
        }
    }

    /// The hash of the top node.
    pub open spec fn root(self) -> hash::Hash
        decreases self,
    {
        match self {
            Frontier::Leaf(item) => item.spec_hash(),
            Frontier::Node { siblings, focus } => spec_hash_active(
                self.height(),
                roots(siblings, focus.height()),
                focus.root(),
            ),
        }
    }

    /// Nothing more fits: every node has three finished children.
    pub open spec fn is_full(self) -> bool
        decreases self,
    {
        match self {
            Frontier::Leaf(_) => true,
            Frontier::Node { siblings, focus } => siblings.len() >= 3 && focus.is_full(),
        }
    }

    /// The frontier of the given height that holds `item` alone.
    pub open spec fn singleton(item: Item, height: nat) -> Self
        decreases height,
    {
        if height == 0 {
            Frontier::Leaf(item)
        } else {
            Frontier::Node {
                siblings: Seq::empty(),
                focus: Box::new(Self::singleton(item, (height - 1) as nat)),
            }
        }
    }

    /// The finished child that this frontier becomes for the node above. A
    /// node with all four children becomes their parent; one with fewer is
    /// not finished, and only its hash goes up.
    pub open spec fn complete(self) -> Tree<Item>
        decreases self,
    {
        match self {
            Frontier::Leaf(item) => Tree::Leaf(item),
            Frontier::Node { siblings, focus } => if siblings.len() == 3 {
                Tree::parent(
                    self.height(),
                    siblings[0],
                    siblings[1],
                    siblings[2],
                    focus.complete(),
                )
            } else {
                Tree::Pruned(self.root())
            },
        }
    }

    /// The frontier after `item` was inserted to the right of all items, where
    /// there is room. The lowest node with room takes what is below it, in
    /// its finished form, as a finished child, and starts a new growing child
    /// that holds `item` alone. Nothing above that node changes.
    pub open spec fn grown(self, item: Item) -> Self
        decreases self,
    {
        match self {
            Frontier::Leaf(_) => self,
            Frontier::Node { siblings, focus } => if focus.is_full() {
                Frontier::Node {
                    siblings: siblings.push(focus.complete()),
                    focus: Box::new(Self::singleton(item, focus.height())),
                }
            } else {
                Frontier::Node { siblings, focus: Box::new(focus.grown(item)) }
            },
        }
    }

    /// The frontier after `items` were inserted one after the other, where
    /// there is room for all of them, else `None`.
    pub open spec fn extend(self, items: Seq<Item>) -> Option<Self>
        decreases items.len(),
    {
        if items.len() == 0 {
            Some(self)
        } else if self.is_full() {
            None
        } else {
            self.grown(items[0]).extend(items.subrange(1, items.len() as int))
        }
    }
}

} // verus!
