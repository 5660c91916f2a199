//! What holds of the model of the tree, whatever the items are: of the shape
//! of a frontier, of its hash, of what pruning leaves as it was, of the items
//! that a frontier retains, and of the number of items that it holds.

use vstd::prelude::*;
use crate::hash;
use crate::interface::{Active, GetHash};
use crate::model::{
    all_pruned,
    capacity,
    hashes,
    items_of,
    part_root,
    roots,
    tree_root,
    Frontier,
    Tree,
};

verus! {

// The shape of a frontier.

/// The frontier that holds one item alone is well formed and as high as it
/// was asked to be, its last item is that item, and it is full only at
/// height zero.
pub proof fn lemma_singleton<Item: GetHash>(item: Item, height: nat)
    ensures
        Frontier::singleton(item, height).wf(),
        Frontier::singleton(item, height).height() == height,
        Frontier::singleton(item, height).item() == item,
        Frontier::singleton(item, height).is_full() <==> height == 0,
    decreases height,
{
    if height > 0 {
        lemma_singleton(item, (height - 1) as nat);
    }
}

/// A frontier that grew by an item is well formed and as high as it was,
/// and its last item is that item.
pub proof fn lemma_grown<Item: GetHash>(frontier: Frontier<Item>, item: Item)
    requires
        frontier.wf(),
        !frontier.is_full(),
    ensures
        frontier.grown(item).wf(),
        frontier.grown(item).height() == frontier.height(),
        frontier.grown(item).item() == item,
    decreases frontier,
{
    match frontier {
        Frontier::Leaf(_) => {},
        Frontier::Node { siblings, focus } => {
            if focus.is_full() {
                lemma_singleton(item, focus.height());
            } else {
                lemma_grown(*focus, item);
            }
        },
    }
}

/// Replacing the last item changes neither the shape of a frontier nor
/// whether it is full, and replacing it by itself changes nothing.
pub proof fn lemma_with_item<Item: GetHash>(frontier: Frontier<Item>, item: Item)
    ensures
        frontier.with_item(item).wf() == frontier.wf(),
        frontier.with_item(item).height() == frontier.height(),
        frontier.with_item(item).is_full() == frontier.is_full(),
        frontier.with_item(item).item() == item,
        frontier.with_item(item).len() == frontier.len(),
        frontier.with_item(frontier.item()) == frontier,
    decreases frontier,
{
    match frontier {
        Frontier::Leaf(_) => {},
        Frontier::Node { siblings, focus } => {
            lemma_with_item(*focus, item);
            lemma_with_item(*focus, focus.item());
        },
    }
}

// The hash of a frontier.

/// The hash of a finished node is the combination of the hashes of its four
/// children, whether the node is retained or only its hash is kept.
pub proof fn lemma_parent_root<Item: GetHash>(
    height: nat,
    a: Tree<Item>,
    b: Tree<Item>,
    c: Tree<Item>,
    d: Tree<Item>,
)
    ensures
        Tree::parent(height, a, b, c, d).root(height) == hash::Hash::spec_node(
            height,
            a.root((height - 1) as nat),
            b.root((height - 1) as nat),
            c.root((height - 1) as nat),
            d.root((height - 1) as nat),
        ),
{
}

/// The hash of a node with three finished children is the combination of
/// their hashes and, last, the hash of the growing child: no place is
/// padded.
pub proof fn lemma_full_node_root<Item: GetHash>(
    siblings: Seq<Tree<Item>>,
    focus: Frontier<Item>,
)
    requires
        siblings.len() == 3,
    ensures
        (Frontier::Node { siblings, focus: Box::new(focus) }).root() == hash::Hash::spec_node(
            focus.height() + 1,
            siblings[0].root(focus.height()),
            siblings[1].root(focus.height()),
            siblings[2].root(focus.height()),
            focus.root(),
        ),
{
}

/// The hash of the frontier that holds one item alone, one level up: the
/// combination of the hash one level down and three paddings.
pub proof fn lemma_singleton_root<Item: GetHash>(item: Item, height: nat)
    ensures
        Frontier::singleton(item, height + 1).root() == hash::Hash::spec_node(
            height + 1,
            Frontier::singleton(item, height).root(),
            hash::Hash::spec_padding(),
            hash::Hash::spec_padding(),
            hash::Hash::spec_padding(),
        ),
{
    lemma_singleton(item, height);
    let top = Frontier::singleton(item, height + 1);
    assert(top == Frontier::Node {
        siblings: Seq::<Tree<Item>>::empty(),
        focus: Box::new(Frontier::singleton(item, height)),
    });
}

/// The finished form of a frontier has the hash of the frontier. So what a
/// full frontier carries out when it refuses an item has the hash that the
/// frontier had.
pub proof fn lemma_complete_root<Item: GetHash>(frontier: Frontier<Item>)
    requires
        frontier.wf(),
    ensures
        frontier.complete().root(frontier.height()) == frontier.root(),
    decreases frontier,
{
    match frontier {
        Frontier::Leaf(_) => {},
        Frontier::Node { siblings, focus } => {
            if siblings.len() == 3 {
                lemma_complete_root(*focus);
                lemma_parent_root(
                    frontier.height(),
                    siblings[0],
                    siblings[1],
                    siblings[2],
                    focus.complete(),
                );
            }
        },
    }
}

// What pruning leaves as it was.

/// Finished children are told apart by their hashes alone: two nodes with
/// the same growing child whose finished children have the same hashes, one
/// by one, have the same hash, and they differ only in what was pruned.
pub proof fn lemma_siblings_alike<Item: GetHash>(
    siblings: Seq<Tree<Item>>,
    others: Seq<Tree<Item>>,
    focus: Frontier<Item>,
)
    requires
        roots(siblings, focus.height()) == roots(others, focus.height()),
    ensures
        (Frontier::Node { siblings, focus: Box::new(focus) }).root() == (Frontier::Node {
            siblings: others,
            focus: Box::new(focus),
        }).root(),
        (Frontier::Node { siblings, focus: Box::new(focus) }).pruned() == (Frontier::Node {
            siblings: others,
            focus: Box::new(focus),
        }).pruned(),
{
    let height = focus.height();
    assert(siblings.len() == roots(siblings, height).len());
    assert(others.len() == roots(others, height).len());
    assert forall|i: int| 0 <= i < siblings.len() implies all_pruned(siblings, height)[i]
        == all_pruned(others, height)[i] by {
        assert(roots(siblings, height)[i] == roots(others, height)[i]);
    }
    assert(all_pruned(siblings, height) == all_pruned(others, height));
}

/// Pruning one finished child of a node to its hash leaves the hash of the
/// node as it was, and the node differs from what it was only in what was
/// pruned.
pub proof fn lemma_prune_sibling<Item: GetHash>(
    siblings: Seq<Tree<Item>>,
    focus: Frontier<Item>,
    i: int,
)
    requires
        0 <= i < siblings.len(),
    ensures
        (Frontier::Node {
            siblings: siblings.update(i, siblings[i].pruned(focus.height())),
            focus: Box::new(focus),
        }).root() == (Frontier::Node { siblings, focus: Box::new(focus) }).root(),
        (Frontier::Node {
            siblings: siblings.update(i, siblings[i].pruned(focus.height())),
            focus: Box::new(focus),
        }).pruned() == (Frontier::Node { siblings, focus: Box::new(focus) }).pruned(),
{
    let height = focus.height();
    let after = siblings.update(i, siblings[i].pruned(height));
    assert(roots(after, height) == roots(siblings, height));
    lemma_siblings_alike(after, siblings, focus);
}

/// Two nodes with the same finished children whose growing children differ
/// only in what was pruned differ only in that themselves.
pub proof fn lemma_focus_alike<Item: GetHash>(
    siblings: Seq<Tree<Item>>,
    focus: Frontier<Item>,
    other: Frontier<Item>,
)
    requires
        focus.pruned() == other.pruned(),
    ensures
        (Frontier::Node { siblings, focus: Box::new(focus) }).pruned() == (Frontier::Node {
            siblings,
            focus: Box::new(other),
        }).pruned(),
{
    lemma_pruned(focus);
    lemma_pruned(other);
}

/// Pruning a child of a finished node, or all four, leaves the hash of the
/// node as it was.
pub proof fn lemma_prune_children<Item: GetHash>(
    height: nat,
    a: Tree<Item>,
    b: Tree<Item>,
    c: Tree<Item>,
    d: Tree<Item>,
)
    ensures
        ({
            let below = (height - 1) as nat;
            let hash = Tree::parent(height, a, b, c, d).root(height);
            &&& Tree::parent(height, a.pruned(below), b, c, d).root(height) == hash
            &&& Tree::parent(height, a, b.pruned(below), c, d).root(height) == hash
            &&& Tree::parent(height, a, b, c.pruned(below), d).root(height) == hash
            &&& Tree::parent(height, a, b, c, d.pruned(below)).root(height) == hash
            &&& Tree::parent(
                height,
                a.pruned(below),
                b.pruned(below),
                c.pruned(below),
                d.pruned(below),
            ).root(height) == hash
        }),
{
    let below = (height - 1) as nat;
    lemma_parent_root(height, a, b, c, d);
    lemma_parent_root(height, a.pruned(below), b, c, d);
    lemma_parent_root(height, a, b.pruned(below), c, d);
    lemma_parent_root(height, a, b, c.pruned(below), d);
    lemma_parent_root(height, a, b, c, d.pruned(below));
    lemma_parent_root(height, a.pruned(below), b.pruned(below), c.pruned(below), d.pruned(below));
}

/// Pruning every finished child at every height changes neither the hash
/// nor the shape of a frontier, nor its last item.
pub proof fn lemma_pruned<Item: GetHash>(frontier: Frontier<Item>)
    ensures
        frontier.pruned().root() == frontier.root(),
        frontier.pruned().height() == frontier.height(),
        frontier.pruned().wf() == frontier.wf(),
        frontier.pruned().is_full() == frontier.is_full(),
        frontier.pruned().item() == frontier.item(),
        frontier.pruned().len() == frontier.len(),
        frontier.pruned().pruned() == frontier.pruned(),
    decreases frontier,
{
    match frontier {
        Frontier::Leaf(_) => {},
        Frontier::Node { siblings, focus } => {
            lemma_pruned(*focus);
            let height = focus.height();
            assert(roots(all_pruned(siblings, height), height) == roots(siblings, height));
            assert(all_pruned(all_pruned(siblings, height), height) == all_pruned(
                siblings,
                height,
            ));
        },
    }
}

/// A frontier that holds one item alone has nothing to prune.
pub proof fn lemma_singleton_pruned<Item: GetHash>(item: Item, height: nat)
    ensures
        Frontier::singleton(item, height).pruned() == Frontier::singleton(item, height),
    decreases height,
{
    if height > 0 {
        lemma_singleton_pruned(item, (height - 1) as nat);
        lemma_singleton(item, (height - 1) as nat);
        assert(all_pruned(Seq::<Tree<Item>>::empty(), (height - 1) as nat) == Seq::<
            Tree<Item>,
        >::empty());
    }
}

/// Two frontiers with room that differ only in what was pruned still differ
/// only in that after they grew by the same item.
pub proof fn lemma_grown_pruned<Item: GetHash>(
    one: Frontier<Item>,
    other: Frontier<Item>,
    item: Item,
)
    requires
        one.wf(),
        other.wf(),
        one.pruned() == other.pruned(),
        !one.is_full(),
    ensures
        one.grown(item).pruned() == other.grown(item).pruned(),
    decreases one,
{
    lemma_pruned(one);
    lemma_pruned(other);
    match (one, other) {
        (
            Frontier::Node { siblings, focus },
            Frontier::Node { siblings: other_siblings, focus: other_focus },
        ) => {
            let height = focus.height();
            lemma_pruned(*focus);
            lemma_pruned(*other_focus);
            let pruned = all_pruned(siblings, height);
            assert(pruned == all_pruned(other_siblings, height));
            if focus.is_full() {
                lemma_complete_root(*focus);
                lemma_complete_root(*other_focus);
                lemma_singleton(item, height);
                lemma_singleton_pruned(item, height);
                assert(all_pruned(siblings.push(focus.complete()), height) == pruned.push(
                    focus.complete().pruned(height),
                ));
                assert(all_pruned(other_siblings.push(other_focus.complete()), height)
                    == pruned.push(other_focus.complete().pruned(height)));
            } else {
                lemma_grown_pruned(*focus, *other_focus, item);
                lemma_grown(*focus, item);
                lemma_grown(*other_focus, item);
            }
        },
        _ => {},
    }
}

/// What two full frontiers that differ only in what was pruned carry out
/// has the same hash.
pub proof fn lemma_complete_pruned<Item: GetHash>(one: Frontier<Item>, other: Frontier<Item>)
    requires
        one.wf(),
        other.wf(),
        one.pruned() == other.pruned(),
    ensures
        one.complete().root(one.height()) == other.complete().root(other.height()),
{
    lemma_pruned(one);
    lemma_pruned(other);
    lemma_complete_root(one);
    lemma_complete_root(other);
}

/// Two frontiers that differ only in what was pruned take the same items
/// alike: there is room for all of them in both or in neither, and where
/// there is the two results differ only in what was pruned, so that they
/// have the same hash.
pub proof fn lemma_extend_pruned<Item: GetHash>(
    one: Frontier<Item>,
    other: Frontier<Item>,
    items: Seq<Item>,
)
    requires
        one.wf(),
        other.wf(),
        one.pruned() == other.pruned(),
    ensures
        match (one.extend(items), other.extend(items)) {
            (Some(grown), Some(other_grown)) => grown.pruned() == other_grown.pruned()
                && grown.root() == other_grown.root(),
            (None, None) => true,
            _ => false,
        },
    decreases items.len(),
{
    lemma_pruned(one);
    lemma_pruned(other);
    if items.len() > 0 && !one.is_full() {
        lemma_grown_pruned(one, other, items[0]);
        lemma_grown(one, items[0]);
        lemma_grown(other, items[0]);
        lemma_extend_pruned(
            one.grown(items[0]),
            other.grown(items[0]),
            items.subrange(1, items.len() as int),
        );
    }
}

/// Two growing nodes whose frontiers differ only in what was pruned have
/// the same hash.
pub proof fn lemma_same_hash<A: Active>(one: &A, other: &A)
    requires
        one@.pruned() == other@.pruned(),
    ensures
        one.spec_hash() == other.spec_hash(),
{
    one.lemma_view();
    other.lemma_view();
    lemma_pruned(one@);
    lemma_pruned(other@);
}

// The items that a frontier retains.

/// The retained items of subtrees side by side with one more to the right
/// of them are those of the subtrees and then those of the one more.
pub proof fn lemma_items_of_push<Item: GetHash>(trees: Seq<Tree<Item>>, last: Tree<Item>)
    ensures
        items_of(trees.push(last)) == items_of(trees) + last.items(),
{
    assert(trees.push(last).drop_last() == trees);
}

/// The finished form of a full frontier retains the items that the frontier
/// retains, in their order.
pub proof fn lemma_complete_items<Item: GetHash>(frontier: Frontier<Item>)
    requires
        frontier.wf(),
        frontier.is_full(),
    ensures
        frontier.complete().items() == frontier.items(),
    decreases frontier,
{
    match frontier {
        Frontier::Leaf(_) => {},
        Frontier::Node { siblings, focus } => {
            lemma_complete_items(*focus);
            let none = Seq::<Tree<Item>>::empty();
            assert(siblings == none.push(siblings[0]).push(siblings[1]).push(siblings[2]));
            lemma_items_of_push(none, siblings[0]);
            lemma_items_of_push(none.push(siblings[0]), siblings[1]);
            lemma_items_of_push(none.push(siblings[0]).push(siblings[1]), siblings[2]);
            assert(items_of(none) == Seq::<Item>::empty());
        },
    }
}

/// Insertion appends: a frontier that grew by an item retains what it
/// retained, in the same order, and after it the item.
pub proof fn lemma_grown_items<Item: GetHash>(frontier: Frontier<Item>, item: Item)
    requires
        frontier.wf(),
        !frontier.is_full(),
    ensures
        frontier.grown(item).items() == frontier.items().push(item),
    decreases frontier,
{
    match frontier {
        Frontier::Leaf(_) => {},
        Frontier::Node { siblings, focus } => {
            if focus.is_full() {
                lemma_complete_items(*focus);
                lemma_items_of_push(siblings, focus.complete());
                lemma_singleton_items(item, focus.height());
                assert(items_of(siblings) + focus.items() + seq![item] == (items_of(siblings)
                    + focus.items()).push(item));
            } else {
                lemma_grown_items(*focus, item);
                assert(items_of(siblings) + focus.items().push(item) == (items_of(siblings)
                    + focus.items()).push(item));
            }
        },
    }
}

/// The frontier that holds one item alone retains that item and no other.
pub proof fn lemma_singleton_items<Item: GetHash>(item: Item, height: nat)
    ensures
        Frontier::singleton(item, height).items() == seq![item],
    decreases height,
{
    if height > 0 {
        lemma_singleton_items(item, (height - 1) as nat);
        assert(items_of(Seq::<Tree<Item>>::empty()) == Seq::<Item>::empty());
        assert(Seq::<Item>::empty() + seq![item] == seq![item]);
    }
}

/// A frontier into which items were inserted retains what it retained, in
/// the same order, and after it those items in the order of their
/// insertion.
pub proof fn lemma_extend_items<Item: GetHash>(frontier: Frontier<Item>, items: Seq<Item>)
    requires
        frontier.wf(),
    ensures
        frontier.extend(items) matches Some(grown) ==> grown.items() == frontier.items()
            + items,
    decreases items.len(),
{
    if items.len() == 0 {
        assert(frontier.items() + items == frontier.items());
    } else if !frontier.is_full() {
        let rest = items.subrange(1, items.len() as int);
        lemma_grown(frontier, items[0]);
        lemma_grown_items(frontier, items[0]);
        lemma_extend_items(frontier.grown(items[0]), rest);
        assert(frontier.items().push(items[0]) + rest == frontier.items() + items);
    }
}

// How many items a frontier holds.

/// The frontier that holds one item alone takes one place.
pub proof fn lemma_singleton_len<Item: GetHash>(item: Item, height: nat)
    ensures
        Frontier::singleton(item, height).len() == 1,
    decreases height,
{
    if height > 0 {
        lemma_singleton_len(item, (height - 1) as nat);
        lemma_singleton(item, (height - 1) as nat);
        let below = capacity((height - 1) as nat);
        assert(0 * below == 0) by (nonlinear_arith);
    }
}

/// A frontier takes at least one place and at most all the places below its
/// top node, and it is full exactly when it takes them all.
pub proof fn lemma_len<Item: GetHash>(frontier: Frontier<Item>)
    requires
        frontier.wf(),
    ensures
        1 <= frontier.len() <= capacity(frontier.height()),
        frontier.is_full() <==> frontier.len() == capacity(frontier.height()),
    decreases frontier,
{
    match frontier {
        Frontier::Leaf(_) => {},
        Frontier::Node { siblings, focus } => {
            lemma_len(*focus);
            let below = capacity(focus.height());
            let taken = siblings.len();
            assert(taken * below <= 3 * below) by (nonlinear_arith)
                requires
                    taken <= 3,
                    below >= 0,
            ;
            assert(taken < 3 ==> taken * below + below <= 3 * below) by (nonlinear_arith)
                requires
                    taken <= 3,
                    below >= 0,
            ;
        },
    }
}

/// The frontier counts like a number in base four: one that grew by an item
/// takes exactly one more place.
pub proof fn lemma_grown_len<Item: GetHash>(frontier: Frontier<Item>, item: Item)
    requires
        frontier.wf(),
        !frontier.is_full(),
    ensures
        frontier.grown(item).len() == frontier.len() + 1,
    decreases frontier,
{
    match frontier {
        Frontier::Leaf(_) => {},
        Frontier::Node { siblings, focus } => {
            if focus.is_full() {
                lemma_len(*focus);
                lemma_singleton(item, focus.height());
                lemma_singleton_len(item, focus.height());
                let below = capacity(focus.height());
                let taken = siblings.len();
                assert((taken + 1) * below == taken * below + below) by (nonlinear_arith);
            } else {
                lemma_grown_len(*focus, item);
                lemma_grown(*focus, item);
            }
        },
    }
}

/// There is room for exactly as many items as a frontier has places left.
/// Each of them takes one place, and the frontier stays as high as it was.
pub proof fn lemma_extend_len<Item: GetHash>(frontier: Frontier<Item>, items: Seq<Item>)
    requires
        frontier.wf(),
    ensures
        frontier.extend(items) is Some <==> frontier.len() + items.len() <= capacity(
            frontier.height(),
        ),
        frontier.extend(items) matches Some(grown) ==> grown.wf() && grown.height()
            == frontier.height() && grown.len() == frontier.len() + items.len(),
    decreases items.len(),
{
    lemma_len(frontier);
    if items.len() > 0 && !frontier.is_full() {
        lemma_grown(frontier, items[0]);
        lemma_grown_len(frontier, items[0]);
        lemma_extend_len(frontier.grown(items[0]), items.subrange(1, items.len() as int));
    }
}

// The hash as a function of the items.

/// A node has room for at least one item below it.
pub proof fn lemma_capacity(height: nat)
    ensures
        capacity(height) >= 1,
    decreases height,
{
    if height > 0 {
        lemma_capacity((height - 1) as nat);
    }
}

/// The hashes of items side by side are the hashes of the ones and then the
/// hashes of the others.
pub proof fn lemma_hashes_add<Item: GetHash>(items: Seq<Item>, others: Seq<Item>)
    ensures
        hashes(items + others) == hashes(items) + hashes(others),
{
}

/// A part of the items that is not cut short by the height of its subtree,
/// or that has no items to its right, has the hash of the tree over it.
pub proof fn lemma_part_root(
    height: nat,
    before: Seq<hash::Hash>,
    part: Seq<hash::Hash>,
    after: Seq<hash::Hash>,
)
    requires
        1 <= part.len() <= capacity(height),
        part.len() == capacity(height) || after.len() == 0,
    ensures
        part_root(height, before + part + after, before.len()) == tree_root(height, part),
{
    let leaves = before + part + after;
    let from = before.len();
    let to = from + part.len();
    assert(leaves.subrange(from as int, to as int) == part);
}

/// The hash of an entire subtree is the hash of the tree over its items,
/// and the subtree holds as many items as fit at its height.
pub proof fn lemma_entire_tree<Item: GetHash>(tree: Tree<Item>, height: nat)
    requires
        tree.entire(height),
    ensures
        tree.items().len() == capacity(height),
        tree.root(height) == tree_root(height, hashes(tree.items())),
    decreases tree,
{
    match tree {
        Tree::Leaf(_) => {},
        Tree::Node(a, b, c, d) => {
            let below = (height - 1) as nat;
            lemma_capacity(below);
            lemma_entire_tree(*a, below);
            lemma_entire_tree(*b, below);
            lemma_entire_tree(*c, below);
            lemma_entire_tree(*d, below);
            let (ha, hb, hc, hd) = (
                hashes(a.items()),
                hashes(b.items()),
                hashes(c.items()),
                hashes(d.items()),
            );
            let none = Seq::<hash::Hash>::empty();
            let leaves = hashes(tree.items());
            lemma_hashes_add(a.items(), b.items());
            lemma_hashes_add(a.items() + b.items(), c.items());
            lemma_hashes_add(a.items() + b.items() + c.items(), d.items());
            assert(leaves == none + ha + (hb + hc + hd));
            assert(leaves == ha + hb + (hc + hd));
            assert(leaves == (ha + hb) + hc + hd);
            assert(leaves == (ha + hb + hc) + hd + none);
            lemma_part_root(below, none, ha, hb + hc + hd);
            lemma_part_root(below, ha, hb, hc + hd);
            lemma_part_root(below, ha + hb, hc, hd);
            lemma_part_root(below, ha + hb + hc, hd, none);
        },
        Tree::Pruned(_) => {},
    }
}

/// The finished form of a full frontier of which nothing was pruned is
/// entire.
pub proof fn lemma_complete_entire<Item: GetHash>(frontier: Frontier<Item>)
    requires
        frontier.wf(),
        frontier.is_full(),
        frontier.entire(),
    ensures
        frontier.complete().entire(frontier.height()),
    decreases frontier,
{
    match frontier {
        Frontier::Leaf(_) => {},
        Frontier::Node { siblings, focus } => {
            lemma_complete_entire(*focus);
            assert(siblings[0].entire(focus.height()));
            assert(siblings[1].entire(focus.height()));
            assert(siblings[2].entire(focus.height()));
        },
    }
}

/// Nothing is pruned by an insertion: a frontier of which nothing was
/// pruned is still so after it grew by an item, and the frontier that holds
/// one item alone is so.
pub proof fn lemma_grown_entire<Item: GetHash>(frontier: Frontier<Item>, item: Item)
    requires
        frontier.wf(),
        !frontier.is_full(),
        frontier.entire(),
    ensures
        frontier.grown(item).entire(),
    decreases frontier,
{
    match frontier {
        Frontier::Leaf(_) => {},
        Frontier::Node { siblings, focus } => {
            if focus.is_full() {
                lemma_complete_entire(*focus);
                lemma_singleton(item, focus.height());
                lemma_singleton_entire(item, focus.height());
            } else {
                lemma_grown_entire(*focus, item);
                lemma_grown(*focus, item);
            }
        },
    }
}

/// Of the frontier that holds one item alone nothing was pruned.
pub proof fn lemma_singleton_entire<Item: GetHash>(item: Item, height: nat)
    ensures
        Frontier::singleton(item, height).entire(),
    decreases height,
{
    if height > 0 {
        lemma_singleton_entire(item, (height - 1) as nat);
    }
}

/// What the proof for a node with a given number of finished children
/// starts from: nothing of the node was pruned, and its growing child has
/// the hash of the tree over its own items.
spec fn node_premises<Item: GetHash>(siblings: Seq<Tree<Item>>, focus: Frontier<Item>) -> bool {
    &&& forall|i: int| 0 <= i < siblings.len() ==> (#[trigger] siblings[i]).entire(focus.height())
    &&& 1 <= focus.items().len() <= capacity(focus.height())
    &&& focus.root() == tree_root(focus.height(), hashes(focus.items()))
}

/// What the proof for a node with a given number of finished children
/// arrives at: the node has the hash of the tree over its items.
spec fn node_conclusion<Item: GetHash>(siblings: Seq<Tree<Item>>, focus: Frontier<Item>) -> bool {
    let node = Frontier::Node { siblings, focus: Box::new(focus) };
    node.root() == tree_root(node.height(), hashes(node.items()))
}

/// The step for a node with no finished child.
proof fn lemma_entire_node_0<Item: GetHash>(siblings: Seq<Tree<Item>>, focus: Frontier<Item>)
    requires
        siblings.len() == 0,
        node_premises(siblings, focus),
    ensures
        node_conclusion(siblings, focus),
{
    let below = focus.height();
    let none = Seq::<hash::Hash>::empty();
    let hf = hashes(focus.items());
    let leaves = hashes(items_of(siblings) + focus.items());
    lemma_capacity(below);
    lemma_hashes_add(items_of(siblings), focus.items());
    assert(leaves == none + hf + none);
    lemma_part_root(below, none, hf, none);
}

/// The step for a node with one finished child.
proof fn lemma_entire_node_1<Item: GetHash>(siblings: Seq<Tree<Item>>, focus: Frontier<Item>)
    requires
        siblings.len() == 1,
        node_premises(siblings, focus),
    ensures
        node_conclusion(siblings, focus),
{
    let below = focus.height();
    let none = Seq::<hash::Hash>::empty();
    let no_tree = Seq::<Tree<Item>>::empty();
    let hf = hashes(focus.items());
    let leaves = hashes(items_of(siblings) + focus.items());
    let a = siblings[0];
    let ha = hashes(a.items());
    lemma_capacity(below);
    lemma_hashes_add(items_of(siblings), focus.items());
    assert(siblings == no_tree.push(a));
    lemma_items_of_push(no_tree, a);
    lemma_entire_tree(a, below);
    assert(items_of(siblings) == a.items());
    assert(leaves == none + ha + hf);
    assert(leaves == ha + hf + none);
    lemma_part_root(below, none, ha, hf);
    lemma_part_root(below, ha, hf, none);
}

/// The step for a node with two finished children.
proof fn lemma_entire_node_2<Item: GetHash>(siblings: Seq<Tree<Item>>, focus: Frontier<Item>)
    requires
        siblings.len() == 2,
        node_premises(siblings, focus),
    ensures
        node_conclusion(siblings, focus),
{
    let below = focus.height();
    let none = Seq::<hash::Hash>::empty();
    let no_tree = Seq::<Tree<Item>>::empty();
    let hf = hashes(focus.items());
    let leaves = hashes(items_of(siblings) + focus.items());
    let a = siblings[0];
    let b = siblings[1];
    let ha = hashes(a.items());
    let hb = hashes(b.items());
    lemma_capacity(below);
    lemma_hashes_add(items_of(siblings), focus.items());
    assert(siblings == no_tree.push(a).push(b));
    lemma_items_of_push(no_tree, a);
    lemma_items_of_push(no_tree.push(a), b);
    lemma_entire_tree(a, below);
    lemma_entire_tree(b, below);
    assert(items_of(siblings) == a.items() + b.items());
    lemma_hashes_add(a.items(), b.items());
    assert(leaves == none + ha + (hb + hf));
    assert(leaves == ha + hb + hf);
    assert(leaves == (ha + hb) + hf + none);
    lemma_part_root(below, none, ha, hb + hf);
    lemma_part_root(below, ha, hb, hf);
    lemma_part_root(below, ha + hb, hf, none);
}

/// The step for a node with three finished children.
proof fn lemma_entire_node_3<Item: GetHash>(siblings: Seq<Tree<Item>>, focus: Frontier<Item>)
    requires
        siblings.len() == 3,
        node_premises(siblings, focus),
    ensures
        node_conclusion(siblings, focus),
{
    let below = focus.height();
    let none = Seq::<hash::Hash>::empty();
    let no_tree = Seq::<Tree<Item>>::empty();
    let hf = hashes(focus.items());
    let leaves = hashes(items_of(siblings) + focus.items());
    let a = siblings[0];
    let b = siblings[1];
    let c = siblings[2];
    let ha = hashes(a.items());
    let hb = hashes(b.items());
    let hc = hashes(c.items());
    lemma_capacity(below);
    lemma_hashes_add(items_of(siblings), focus.items());
    assert(siblings == no_tree.push(a).push(b).push(c));
    lemma_items_of_push(no_tree, a);
    lemma_items_of_push(no_tree.push(a), b);
    lemma_items_of_push(no_tree.push(a).push(b), c);
    lemma_entire_tree(a, below);
    lemma_entire_tree(b, below);
    lemma_entire_tree(c, below);
    assert(items_of(siblings) == a.items() + b.items() + c.items());
    lemma_hashes_add(a.items(), b.items());
    lemma_hashes_add(a.items() + b.items(), c.items());
    assert(leaves == none + ha + (hb + hc + hf));
    assert(leaves == ha + hb + (hc + hf));
    assert(leaves == (ha + hb) + hc + hf);
    assert(leaves == (ha + hb + hc) + hf + none);
    lemma_part_root(below, none, ha, hb + hc + hf);
    lemma_part_root(below, ha, hb, hc + hf);
    lemma_part_root(below, ha + hb, hc, hf);
    lemma_part_root(below, ha + hb + hc, hf, none);
}

/// A frontier of which nothing was pruned retains every item that it holds.
pub proof fn lemma_entire_items<Item: GetHash>(frontier: Frontier<Item>)
    requires
        frontier.wf(),
        frontier.entire(),
    ensures
        frontier.items().len() == frontier.len(),
    decreases frontier,
{
    match frontier {
        Frontier::Leaf(_) => {},
        Frontier::Node { siblings, focus } => {
            lemma_entire_items(*focus);
            lemma_entire_items_of(siblings, focus.height());
        },
    }
}

/// Subtrees of which nothing was pruned, side by side, retain as many items
/// as fit below all of them.
pub proof fn lemma_entire_items_of<Item: GetHash>(trees: Seq<Tree<Item>>, height: nat)
    requires
        forall|i: int| 0 <= i < trees.len() ==> (#[trigger] trees[i]).entire(height),
    ensures
        items_of(trees).len() == trees.len() * capacity(height),
    decreases trees.len(),
{
    let each = capacity(height);
    if trees.len() > 0 {
        lemma_entire_items_of(trees.drop_last(), height);
        lemma_entire_tree(trees.last(), height);
        let fewer = trees.drop_last().len();
        assert((fewer + 1) * each == fewer * each + each) by (nonlinear_arith);
    } else {
        assert(0 * each == 0) by (nonlinear_arith);
    }
}

/// The hash of a frontier of which nothing was pruned is the hash of the
/// tree over its items.
pub proof fn lemma_entire_root<Item: GetHash>(frontier: Frontier<Item>)
    requires
        frontier.wf(),
        frontier.entire(),
    ensures
        frontier.root() == tree_root(frontier.height(), hashes(frontier.items())),
    decreases frontier,
{
    match frontier {
        Frontier::Leaf(_) => {},
        Frontier::Node { siblings, focus } => {
            lemma_entire_root(*focus);
            lemma_entire_items(*focus);
            lemma_len(*focus);
            if siblings.len() == 0 {
                lemma_entire_node_0(siblings, *focus);
            } else if siblings.len() == 1 {
                lemma_entire_node_1(siblings, *focus);
            } else if siblings.len() == 2 {
                lemma_entire_node_2(siblings, *focus);
            } else {
                lemma_entire_node_3(siblings, *focus);
            }
        },
    }
}

/// The hash of a tree is a function of its items in the order of their
/// insertion: a frontier of which nothing was pruned, made of one item and
/// grown by others, has the hash of the tree over the first item and then
/// the others.
pub proof fn lemma_root_of_items<Item: GetHash>(first: Item, others: Seq<Item>, height: nat)
    ensures
        Frontier::singleton(first, height).extend(others) matches Some(grown) ==> grown.root()
            == tree_root(height, hashes(seq![first] + others)),
{
    let start = Frontier::singleton(first, height);
    lemma_singleton(first, height);
    lemma_singleton_entire(first, height);
    lemma_singleton_items(first, height);
    lemma_extend_entire(start, others);
    lemma_extend_items(start, others);
    lemma_extend_len(start, others);
    if let Some(grown) = start.extend(others) {
        lemma_entire_root(grown);
    }
}

/// Nothing is pruned by insertions.
pub proof fn lemma_extend_entire<Item: GetHash>(frontier: Frontier<Item>, items: Seq<Item>)
    requires
        frontier.wf(),
        frontier.entire(),
    ensures
        frontier.extend(items) matches Some(grown) ==> grown.entire(),
    decreases items.len(),
{
    if items.len() > 0 && !frontier.is_full() {
        lemma_grown(frontier, items[0]);
        lemma_grown_entire(frontier, items[0]);
        lemma_extend_entire(frontier.grown(items[0]), items.subrange(1, items.len() as int));
    }
}

} // verus!
