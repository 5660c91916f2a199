use frontier::hash;
use frontier::leaf;
use frontier::node;
use frontier::{Active, GetHash, Height, Three};

type Leaf = leaf::Active<hash::Hash>;
type Level1 = node::Active<Leaf>;
type Level2 = node::Active<Level1>;
type Child0 = Result<leaf::Complete<hash::Hash>, hash::Hash>;

fn word(n: u64) -> hash::Hash {
    hash::Hash::new(n)
}

fn taken<A: Active>(node: A, item: A::Item) -> A {
    match node.insert(item) {
        Ok(node) => node,
        Err(_) => panic!("the node was full"),
    }
}

fn with_children(children: Vec<Child0>, focus: u64) -> Level1 {
    let mut siblings = Three::new();
    for child in children {
        siblings = match siblings.push(child) {
            Ok(siblings) => siblings,
            Err(_) => panic!("more than three children"),
        };
    }
    Level1::from_parts(siblings, Leaf::singleton(word(focus)))
}

#[test]
fn growing_nodes_are_one_above_their_focus() {
    assert_eq!(<Leaf as Height>::height(), 0);
    assert_eq!(<Level1 as Height>::height(), 1);
    assert_eq!(<Level2 as Height>::height(), 2);
    assert_eq!(<node::Active<Level2> as Height>::height(), 3);
    assert_eq!(<Level2 as Height>::height(), 1 + <Level1 as Height>::height());
}

#[test]
fn growing_and_finished_forms_are_equally_high() {
    assert_eq!(
        <Level1 as Height>::height(),
        <<Level1 as Active>::Complete as Height>::height()
    );
    assert_eq!(
        <Level2 as Height>::height(),
        <<Level2 as Active>::Complete as Height>::height()
    );
}

#[test]
fn hash_pads_the_places_after_the_focus() {
    let p = hash::Hash::padding();
    let node = Level1::singleton(word(1));
    assert_eq!(node.hash(), hash::Hash::node(1, word(1), p, p, p));
    let node = taken(node, word(2));
    assert_eq!(node.hash(), hash::Hash::node(1, word(1), word(2), p, p));
    let node = taken(node, word(3));
    assert_eq!(node.hash(), hash::Hash::node(1, word(1), word(2), word(3), p));
    let node = taken(node, word(4));
    assert_eq!(node.hash(), hash::Hash::node(1, word(1), word(2), word(3), word(4)));
    assert_eq!(node.hash().value, 0x66aa_ecb6_f439_8de0);
}

#[test]
fn hash_is_the_same_at_every_call() {
    let node = taken(taken(Level2::singleton(word(1)), word(2)), word(3));
    let first = node.hash();
    assert_eq!(node.hash(), first);
    assert_eq!(node.hash(), first);
}

#[test]
fn hash_is_the_same_for_the_same_items() {
    let build = || {
        let mut node = Level2::singleton(word(100));
        for n in 101..110 {
            node = taken(node, word(n));
        }
        node
    };
    assert_eq!(build().hash(), build().hash());
}

#[test]
fn hash_does_not_depend_on_having_been_asked_before() {
    let mut asked = Level2::singleton(word(1));
    let mut silent = Level2::singleton(word(1));
    for n in 2..=16 {
        let _ = asked.hash();
        asked = taken(asked, word(n));
        silent = taken(silent, word(n));
    }
    assert_eq!(asked.hash(), silent.hash());
}

#[test]
fn hash_active_is_the_hash_of_the_parts() {
    let p = hash::Hash::padding();
    let mut siblings: Three<Child0> = Three::new();
    let focus = Leaf::singleton(word(9));
    assert_eq!(node::hash_active(&siblings, &focus), hash::Hash::node(1, word(9), p, p, p));
    siblings = match siblings.push(Err(word(1))) {
        Ok(siblings) => siblings,
        Err(_) => panic!("the buffer was full"),
    };
    assert_eq!(node::hash_active(&siblings, &focus), hash::Hash::node(1, word(1), word(9), p, p));
    siblings = match siblings.push(Ok(leaf::Complete::new(word(2)))) {
        Ok(siblings) => siblings,
        Err(_) => panic!("the buffer was full"),
    };
    assert_eq!(
        node::hash_active(&siblings, &focus),
        hash::Hash::node(1, word(1), word(2), word(9), p)
    );
    siblings = match siblings.push(Err(word(3))) {
        Ok(siblings) => siblings,
        Err(_) => panic!("the buffer was full"),
    };
    assert_eq!(
        node::hash_active(&siblings, &focus),
        hash::Hash::node(1, word(1), word(2), word(3), word(9))
    );
    assert_eq!(Level1::from_parts(siblings, focus).hash().value, {
        hash::Hash::node(1, word(1), word(2), word(3), word(9)).value
    });
}

#[test]
fn from_parts_keeps_the_order_of_siblings() {
    let p = hash::Hash::padding();
    let node = with_children(vec![Err(word(2)), Err(word(1))], 3);
    assert_eq!(node.hash(), hash::Hash::node(1, word(2), word(1), word(3), p));
    assert_ne!(node.hash(), hash::Hash::node(1, word(1), word(2), word(3), p));
}

#[test]
fn pruning_a_sibling_keeps_the_hash() {
    let retained = with_children(
        vec![Ok(leaf::Complete::new(word(1))), Ok(leaf::Complete::new(word(2)))],
        3,
    );
    let first_pruned = with_children(vec![Err(word(1)), Ok(leaf::Complete::new(word(2)))], 3);
    let both_pruned = with_children(vec![Err(word(1)), Err(word(2))], 3);
    assert_eq!(retained.hash(), first_pruned.hash());
    assert_eq!(retained.hash(), both_pruned.hash());
}

#[test]
fn pruning_a_subtree_keeps_the_hash_above() {
    let lower_hash = hash::Hash::node(1, word(1), word(2), word(3), word(4));
    let lower = node::Complete::from_children_or_else_hash((
        Ok(leaf::Complete::new(word(1))),
        Ok(leaf::Complete::new(word(2))),
        Ok(leaf::Complete::new(word(3))),
        Ok(leaf::Complete::new(word(4))),
    ));
    let retained = match Three::new().push(lower) {
        Ok(siblings) => Level2::from_parts(siblings, Level1::singleton(word(5))),
        Err(_) => panic!("the buffer was full"),
    };
    let pruned = match Three::new().push(Err(lower_hash)) {
        Ok(siblings) => Level2::from_parts(siblings, Level1::singleton(word(5))),
        Err(_) => panic!("the buffer was full"),
    };
    assert_eq!(retained.hash(), pruned.hash());
    let mut grown = Level2::singleton(word(1));
    for n in 2..=5 {
        grown = taken(grown, word(n));
    }
    assert_eq!(grown.hash(), pruned.hash());
}

#[test]
fn pruned_and_retained_nodes_grow_alike() {
    let mut retained = with_children(vec![Ok(leaf::Complete::new(word(1)))], 2);
    let mut pruned = with_children(vec![Err(word(1))], 2);
    assert_eq!(retained.hash(), pruned.hash());
    for n in 3..=4 {
        retained = taken(retained, word(n));
        pruned = taken(pruned, word(n));
        assert_eq!(retained.hash(), pruned.hash());
    }
    match (retained.insert(word(5)), pruned.insert(word(5))) {
        (Err((back, carry)), Err((other_back, other_carry))) => {
            assert_eq!(back, word(5));
            assert_eq!(other_back, word(5));
            let hash_of = |carry: &Result<node::Complete<leaf::Complete<hash::Hash>>, hash::Hash>| {
                match carry {
                    Ok(complete) => complete.hash(),
                    Err(hash) => *hash,
                }
            };
            assert_eq!(hash_of(&carry), hash_of(&other_carry));
            assert_eq!(hash_of(&carry), hash::Hash::node(1, word(1), word(2), word(3), word(4)));
        },
        _ => panic!("a full node took a fifth item"),
    }
}

#[test]
fn alter_reaches_the_last_item() {
    let p = hash::Hash::padding();
    let node = taken(Level1::singleton(word(1)), word(2));
    let (node, out) = node.alter(|item: &mut hash::Hash| {
        let before = *item;
        *item = hash::Hash::new(20);
        before
    });
    assert_eq!(out, Some(word(2)));
    assert_eq!(node.hash(), hash::Hash::node(1, word(1), word(20), p, p));
}

#[test]
fn alter_never_leaves_a_stale_hash() {
    let p = hash::Hash::padding();
    let node = taken(Level2::singleton(word(1)), word(2));
    let before = node.hash();
    assert_eq!(before, hash::Hash::node(2, hash::Hash::node(1, word(1), word(2), p, p), p, p, p));
    let (node, out) = node.alter(|item: &mut hash::Hash| {
        *item = hash::Hash::new(7);
        "changed"
    });
    assert_eq!(out, Some("changed"));
    let after = node.hash();
    assert_eq!(after, hash::Hash::node(2, hash::Hash::node(1, word(1), word(7), p, p), p, p, p));
    assert_ne!(after, before);
    assert_eq!(node.hash(), after);
    let fresh = taken(Level2::singleton(word(1)), word(7));
    assert_eq!(fresh.hash(), after);
}

#[test]
fn alter_that_changes_nothing_keeps_the_hash() {
    let node = taken(Level1::singleton(word(1)), word(2));
    let before = node.hash();
    let (node, out) = node.alter(|item: &mut hash::Hash| item.value);
    assert_eq!(out, Some(2));
    assert_eq!(node.hash(), before);
}

#[test]
fn carry_has_the_hash_of_the_full_node() {
    let node = with_children(vec![Err(word(1)), Err(word(2)), Err(word(3))], 4);
    let expected = hash::Hash::node(1, word(1), word(2), word(3), word(4));
    match node.insert(word(5)) {
        Ok(_) => panic!("a full node took a fifth item"),
        Err((back, carry)) => {
            assert_eq!(back, word(5));
            match carry {
                Ok(complete) => assert_eq!(complete.hash(), expected),
                Err(_) => panic!("the retained leaf was lost"),
            }
        },
    }
}

#[test]
fn carry_takes_over_a_hash_that_was_computed() {
    let node = with_children(vec![Err(word(1)), Err(word(2)), Err(word(3))], 4);
    let known = node.hash();
    match node.insert(word(5)) {
        Ok(_) => panic!("a full node took a fifth item"),
        Err((_, carry)) => match carry {
            Ok(complete) => {
                assert_eq!(complete.hash(), known);
                assert_eq!(
                    complete.hash(),
                    hash::Hash::node(1, word(1), word(2), word(3), word(4))
                );
            },
            Err(_) => panic!("the retained leaf was lost"),
        },
    }
}

#[test]
fn complete_of_a_partial_node_is_its_hash() {
    let node = taken(Level1::singleton(word(1)), word(2));
    let hash = node.hash();
    match node.complete() {
        Ok(_) => panic!("a node with two children was finished"),
        Err(h) => assert_eq!(h, hash),
    }
}

#[test]
fn complete_of_a_full_node_is_retained() {
    let node = taken(taken(taken(Level1::singleton(word(1)), word(2)), word(3)), word(4));
    let hash = node.hash();
    match node.complete() {
        Ok(complete) => {
            assert_eq!(complete.hash(), hash);
            let (a, _, _, d) = complete.children();
            assert!(matches!(a, Ok(leaf) if *leaf.item() == word(1)));
            assert!(matches!(d, Ok(leaf) if *leaf.item() == word(4)));
        },
        Err(_) => panic!("the full node was not retained"),
    }
}

#[test]
fn a_focus_that_never_fills_leaves_the_siblings_alone() {
    let p = hash::Hash::padding();
    let mut node = Level2::singleton(word(1));
    for n in 2..=4 {
        node = taken(node, word(n));
        let lower = match n {
            2 => hash::Hash::node(1, word(1), word(2), p, p),
            3 => hash::Hash::node(1, word(1), word(2), word(3), p),
            _ => hash::Hash::node(1, word(1), word(2), word(3), word(4)),
        };
        assert_eq!(node.hash(), hash::Hash::node(2, lower, p, p, p));
    }
}
