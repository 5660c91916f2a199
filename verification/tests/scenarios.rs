use frontier::hash;
use frontier::leaf;
use frontier::node;
use frontier::{Active, GetHash};

type Level1 = node::Active<leaf::Active<hash::Hash>>;
type Level2 = node::Active<Level1>;
type Level3 = node::Active<Level2>;

fn accepted<A: Active>(node: A, item: A::Item) -> A {
    match node.insert(item) {
        Ok(node) => node,
        Err(_) => panic!("the node was full"),
    }
}

#[test]
fn fifth_item_is_carried_out_of_a_level() {
    let a = hash::Hash::new(0xa);
    let b = hash::Hash::new(0xb);
    let c = hash::Hash::new(0xc);
    let d = hash::Hash::new(0xd);
    let e = hash::Hash::new(0xe);

    let node = Level1::singleton(a);
    let node = accepted(node, b);
    let node = accepted(node, c);
    let node = accepted(node, d);
    match node.insert(e) {
        Ok(_) => panic!("a node with four items took a fifth"),
        Err((back, carry)) => {
            assert_eq!(back, e);
            match carry {
                Ok(complete) => {
                    let (first, second, third, fourth) = complete.children();
                    assert!(matches!(first, Ok(leaf) if *leaf.item() == a));
                    assert!(matches!(second, Ok(leaf) if *leaf.item() == b));
                    assert!(matches!(third, Ok(leaf) if *leaf.item() == c));
                    assert!(matches!(fourth, Ok(leaf) if *leaf.item() == d));
                    assert_eq!(complete.hash(), hash::Hash::node(1, a, b, c, d));
                },
                Err(_) => panic!("the carry was pruned"),
            }
        },
    }
}

#[test]
fn fifth_item_starts_a_new_focus_one_level_up() {
    let p = hash::Hash::padding();
    let mut node = Level2::singleton(hash::Hash::new(1));
    for n in 2..=5 {
        node = accepted(node, hash::Hash::new(n));
    }
    let left = hash::Hash::node(
        1,
        hash::Hash::new(1),
        hash::Hash::new(2),
        hash::Hash::new(3),
        hash::Hash::new(4),
    );
    let right = hash::Hash::node(1, hash::Hash::new(5), p, p, p);
    assert_eq!(left.value, 0x66aa_ecb6_f439_8de0);
    assert_eq!(right.value, 0xf81d_6895_a53b_4939);
    assert_eq!(node.hash(), hash::Hash::node(2, left, right, p, p));
    assert_eq!(node.hash().value, 0xa22e_3b56_bd40_a922);
}

#[test]
fn hash_of_a_single_item_pads_three_places() {
    let p = hash::Hash::padding();
    let item = hash::Hash::new(7);
    let node = Level1::singleton(item);
    assert_eq!(node.hash(), hash::Hash::node(1, item.hash(), p, p, p));
    assert_eq!(node.hash().value, 0x3812_c0a6_51a6_c25b);
}

#[test]
fn hash_of_a_single_item_pads_at_every_height() {
    let p = hash::Hash::padding();
    let item = hash::Hash::new(7);
    let one = hash::Hash::node(1, item, p, p, p);
    let two = hash::Hash::node(2, one, p, p, p);
    let three = hash::Hash::node(3, two, p, p, p);
    assert_eq!(Level2::singleton(item).hash(), two);
    assert_eq!(Level3::singleton(item).hash(), three);
}

#[test]
fn two_levels_take_sixteen_items() {
    let mut node = Level2::singleton(hash::Hash::new(1));
    for n in 2..=16 {
        node = accepted(node, hash::Hash::new(n));
    }
    let quad = |from: u64| {
        hash::Hash::node(
            1,
            hash::Hash::new(from),
            hash::Hash::new(from + 1),
            hash::Hash::new(from + 2),
            hash::Hash::new(from + 3),
        )
    };
    let expected = hash::Hash::node(2, quad(1), quad(5), quad(9), quad(13));
    assert_eq!(node.hash(), expected);
    match node.insert(hash::Hash::new(17)) {
        Ok(_) => panic!("a node with sixteen items took another"),
        Err((back, carry)) => {
            assert_eq!(back, hash::Hash::new(17));
            match carry {
                Ok(complete) => {
                    assert_eq!(complete.hash(), expected);
                    let (first, _, _, fourth) = complete.children();
                    assert!(matches!(first, Ok(lower) if lower.hash() == quad(1)));
                    assert!(matches!(fourth, Ok(lower) if lower.hash() == quad(13)));
                },
                Err(_) => panic!("the carry was pruned"),
            }
        },
    }
}

#[test]
fn three_levels_take_sixty_four_items() {
    let mut node = Level3::singleton(hash::Hash::new(0));
    for n in 1..64 {
        node = accepted(node, hash::Hash::new(n));
    }
    assert!(node.insert(hash::Hash::new(64)).is_err());
}

#[test]
fn a_carry_out_of_the_top_becomes_the_first_sibling_of_a_taller_node() {
    let p = hash::Hash::padding();
    let mut lower = Level1::singleton(hash::Hash::new(1));
    for n in 2..=4 {
        lower = accepted(lower, hash::Hash::new(n));
    }
    let full = lower.hash();
    match lower.insert(hash::Hash::new(5)) {
        Ok(_) => panic!("a node with four items took a fifth"),
        Err((item, carry)) => {
            let siblings = match frontier::Three::new().push(carry) {
                Ok(siblings) => siblings,
                Err(_) => panic!("the buffer was full"),
            };
            let taller = Level2::from_parts(siblings, Level1::singleton(item));
            assert_eq!(
                taller.hash(),
                hash::Hash::node(2, full, hash::Hash::node(1, hash::Hash::new(5), p, p, p), p, p)
            );
            let mut grown = Level2::singleton(hash::Hash::new(1));
            for n in 2..=5 {
                grown = accepted(grown, hash::Hash::new(n));
            }
            assert_eq!(taller.hash(), grown.hash());
        },
    }
}

fn places(height: usize) -> usize {
    let mut places = 1;
    for _ in 0..height {
        places *= 4;
    }
    places
}

fn tree_over(height: usize, leaves: &[hash::Hash]) -> hash::Hash {
    if height == 0 {
        return leaves[0];
    }
    let each = places(height - 1);
    let part = |from: usize| {
        if from >= leaves.len() {
            hash::Hash::padding()
        } else {
            let to = usize::min(from + each, leaves.len());
            tree_over(height - 1, &leaves[from..to])
        }
    };
    hash::Hash::node(height, part(0), part(each), part(2 * each), part(3 * each))
}

#[test]
fn hash_is_the_hash_of_the_tree_over_the_items() {
    let leaves: Vec<hash::Hash> = (0..64u64).map(|n| hash::Hash::new(1000 + 7 * n)).collect();

    let mut one = Level1::singleton(leaves[0]);
    assert_eq!(one.hash(), tree_over(1, &leaves[..1]));
    for count in 2..=4 {
        one = accepted(one, leaves[count - 1]);
        assert_eq!(one.hash(), tree_over(1, &leaves[..count]));
    }

    let mut two = Level2::singleton(leaves[0]);
    assert_eq!(two.hash(), tree_over(2, &leaves[..1]));
    for count in 2..=16 {
        two = accepted(two, leaves[count - 1]);
        assert_eq!(two.hash(), tree_over(2, &leaves[..count]));
    }

    let mut three = Level3::singleton(leaves[0]);
    assert_eq!(three.hash(), tree_over(3, &leaves[..1]));
    for count in 2..=64 {
        three = accepted(three, leaves[count - 1]);
        assert_eq!(three.hash(), tree_over(3, &leaves[..count]));
    }
}

#[test]
fn a_level_takes_four_times_what_the_level_below_takes() {
    let mut one = Level1::singleton(hash::Hash::new(0));
    let mut taken = 1;
    loop {
        match one.insert(hash::Hash::new(taken)) {
            Ok(grown) => {
                one = grown;
                taken += 1;
            },
            Err(_) => break,
        }
    }
    assert_eq!(taken, 4);

    let mut two = Level2::singleton(hash::Hash::new(0));
    let mut taken = 1;
    loop {
        match two.insert(hash::Hash::new(taken)) {
            Ok(grown) => {
                two = grown;
                taken += 1;
            },
            Err(_) => break,
        }
    }
    assert_eq!(taken, 16);
}
