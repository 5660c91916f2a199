use frontier::{Elems, Three};

fn tags(three: &Three<u32>) -> Vec<u32> {
    match three.elems() {
        Elems::_0 => vec![],
        Elems::_1(a) => vec![*a],
        Elems::_2(a, b) => vec![*a, *b],
        Elems::_3(a, b, c) => vec![*a, *b, *c],
    }
}

fn pushed(three: Three<u32>, item: u32) -> Three<u32> {
    match three.push(item) {
        Ok(three) => three,
        Err(_) => panic!("the buffer was full"),
    }
}

#[test]
fn new_buffer_is_empty() {
    let three: Three<u32> = Three::new();
    assert!(matches!(three.elems(), Elems::_0));
}

#[test]
fn push_keeps_the_order() {
    let three = Three::new();
    let three = pushed(three, 10);
    assert_eq!(tags(&three), vec![10]);
    let three = pushed(three, 20);
    assert_eq!(tags(&three), vec![10, 20]);
    let three = pushed(three, 30);
    assert_eq!(tags(&three), vec![10, 20, 30]);
}

#[test]
fn push_on_a_full_buffer_gives_all_four_back() {
    let three = pushed(pushed(pushed(Three::new(), 1), 2), 3);
    match three.push(4) {
        Ok(_) => panic!("a fourth element was taken"),
        Err(all) => assert_eq!(all, (1, 2, 3, 4)),
    }
}

#[test]
fn elems_can_be_read_twice() {
    let three = pushed(pushed(Three::new(), 5), 6);
    assert_eq!(tags(&three), vec![5, 6]);
    assert_eq!(tags(&three), vec![5, 6]);
}
