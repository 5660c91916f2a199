//! A buffer of at most three elements that keeps them in the order in which
//! they were pushed.

use vstd::prelude::*;

verus! {

enum Slots<T> {
    _0,
    _1(T),
    _2(T, T),
    _3(T, T, T),
}

/// At most three elements, in the order in which they were pushed.
pub struct Three<T> {
    slots: Slots<T>,
}

/// The elements of a [`Three`], borrowed, under the tag of their number.
pub enum Elems<'a, T> {
    _0,
    _1(&'a T),
    _2(&'a T, &'a T),
    _3(&'a T, &'a T, &'a T),
}

impl<'a, T> Elems<'a, T> {
    /// The elements, first to last.
    pub open spec fn view(self) -> Seq<T> {
        match self {
            Elems::_0 => seq![],
            Elems::_1(a) => seq![*a],
            Elems::_2(a, b) => seq![*a, *b],
            Elems::_3(a, b, c) => seq![*a, *b, *c],
        }
    }
}

/// The four elements of a tuple, first to last.
pub open spec fn four<T>(all: (T, T, T, T)) -> Seq<T> {
    seq![all.0, all.1, all.2, all.3]
}

impl<T> Three<T> {
    /// The elements, first to last.
    pub closed spec fn view(&self) -> Seq<T> {
        match self.slots {
            Slots::_0 => seq![],
            Slots::_1(a) => seq![a],
            Slots::_2(a, b) => seq![a, b],
            Slots::_3(a, b, c) => seq![a, b, c],
        }
    }

    /// There are never more than three elements.
    pub proof fn lemma_len(&self)
        ensures
            self@.len() <= 3,
    {
    }

    /// The empty buffer.
    pub fn new() -> (three: Self)
        ensures
            three@ == Seq::<T>::empty(),
    {
        Three { slots: Slots::_0 }
    }

    /// The elements, borrowed: their number is the tag of the result.
    pub fn elems(&self) -> (elems: Elems<'_, T>)
        ensures
            elems@ == self@,
    {
        match &self.slots {
            Slots::_0 => Elems::_0,
            Slots::_1(a) => Elems::_1(a),
            Slots::_2(a, b) => Elems::_2(a, b),
            Slots::_3(a, b, c) => Elems::_3(a, b, c),
        }
    }

    /// Appends `item` where fewer than three elements are held. A full buffer
    /// gives back its three elements and `item` after them.
    pub fn push(self, item: T) -> (r: Result<Self, (T, T, T, T)>)
        ensures
            match r {
                Ok(three) => self@.len() < 3 && three@ == self@.push(item),
                Err(all) => self@.len() == 3 && four(all) == self@.push(item),
            },
    {
        match self.slots {
            Slots::_0 => Ok(Three { slots: Slots::_1(item) }),
            Slots::_1(a) => Ok(Three { slots: Slots::_2(a, item) }),
            Slots::_2(a, b) => Ok(Three { slots: Slots::_3(a, b, item) }),
            Slots::_3(a, b, c) => Err((a, b, c, item)),
        }
    }
}

} // verus!
