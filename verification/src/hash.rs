//! The hash primitive: a 64-bit digest, the digest that pads the place of a
//! child that does not exist yet, and the combination of four child digests
//! under the height of their parent.
//!
//! The combination is a word-wise multiplicative mixing function. It is fast
//! and deterministic, and two heights never give the same digest for the same
//! four children; it makes no claim to resist a search for collisions.

use vstd::prelude::*;

verus! {

/// The accumulator before any word is absorbed.
pub const SEED: u64 = 0xcbf2_9ce4_8422_2325;

/// The odd multiplier of a mixing step.
pub const PRIME: u64 = 0x0000_0100_0000_01b3;

/// The inverse of [`PRIME`] modulo 2^64.
pub const PRIME_INVERSE: u64 = 0xce96_5057_aff6_957b;

/// The word that the padding digest holds.
pub const PADDING: u64 = 0;

/// One mixing step: the accumulator after it absorbed `word`.
pub open spec fn mix(acc: u64, word: u64) -> u64 {
    (acc ^ word).wrapping_mul(PRIME)
}

/// The digest word of a node at `height` over four child words, left to right.
/// The height is absorbed first, then the children in order.
pub open spec fn node_word(height: nat, a: u64, b: u64, c: u64, d: u64) -> u64 {
    mix(mix(mix(mix(mix(SEED, height as u64), a), b), c), d)
}

/// A mixing step can be undone: multiplying by the inverse of the multiplier
/// gives back the accumulator combined with the word.
pub proof fn lemma_mix_inverts(acc: u64, word: u64)
    ensures
        mix(acc, word).wrapping_mul(PRIME_INVERSE) == acc ^ word,
{
    let x: u64 = acc ^ word;
    assert(x.wrapping_mul(PRIME).wrapping_mul(PRIME_INVERSE) == x) by (bit_vector);
}

/// Two mixing steps with the same result and the same word started from the
/// same accumulator.
pub proof fn lemma_mix_same_word(acc1: u64, acc2: u64, word: u64)
    requires
        mix(acc1, word) == mix(acc2, word),
    ensures
        acc1 == acc2,
{
    lemma_mix_inverts(acc1, word);
    lemma_mix_inverts(acc2, word);
    assert(acc1 ^ word == acc2 ^ word ==> acc1 == acc2) by (bit_vector);
}

/// Two mixing steps with the same result and the same accumulator absorbed
/// the same word.
pub proof fn lemma_mix_same_acc(acc: u64, word1: u64, word2: u64)
    requires
        mix(acc, word1) == mix(acc, word2),
    ensures
        word1 == word2,
{
    lemma_mix_inverts(acc, word1);
    lemma_mix_inverts(acc, word2);
    assert(acc ^ word1 == acc ^ word2 ==> word1 == word2) by (bit_vector);
}

fn absorb(acc: u64, word: u64) -> (out: u64)
    ensures
        out == mix(acc, word),
{
    (acc ^ word).wrapping_mul(PRIME)
}

/// A digest. Any 64-bit word is one.
#[derive(Clone, Copy, PartialEq, Eq, Structural, Debug)]
pub struct Hash {
    pub value: u64,
}

impl Hash {
    /// The digest that holds `value`.
    pub fn new(value: u64) -> (h: Hash)
        ensures
            h == (Hash { value }),
    {
        Hash { value }
    }

    /// The digest that stands in the place of a child that does not exist.
    pub open spec fn spec_padding() -> Hash {
        Hash { value: PADDING }
    }

    /// The digest of a node at `height` whose children, left to right, have
    /// the digests `a`, `b`, `c` and `d`.
    pub open spec fn spec_node(height: nat, a: Hash, b: Hash, c: Hash, d: Hash) -> Hash {
        Hash { value: node_word(height, a.value, b.value, c.value, d.value) }
    }

    /// The digest that stands in the place of a child that does not exist.
    pub fn padding() -> (h: Hash)
        ensures
            h == Self::spec_padding(),
    {
        Hash { value: PADDING }
    }

    /// Combines the digests of four children, left to right, into the digest
    /// of their parent at `height`.
    pub fn node(height: usize, a: Hash, b: Hash, c: Hash, d: Hash) -> (h: Hash)
        ensures
            h == Self::spec_node(height as nat, a, b, c, d),
    {
        let tag: u64 = absorb(SEED, height as u64);
        let with_a: u64 = absorb(tag, a.value);
        let with_b: u64 = absorb(with_a, b.value);
        let with_c: u64 = absorb(with_b, c.value);
        Hash { value: absorb(with_c, d.value) }
    }

    /// Domain separation: the same four children never have the same parent
    /// digest at two different heights.
    pub proof fn lemma_heights_are_separated(
        height1: nat,
        height2: nat,
        a: Hash,
        b: Hash,
        c: Hash,
        d: Hash,
    )
        requires
            height1 <= u64::MAX,
            height2 <= u64::MAX,
            Self::spec_node(height1, a, b, c, d) == Self::spec_node(height2, a, b, c, d),
        ensures
            height1 == height2,
    {
        let tag1: u64 = mix(SEED, height1 as u64);
        let tag2: u64 = mix(SEED, height2 as u64);
        lemma_mix_same_word(
            mix(mix(mix(tag1, a.value), b.value), c.value),
            mix(mix(mix(tag2, a.value), b.value), c.value),
            d.value,
        );
        lemma_mix_same_word(mix(mix(tag1, a.value), b.value), mix(mix(tag2, a.value), b.value), c.value);
        lemma_mix_same_word(mix(tag1, a.value), mix(tag2, a.value), b.value);
        lemma_mix_same_word(tag1, tag2, a.value);
        lemma_mix_same_acc(SEED, height1 as u64, height2 as u64);
    }
}

} // verus!
