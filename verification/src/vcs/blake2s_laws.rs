//! What Blake2s does with its words: the mixing step, and what leaves, nodes and salts hash.

use vstd::prelude::*;

use super::blake2s::{
    blake2s_s, flat_words, hash_with, output_s, quarter_s, rotr_s, Blake2sHash,
    Blake2sMerkleHasherGeneric,
};
use super::hasher::MerkleHasherLifted;
use super::zk::{salt_s, salted_s, SaltSeed};
use crate::fields::m31::{M31, P};

verus! {

/// Adding a word can be undone.
proof fn lemma_wrapping_add_injective(a: u32, x: u32, y: u32)
    requires
        a.wrapping_add(x) == a.wrapping_add(y),
    ensures
        x == y,
{
}

proof fn lemma_wrapping_add_left(a: u32, b: u32, x: u32)
    requires
        a.wrapping_add(x) == b.wrapping_add(x),
    ensures
        a == b,
{
}

/// Turning a word right and left again.
pub proof fn lemma_rotr_injective(x: u32, y: u32, n: u32)
    requires
        0 < n < 32,
        rotr_s(x, n) == rotr_s(y, n),
    ensures
        x == y,
{
    let m: u32 = (32 - n) as u32;
    assert(x == y) by (bit_vector)
        requires
            0 < n,
            n < 32,
            m == 32 - n,
            ((x >> n) | (x << m)) == ((y >> n) | (y << m)),
    ;
}

proof fn lemma_xor_injective(a: u32, x: u32, y: u32)
    requires
        a ^ x == a ^ y,
    ensures
        x == y,
{
    assert(x == y) by (bit_vector)
        requires
            a ^ x == a ^ y,
    ;
}

proof fn lemma_xor_left(a: u32, b: u32, x: u32)
    requires
        a ^ x == b ^ x,
    ensures
        a == b,
{
    assert(a == b) by (bit_vector)
        requires
            a ^ x == b ^ x,
    ;
}

/// Both words of the block enter the mixing step: of the same four words, different pairs of words
/// of the block make different results.
pub proof fn lemma_quarter_takes_both_words(
    a: u32,
    b: u32,
    c: u32,
    d: u32,
    x1: u32,
    y1: u32,
    x2: u32,
    y2: u32,
)
    requires
        quarter_s(a, b, c, d, x1, y1) == quarter_s(a, b, c, d, x2, y2),
    ensures
        x1 == x2,
        y1 == y2,
{
    let s = a.wrapping_add(b);
    let (p1, p2) = (s.wrapping_add(x1), s.wrapping_add(x2));
    let (q1, q2) = (rotr_s(d ^ p1, 16), rotr_s(d ^ p2, 16));
    let (r1, r2) = (c.wrapping_add(q1), c.wrapping_add(q2));
    let (t1, t2) = (rotr_s(b ^ r1, 12), rotr_s(b ^ r2, 12));
    let out = quarter_s(a, b, c, d, x1, y1);
    // The last word gives back the turned fourth word, and that the first sum.
    lemma_rotr_injective(q1 ^ out.0, q2 ^ out.0, 8);
    lemma_xor_left(q1, q2, out.0);
    lemma_rotr_injective(d ^ p1, d ^ p2, 16);
    lemma_xor_injective(d, p1, p2);
    lemma_wrapping_add_injective(s, x1, x2);
    lemma_wrapping_add_injective(p1.wrapping_add(t1), y1, y2);
}

/// The mixing step loses nothing: with the same words of the block, different words make different
/// results.
pub proof fn lemma_quarter_injective(
    a1: u32,
    b1: u32,
    c1: u32,
    d1: u32,
    a2: u32,
    b2: u32,
    c2: u32,
    d2: u32,
    x: u32,
    y: u32,
)
    requires
        quarter_s(a1, b1, c1, d1, x, y) == quarter_s(a2, b2, c2, d2, x, y),
    ensures
        a1 == a2,
        b1 == b2,
        c1 == c2,
        d1 == d2,
{
    let out = quarter_s(a1, b1, c1, d1, x, y);
    let (p1, p2) = (a1.wrapping_add(b1).wrapping_add(x), a2.wrapping_add(b2).wrapping_add(x));
    let (q1, q2) = (rotr_s(d1 ^ p1, 16), rotr_s(d2 ^ p2, 16));
    let (r1, r2) = (c1.wrapping_add(q1), c2.wrapping_add(q2));
    let (t1, t2) = (rotr_s(b1 ^ r1, 12), rotr_s(b2 ^ r2, 12));
    lemma_rotr_injective(t1 ^ out.2, t2 ^ out.2, 7);
    lemma_xor_left(t1, t2, out.2);
    lemma_rotr_injective(q1 ^ out.0, q2 ^ out.0, 8);
    lemma_xor_left(q1, q2, out.0);
    lemma_wrapping_add_left(p1.wrapping_add(t1), p2.wrapping_add(t2), y);
    lemma_wrapping_add_left(p1, p2, t1);
    lemma_wrapping_add_left(r1, r2, out.3);
    lemma_wrapping_add_left(c1, c2, q1);
    lemma_rotr_injective(b1 ^ r1, b2 ^ r2, 12);
    lemma_xor_left(b1, b2, r1);
    lemma_rotr_injective(d1 ^ p1, d2 ^ p2, 16);
    lemma_xor_left(d1, d2, p1);
    lemma_wrapping_add_left(a1.wrapping_add(b1), a2.wrapping_add(b2), x);
    lemma_wrapping_add_left(a1, a2, b1);
}

/// The words of a digest, as values that a leaf can absorb.
pub open spec fn as_values(h: Blake2sHash) -> Seq<M31> {
    h.0@.map_values(|w: u32| M31(w))
}

/// A node is hashed as a leaf that absorbs the words of its left child and behind them those of
/// its right child.
pub proof fn lemma_node_is_leaf<const IS_M31_OUTPUT: bool>(left: Blake2sHash, right: Blake2sHash)
    ensures
        Blake2sMerkleHasherGeneric::<IS_M31_OUTPUT>::children_hash(left, right)
            == Blake2sMerkleHasherGeneric::<IS_M31_OUTPUT>::leaf_hash(
            seq![as_values(left), as_values(right)],
        ),
{
    let (a, b) = (as_values(left), as_values(right));
    let pieces = seq![a, b];
    assert(pieces.drop_last() =~= seq![a]);
    assert(seq![a].drop_last() =~= Seq::<Seq<M31>>::empty());
    assert(flat_words(Seq::<Seq<M31>>::empty()) =~= Seq::<u32>::empty());
    assert(seq![a].last() == a);
    assert(flat_words(seq![a]) == flat_words(seq![a].drop_last()) + a.map_values(|m: M31| m.0));
    assert(flat_words(seq![a]) =~= left.0@);
    assert(flat_words(pieces) == flat_words(pieces.drop_last()) + b.map_values(|m: M31| m.0));
    assert(flat_words(pieces) =~= left.0@ + right.0@);
}

/// A leaf hashes its values one after the other, however they are cut into pieces: two pieces in a
/// row are one.
pub proof fn lemma_pieces_join<const IS_M31_OUTPUT: bool>(
    before: Seq<Seq<M31>>,
    a: Seq<M31>,
    b: Seq<M31>,
)
    ensures
        Blake2sMerkleHasherGeneric::<IS_M31_OUTPUT>::leaf_hash(before.push(a).push(b))
            == Blake2sMerkleHasherGeneric::<IS_M31_OUTPUT>::leaf_hash(before.push(a + b)),
{
    let two = before.push(a).push(b);
    let one = before.push(a + b);
    assert(two.drop_last() =~= before.push(a));
    assert(before.push(a).drop_last() =~= before);
    assert(one.drop_last() =~= before);
    let word = |m: M31| m.0;
    assert((a + b).map_values(word) =~= a.map_values(word) + b.map_values(word));
    assert(flat_words(before.push(a)) == flat_words(before) + a.map_values(word));
    assert(flat_words(two) == flat_words(before.push(a)) + b.map_values(word));
    assert(flat_words(one) == flat_words(before) + (a + b).map_values(word));
    assert(flat_words(two) =~= flat_words(one));
}

/// The salt of a leaf is the digest of nine words: those of the seed, and the index of the leaf.
pub proof fn lemma_salt_words<const IS_M31_OUTPUT: bool>(
    seed: SaltSeed,
    index: u32,
    words: Seq<u32>,
)
    requires
        words.len() == 9,
        forall|k: int| 0 <= k < 8 ==> #[trigger] words[k] == seed.0@[k].0,
        words[8] == index,
    ensures
        salt_s::<Blake2sMerkleHasherGeneric<IS_M31_OUTPUT>>(seed, index as int) == hash_with(
            output_s(blake2s_s(words), IS_M31_OUTPUT),
        ),
{
    let input = seed.0@.push(M31(index));
    let pieces = seq![input];
    assert(pieces.drop_last() =~= Seq::<Seq<M31>>::empty());
    assert(flat_words(Seq::<Seq<M31>>::empty()) =~= Seq::<u32>::empty());
    assert(flat_words(pieces) == flat_words(pieces.drop_last()) + input.map_values(|m: M31| m.0));
    assert(flat_words(pieces) =~= words);
}

/// A salted leaf is the digest of sixteen words: those of the leaf, and those of its own salt.
pub proof fn lemma_salted_leaf_words<const IS_M31_OUTPUT: bool>(
    leaves: Seq<Blake2sHash>,
    seed: SaltSeed,
    i: int,
    words: Seq<u32>,
)
    requires
        0 <= i < leaves.len(),
        words.len() == 16,
        forall|k: int| 0 <= k < 8 ==> #[trigger] words[k] == leaves[i].0@[k],
        forall|k: int|
            8 <= k < 16 ==> #[trigger] words[k] == salt_s::<
                Blake2sMerkleHasherGeneric<IS_M31_OUTPUT>,
            >(seed, i).0@[k - 8],
    ensures
        salted_s::<Blake2sMerkleHasherGeneric<IS_M31_OUTPUT>>(leaves, seed)[i] == hash_with(
            output_s(blake2s_s(words), IS_M31_OUTPUT),
        ),
{
    let salt = salt_s::<Blake2sMerkleHasherGeneric<IS_M31_OUTPUT>>(seed, i);
    assert(leaves[i].0@ + salt.0@ =~= words);
}

/// A digest is given as it is, or word for word as the base field element of the same residue.
pub proof fn lemma_output_words(digest: Seq<u32>, i: int)
    requires
        0 <= i < digest.len(),
    ensures
        output_s(digest, false) == digest,
        output_s(digest, true).len() == digest.len(),
        output_s(digest, true)[i] < P,
        (digest[i] - output_s(digest, true)[i]) % P as int == 0,
{
}

} // verus!
