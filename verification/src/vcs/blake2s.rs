//! The Blake2s hash over words, and the Merkle hasher built on it.

use vstd::prelude::*;

use super::hasher::MerkleHasherLifted;
use crate::fields::m31::M31;

verus! {

/// The words of an initial state.
pub open spec fn iv_s() -> Seq<u32> {
    seq![
        0x6A09E667u32,
        0xBB67AE85u32,
        0x3C6EF372u32,
        0xA54FF53Au32,
        0x510E527Fu32,
        0x9B05688Cu32,
        0x1F83D9ABu32,
        0x5BE0CD19u32,
    ]
}

fn iv() -> (r: [u32; 8])
    ensures
        r@ == iv_s(),
{
    let r: [u32; 8] = [
        0x6A09E667,
        0xBB67AE85,
        0x3C6EF372,
        0xA54FF53A,
        0x510E527F,
        0x9B05688C,
        0x1F83D9AB,
        0x5BE0CD19,
    ];
    assert(r@ =~= iv_s());
    r
}

/// The state before anything is absorbed, for digests of 32 bytes without a key.
pub open spec fn initial_s() -> Seq<u32> {
    iv_s().update(0, iv_s()[0] ^ 0x01010020u32)
}

pub fn initial() -> (r: [u32; 8])
    ensures
        r@ == initial_s(),
{
    let mut r = iv();
    let first: u32 = r[0] ^ 0x01010020u32;
    r[0] = first;
    assert(r@ =~= initial_s());
    r
}

/// The order in which a round takes the words of a block.
pub open spec fn sigma_s(r: int) -> Seq<int> {
    if r == 0 {
        seq![0, 1, 2, 3, 4, 5, 6, 7, 8, 9, 10, 11, 12, 13, 14, 15]
    } else if r == 1 {
        seq![14, 10, 4, 8, 9, 15, 13, 6, 1, 12, 0, 2, 11, 7, 5, 3]
    } else if r == 2 {
        seq![11, 8, 12, 0, 5, 2, 15, 13, 10, 14, 3, 6, 7, 1, 9, 4]
    } else if r == 3 {
        seq![7, 9, 3, 1, 13, 12, 11, 14, 2, 6, 5, 10, 4, 0, 15, 8]
    } else if r == 4 {
        seq![9, 0, 5, 7, 2, 4, 10, 15, 14, 1, 11, 12, 6, 8, 3, 13]
    } else if r == 5 {
        seq![2, 12, 6, 10, 0, 11, 8, 3, 4, 13, 7, 5, 15, 14, 1, 9]
    } else if r == 6 {
        seq![12, 5, 1, 15, 14, 13, 4, 10, 0, 7, 6, 3, 9, 2, 8, 11]
    } else if r == 7 {
        seq![13, 11, 7, 14, 12, 1, 3, 9, 5, 0, 15, 4, 8, 6, 2, 10]
    } else if r == 8 {
        seq![6, 15, 14, 9, 11, 3, 0, 8, 12, 2, 13, 7, 1, 4, 10, 5]
    } else {
        seq![10, 2, 8, 4, 7, 6, 1, 5, 15, 11, 9, 14, 3, 12, 13, 0]
    }
}

fn sigma(r: usize) -> (s: [usize; 16])
    requires
        r < 10,
    ensures
        forall|k: int| 0 <= k < 16 ==> #[trigger] s@[k] == sigma_s(r as int)[k],
        forall|k: int| 0 <= k < 16 ==> #[trigger] s@[k] < 16,
{
    if r == 0 {
        [0, 1, 2, 3, 4, 5, 6, 7, 8, 9, 10, 11, 12, 13, 14, 15]
    } else if r == 1 {
        [14, 10, 4, 8, 9, 15, 13, 6, 1, 12, 0, 2, 11, 7, 5, 3]
    } else if r == 2 {
        [11, 8, 12, 0, 5, 2, 15, 13, 10, 14, 3, 6, 7, 1, 9, 4]
    } else if r == 3 {
        [7, 9, 3, 1, 13, 12, 11, 14, 2, 6, 5, 10, 4, 0, 15, 8]
    } else if r == 4 {
        [9, 0, 5, 7, 2, 4, 10, 15, 14, 1, 11, 12, 6, 8, 3, 13]
    } else if r == 5 {
        [2, 12, 6, 10, 0, 11, 8, 3, 4, 13, 7, 5, 15, 14, 1, 9]
    } else if r == 6 {
        [12, 5, 1, 15, 14, 13, 4, 10, 0, 7, 6, 3, 9, 2, 8, 11]
    } else if r == 7 {
        [13, 11, 7, 14, 12, 1, 3, 9, 5, 0, 15, 4, 8, 6, 2, 10]
    } else if r == 8 {
        [6, 15, 14, 9, 11, 3, 0, 8, 12, 2, 13, 7, 1, 4, 10, 5]
    } else {
        [10, 2, 8, 4, 7, 6, 1, 5, 15, 11, 9, 14, 3, 12, 13, 0]
    }
}

pub open spec fn rotr_s(x: u32, n: u32) -> u32 {
    (x >> n) | (x << ((32 - n) as u32))
}

fn rotr(x: u32, n: u32) -> (r: u32)
    requires
        0 < n < 32,
    ensures
        r == rotr_s(x, n),
{
    (x >> n) | (x << (32 - n))
}

/// Four words mixed with two words of the block.
pub open spec fn quarter_s(a: u32, b: u32, c: u32, d: u32, x: u32, y: u32) -> (u32, u32, u32, u32) {
    let a1 = a.wrapping_add(b).wrapping_add(x);
    let d1 = rotr_s(d ^ a1, 16);
    let c1 = c.wrapping_add(d1);
    let b1 = rotr_s(b ^ c1, 12);
    let a2 = a1.wrapping_add(b1).wrapping_add(y);
    let d2 = rotr_s(d1 ^ a2, 8);
    let c2 = c1.wrapping_add(d2);
    let b2 = rotr_s(b1 ^ c2, 7);
    (a2, b2, c2, d2)
}

fn quarter(a: u32, b: u32, c: u32, d: u32, x: u32, y: u32) -> (r: (u32, u32, u32, u32))
    ensures
        r == quarter_s(a, b, c, d, x, y),
{
    let a1 = a.wrapping_add(b).wrapping_add(x);
    let d1 = rotr(d ^ a1, 16);
    let c1 = c.wrapping_add(d1);
    let b1 = rotr(b ^ c1, 12);
    let a2 = a1.wrapping_add(b1).wrapping_add(y);
    let d2 = rotr(d1 ^ a2, 8);
    let c2 = c1.wrapping_add(d2);
    let b2 = rotr(b1 ^ c2, 7);
    (a2, b2, c2, d2)
}

/// The words at four places of the working state, mixed.
#[verifier::opaque]
pub open spec fn mix_s(v: Seq<u32>, a: int, b: int, c: int, d: int, x: u32, y: u32) -> Seq<u32> {
    let q = quarter_s(v[a], v[b], v[c], v[d], x, y);
    v.update(a, q.0).update(b, q.1).update(c, q.2).update(d, q.3)
}

fn mix(v: &mut [u32; 16], a: usize, b: usize, c: usize, d: usize, x: u32, y: u32)
    requires
        a < 16,
        b < 16,
        c < 16,
        d < 16,
    ensures
        final(v)@ == mix_s(old(v)@, a as int, b as int, c as int, d as int, x, y),
{
    proof {
        reveal(mix_s);
    }
    let ghost before = v@;
    let (ra, rb, rc, rd) = quarter(v[a], v[b], v[c], v[d], x, y);
    v[a] = ra;
    v[b] = rb;
    v[c] = rc;
    v[d] = rd;
    assert(v@ =~= mix_s(before, a as int, b as int, c as int, d as int, x, y));
}

/// One round: four columns, and four diagonals.
#[verifier::opaque]
pub open spec fn round_s(v: Seq<u32>, m: Seq<u32>, r: int) -> Seq<u32> {
    let s = sigma_s(r);
    let v = mix_s(v, 0, 4, 8, 12, m[s[0]], m[s[1]]);
    let v = mix_s(v, 1, 5, 9, 13, m[s[2]], m[s[3]]);
    let v = mix_s(v, 2, 6, 10, 14, m[s[4]], m[s[5]]);
    let v = mix_s(v, 3, 7, 11, 15, m[s[6]], m[s[7]]);
    let v = mix_s(v, 0, 5, 10, 15, m[s[8]], m[s[9]]);
    let v = mix_s(v, 1, 6, 11, 12, m[s[10]], m[s[11]]);
    let v = mix_s(v, 2, 7, 8, 13, m[s[12]], m[s[13]]);
    mix_s(v, 3, 4, 9, 14, m[s[14]], m[s[15]])
}

fn round(v: &mut [u32; 16], m: &[u32; 16], r: usize)
    requires
        r < 10,
    ensures
        final(v)@ == round_s(old(v)@, m@, r as int),
{
    proof {
        reveal(round_s);
    }
    let s = sigma(r);
    assert(forall|k: int| 0 <= k < 16 ==> #[trigger] s@[k] == sigma_s(r as int)[k]);
    mix(v, 0, 4, 8, 12, m[s[0]], m[s[1]]);
    mix(v, 1, 5, 9, 13, m[s[2]], m[s[3]]);
    mix(v, 2, 6, 10, 14, m[s[4]], m[s[5]]);
    mix(v, 3, 7, 11, 15, m[s[6]], m[s[7]]);
    mix(v, 0, 5, 10, 15, m[s[8]], m[s[9]]);
    mix(v, 1, 6, 11, 12, m[s[10]], m[s[11]]);
    mix(v, 2, 7, 8, 13, m[s[12]], m[s[13]]);
    mix(v, 3, 4, 9, 14, m[s[14]], m[s[15]]);
}

/// The first `n` rounds.
pub open spec fn rounds_s(v: Seq<u32>, m: Seq<u32>, n: nat) -> Seq<u32>
    decreases n,
{
    if n == 0 {
        v
    } else {
        round_s(rounds_s(v, m, (n - 1) as nat), m, n - 1)
    }
}

/// The working state for a block: the chain value and the initial words, with the byte count and
/// the mark of the last block mixed in.
pub open spec fn working_s(h: Seq<u32>, t: u64, last: bool) -> Seq<u32> {
    let v = h + iv_s();
    let v = v.update(12, v[12] ^ ((t & 0xFFFF_FFFF) as u32)).update(
        13,
        v[13] ^ ((t >> 32u64) as u32),
    );
    if last {
        v.update(14, !v[14])
    } else {
        v
    }
}

/// The chain value after a block, given the number of bytes absorbed with it.
#[verifier::opaque]
pub open spec fn compress_s(h: Seq<u32>, m: Seq<u32>, t: u64, last: bool) -> Seq<u32> {
    let v = rounds_s(working_s(h, t, last), m, 10);
    Seq::new(8, |i: int| h[i] ^ v[i] ^ v[i + 8])
}

fn working(h: &[u32; 8], t: u64, last: bool) -> (r: [u32; 16])
    ensures
        r@ == working_s(h@, t, last),
{
    let low: u32 = (t & 0xFFFF_FFFF) as u32;
    let high: u32 = (t >> 32u64) as u32;
    let w = iv();
    let w6: u32 = if last {
        !w[6]
    } else {
        w[6]
    };
    let r: [u32; 16] = [
        h[0],
        h[1],
        h[2],
        h[3],
        h[4],
        h[5],
        h[6],
        h[7],
        w[0],
        w[1],
        w[2],
        w[3],
        w[4] ^ low,
        w[5] ^ high,
        w6,
        w[7],
    ];
    assert(r@ =~= working_s(h@, t, last));
    r
}

pub fn compress(h: &[u32; 8], m: &[u32; 16], t: u64, last: bool) -> (r: [u32; 8])
    ensures
        r@ == compress_s(h@, m@, t, last),
{
    let mut v = working(h, t, last);
    let ghost v0 = v@;
    for k in 0..10usize
        invariant
            v@ == rounds_s(v0, m@, k as nat),
    {
        round(&mut v, m, k);
    }
    let r: [u32; 8] = [
        h[0] ^ v[0] ^ v[8],
        h[1] ^ v[1] ^ v[9],
        h[2] ^ v[2] ^ v[10],
        h[3] ^ v[3] ^ v[11],
        h[4] ^ v[4] ^ v[12],
        h[5] ^ v[5] ^ v[13],
        h[6] ^ v[6] ^ v[14],
        h[7] ^ v[7] ^ v[15],
    ];
    proof {
        reveal(compress_s);
        assert(r@ =~= compress_s(h@, m@, t, last));
    }
    r
}

/// The byte count of `n` words.
pub open spec fn bytes_of(n: int) -> u64 {
    ((4 * n) % 0x1_0000_0000_0000_0000) as u64
}

/// The chain value after the first `k` blocks of a message, none of them the last.
pub open spec fn chain_s(words: Seq<u32>, k: nat) -> Seq<u32>
    decreases k,
{
    if k == 0 {
        initial_s()
    } else {
        compress_s(
            chain_s(words, (k - 1) as nat),
            words.subrange(16 * (k - 1), 16 * k as int),
            bytes_of(16 * k as int),
            false,
        )
    }
}

/// Words padded with zeros to a block.
pub open spec fn padded_block(words: Seq<u32>) -> Seq<u32> {
    Seq::new(
        16,
        |i: int|
            if i < words.len() {
                words[i]
            } else {
                0u32
            },
    )
}

/// The number of blocks before the last one.
pub open spec fn blocks_before_last(n: nat) -> nat {
    if n == 0 {
        0
    } else {
        ((n - 1) / 16) as nat
    }
}

/// The Blake2s digest of a message of whole words.
pub open spec fn blake2s_s(words: Seq<u32>) -> Seq<u32> {
    let k = blocks_before_last(words.len());
    compress_s(
        chain_s(words, k),
        padded_block(words.skip(16 * k as int)),
        bytes_of(words.len() as int),
        true,
    )
}

/// A word reduced to a base field representative.
pub open spec fn reduced_word(v: u32) -> u32 {
    (v as int % 0x7FFF_FFFF) as u32
}

/// The words of a digest, reduced if the hasher gives base field elements.
pub open spec fn output_s(words: Seq<u32>, is_m31: bool) -> Seq<u32> {
    if is_m31 {
        words.map_values(|v: u32| reduced_word(v))
    } else {
        words
    }
}

/// A digest, as words.
#[derive(Clone, Copy, Debug, PartialEq, Eq)]
pub struct Blake2sHash(pub [u32; 8]);

fn reduce_word(v: u32) -> (r: u32)
    ensures
        r == reduced_word(v),
{
    if v >= 0xFFFF_FFFE {
        v - 0xFFFF_FFFE
    } else if v >= 0x7FFF_FFFF {
        v - 0x7FFF_FFFF
    } else {
        v
    }
}

pub fn output(h: &[u32; 8], is_m31: bool) -> (r: Blake2sHash)
    ensures
        r.0@ == output_s(h@, is_m31),
{
    if is_m31 {
        let r: [u32; 8] = [
            reduce_word(h[0]),
            reduce_word(h[1]),
            reduce_word(h[2]),
            reduce_word(h[3]),
            reduce_word(h[4]),
            reduce_word(h[5]),
            reduce_word(h[6]),
            reduce_word(h[7]),
        ];
        assert(r@ =~= output_s(h@, is_m31));
        Blake2sHash(r)
    } else {
        Blake2sHash(*h)
    }
}

/// All pieces one after the other, as words.
pub open spec fn flat_words(pieces: Seq<Seq<M31>>) -> Seq<u32>
    decreases pieces.len(),
{
    if pieces.len() == 0 {
        Seq::empty()
    } else {
        flat_words(pieces.drop_last()) + pieces.last().map_values(|m: M31| m.0)
    }
}

/// The digest with the given words.
pub open spec fn hash_with(words: Seq<u32>) -> Blake2sHash {
    choose|h: Blake2sHash| h.0@ == words
}

pub proof fn lemma_hash_with(h: Blake2sHash)
    ensures
        hash_with(h.0@) == h,
{
    let g = hash_with(h.0@);
    assert(g.0@ == h.0@);
    assert(g.0 =~= h.0);
}

/// The Blake2s Merkle hasher. Words wait in a buffer until the next one shows that their block is
/// not the last.
pub struct Blake2sMerkleHasherGeneric<const IS_M31_OUTPUT: bool> {
    h: [u32; 8],
    buffer: [u32; 16],
    len: usize,
    count: u64,
    absorbed: Ghost<Seq<Seq<M31>>>,
}

pub type Blake2sMerkleHasher = Blake2sMerkleHasherGeneric<false>;

pub type Blake2sM31MerkleHasher = Blake2sMerkleHasherGeneric<true>;

impl<const IS_M31_OUTPUT: bool> Blake2sMerkleHasherGeneric<IS_M31_OUTPUT> {
    /// The words absorbed so far.
    pub closed spec fn words(self) -> Seq<u32> {
        flat_words(self.absorbed@)
    }

    #[verifier::type_invariant]
    spec fn inv(self) -> bool {
        let words = flat_words(self.absorbed@);
        let k = blocks_before_last(words.len());
        &&& self.len <= 16
        &&& self.len == words.len() - 16 * k
        &&& self.h@ == chain_s(words, k)
        &&& self.count == bytes_of(16 * k as int)
        &&& forall|i: int|
            0 <= i < self.len ==> #[trigger] self.buffer@[i] == words[16 * k + i]
    }
}

/// The chain value depends on the blocks it has seen alone.
proof fn lemma_chain_prefix(a: Seq<u32>, b: Seq<u32>, k: nat)
    requires
        16 * k <= a.len(),
        a.len() <= b.len(),
        forall|i: int| 0 <= i < a.len() ==> a[i] == b[i],
    ensures
        chain_s(a, k) == chain_s(b, k),
    decreases k,
{
    if k > 0 {
        lemma_chain_prefix(a, b, (k - 1) as nat);
        assert(a.subrange(16 * (k - 1), 16 * k as int) =~= b.subrange(16 * (k - 1), 16 * k as int));
    }
}

proof fn lemma_bytes_step(n: int, d: int)
    requires
        0 <= n,
        0 <= d <= 16,
    ensures
        bytes_of(n).wrapping_add((4 * d) as u64) == bytes_of(n + d),
{
    let m = 0x1_0000_0000_0000_0000int;
    vstd::arithmetic::div_mod::lemma_add_mod_noop(4 * n, 4 * d, m);
    vstd::arithmetic::div_mod::lemma_small_mod((4 * d) as nat, m as nat);
    vstd::arithmetic::div_mod::lemma_mod_bound(4 * n, m);
    vstd::arithmetic::div_mod::lemma_mod_bound(4 * n + 4 * d, m);
    assert(4 * (n + d) == 4 * n + 4 * d);
}

/// A running hash of words: the chain value, the waiting words and the bytes behind them.
struct Running {
    h: [u32; 8],
    buffer: [u32; 16],
    len: usize,
    count: u64,
}

/// Whether a running hash has absorbed exactly the given words.
spec fn holds(h: Seq<u32>, buffer: Seq<u32>, len: int, count: u64, words: Seq<u32>) -> bool {
    let k = blocks_before_last(words.len());
    &&& buffer.len() == 16
    &&& h.len() == 8
    &&& len <= 16
    &&& len == words.len() - 16 * k
    &&& h == chain_s(words, k)
    &&& count == bytes_of(16 * k as int)
    &&& forall|i: int| 0 <= i < len ==> #[trigger] buffer[i] == words[16 * k + i]
}

fn absorb_word(state: Running, word: u32, Ghost(words): Ghost<Seq<u32>>) -> (r: Running)
    requires
        holds(state.h@, state.buffer@, state.len as int, state.count, words),
    ensures
        holds(r.h@, r.buffer@, r.len as int, r.count, words.push(word)),
{
    let ghost k = blocks_before_last(words.len());
    let ghost next = words.push(word);
    let mut h = state.h;
    let mut buffer = state.buffer;
    let mut len = state.len;
    let mut count = state.count;
    proof {
        lemma_chain_prefix(words, next, k);
    }
    if len == 16 {
        proof {
            lemma_bytes_step(16 * k as int, 16);
            assert(buffer@ =~= next.subrange(16 * k as int, 16 * (k + 1) as int));
            assert(blocks_before_last(next.len()) == k + 1);
        }
        count = count.wrapping_add(64);
        h = compress(&h, &buffer, count, false);
        len = 0;
    } else {
        assert(blocks_before_last(next.len()) == k);
    }
    let ghost b0 = buffer@;
    buffer[len] = word;
    assert(buffer@ == b0.update(len as int, word));
    Running { h, buffer, len: len + 1, count }
}

fn absorb_words(state: Running, values: &[M31], Ghost(words): Ghost<Seq<u32>>) -> (r: Running)
    requires
        holds(state.h@, state.buffer@, state.len as int, state.count, words),
    ensures
        holds(
            r.h@,
            r.buffer@,
            r.len as int,
            r.count,
            words + values@.map_values(|m: M31| m.0),
        ),
{
    let n: usize = values.len();
    let ghost all = values@.map_values(|m: M31| m.0);
    let mut state = state;
    assert(words + all.take(0) =~= words);
    for i in 0..n
        invariant
            n == values.len(),
            all == values@.map_values(|m: M31| m.0),
            holds(state.h@, state.buffer@, state.len as int, state.count, words + all.take(i as int)),
    {
        state = absorb_word(state, values[i].0, Ghost(words + all.take(i as int)));
        assert((words + all.take(i as int)).push(all[i as int]) =~= words + all.take(i + 1));
    }
    assert(all.take(n as int) =~= all);
    state
}

fn last_block(buffer: &[u32; 16], len: usize) -> (r: [u32; 16])
    requires
        len <= 16,
    ensures
        r@ == padded_block(buffer@.take(len as int)),
{
    let mut r: [u32; 16] = *buffer;
    let mut i: usize = len;
    while i < 16
        invariant
            len <= i <= 16,
            r@.len() == 16,
            forall|j: int| 0 <= j < len ==> r@[j] == buffer@[j],
            forall|j: int| len <= j < i ==> r@[j] == 0,
        decreases 16 - i,
    {
        r[i] = 0;
        i = i + 1;
    }
    assert(r@ =~= padded_block(buffer@.take(len as int)));
    r
}

fn digest(state: Running, Ghost(words): Ghost<Seq<u32>>) -> (r: [u32; 8])
    requires
        holds(state.h@, state.buffer@, state.len as int, state.count, words),
    ensures
        r@ == blake2s_s(words),
{
    let ghost k = blocks_before_last(words.len());
    let block = last_block(&state.buffer, state.len);
    let t = state.count.wrapping_add(4 * state.len as u64);
    proof {
        lemma_bytes_step(16 * k as int, state.len as int);
        assert(state.buffer@.take(state.len as int) =~= words.skip(16 * k as int));
    }
    compress(&state.h, &block, t, true)
}

/// The digest of a message of words.
pub fn blake2s_words(message: &[M31], is_m31: bool) -> (r: Blake2sHash)
    ensures
        r.0@ == output_s(blake2s_s(message@.map_values(|m: M31| m.0)), is_m31),
{
    let state = Running { h: initial(), buffer: [0; 16], len: 0, count: 0 };
    let ghost none = Seq::<u32>::empty();
    let state = absorb_words(state, message, Ghost(none));
    let ghost all = message@.map_values(|m: M31| m.0);
    assert(none + all =~= all);
    let h = digest(state, Ghost(all));
    output(&h, is_m31)
}

impl<const IS_M31_OUTPUT: bool> MerkleHasherLifted for Blake2sMerkleHasherGeneric<IS_M31_OUTPUT> {
    type Hash = Blake2sHash;

    closed spec fn pieces(self) -> Seq<Seq<M31>> {
        self.absorbed@
    }

    open spec fn leaf_hash(pieces: Seq<Seq<M31>>) -> Blake2sHash {
        hash_with(output_s(blake2s_s(flat_words(pieces)), IS_M31_OUTPUT))
    }

    open spec fn children_hash(left: Blake2sHash, right: Blake2sHash) -> Blake2sHash {
        hash_with(output_s(blake2s_s(left.0@ + right.0@), IS_M31_OUTPUT))
    }

    fn fresh() -> (r: Self) {
        Blake2sMerkleHasherGeneric {
            h: initial(),
            buffer: [0; 16],
            len: 0,
            count: 0,
            absorbed: Ghost(Seq::empty()),
        }
    }

    fn duplicate(&self) -> (r: Self) {
        proof {
            use_type_invariant(self);
        }
        Blake2sMerkleHasherGeneric {
            h: self.h,
            buffer: self.buffer,
            len: self.len,
            count: self.count,
            absorbed: self.absorbed,
        }
    }

    fn update_leaf(&mut self, column_values: &[M31]) {
        proof {
            use_type_invariant(&*self);
        }
        let ghost before = self.absorbed@;
        let ghost after = before.push(column_values@);
        let state = Running {
            h: self.h,
            buffer: self.buffer,
            len: self.len,
            count: self.count,
        };
        let state = absorb_words(state, column_values, Ghost(flat_words(before)));
        assert(after.drop_last() =~= before);
        *self =
        Blake2sMerkleHasherGeneric {
            h: state.h,
            buffer: state.buffer,
            len: state.len,
            count: state.count,
            absorbed: Ghost(after),
        };
    }

    fn finalize(self) -> (r: Blake2sHash) {
        proof {
            use_type_invariant(&self);
        }
        let state = Running { h: self.h, buffer: self.buffer, len: self.len, count: self.count };
        let h = digest(state, Ghost(flat_words(self.absorbed@)));
        let r = output(&h, IS_M31_OUTPUT);
        proof {
            lemma_hash_with(r);
        }
        r
    }

    fn hash_children(left: Blake2sHash, right: Blake2sHash) -> (r: Blake2sHash) {
        let block: [u32; 16] = [
            left.0[0],
            left.0[1],
            left.0[2],
            left.0[3],
            left.0[4],
            left.0[5],
            left.0[6],
            left.0[7],
            right.0[0],
            right.0[1],
            right.0[2],
            right.0[3],
            right.0[4],
            right.0[5],
            right.0[6],
            right.0[7],
        ];
        let h = compress(&initial(), &block, 64, true);
        let r = output(&h, IS_M31_OUTPUT);
        proof {
            let words = left.0@ + right.0@;
            assert(blocks_before_last(words.len()) == 0);
            assert(words.skip(0) =~= words);
            assert(padded_block(words.skip(0)) =~= block@);
            assert(bytes_of(16) == 64);
            lemma_hash_with(r);
        }
        r
    }
}

} // verus!
