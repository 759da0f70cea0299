//! What a transform pass does to the values: tile by tile, several layers each.

use vstd::arithmetic::div_mod::{
    lemma_div_denominator, lemma_fundamental_div_mod, lemma_fundamental_div_mod_converse,
    lemma_mod_bound, lemma_mod_mod,
};
use vstd::arithmetic::power2::{lemma_pow2_adds, lemma_pow2_pos, pow2};
use vstd::prelude::*;

use super::fft::{
    lemma_tiles_cover, place_row, place_tile, tile_base, tile_place, PassParams,
};
use crate::fields::m31::M31;
use crate::fields::Field;
use crate::poly::fft::{layer_s, low_half};
use crate::utils::{lemma_pow2_bound, lemma_pow2_double, lemma_pow2_le, pow2_usize};

verus! {

/// A place of a tile: it lies among the values, and its tile, row and run position are its own.
proof fn lemma_place(n: nat, i0: nat, a: nat, c_log: nat, gid: int, r: int, c: int)
    requires
        c_log <= i0,
        i0 + a <= n,
        0 <= gid < pow2((n - a - c_log) as nat),
        0 <= r < pow2(a),
        0 <= c < pow2(c_log),
    ensures
        ({
            let g = tile_place(i0, a, c_log, gid, r, c);
            let hi = gid / pow2((i0 - c_log) as nat) as int;
            &&& 0 <= g < pow2(n)
            &&& place_tile(i0, a, c_log, g) == gid
            &&& place_row(i0, a, g) == r
            &&& g % pow2(c_log) as int == c
            &&& g / pow2(i0) as int == hi * pow2(a) + r
            &&& 0 <= hi < pow2((n - a - i0) as nat)
        }),
{
    let m = (i0 - c_log) as nat;
    let t = (n - a - i0) as nat;
    lemma_pow2_pos(i0);
    lemma_pow2_pos(a);
    lemma_pow2_pos(m);
    lemma_pow2_pos(c_log);
    lemma_pow2_pos(t);
    lemma_pow2_adds(i0, a);
    lemma_pow2_adds(c_log, m);
    lemma_pow2_adds(t, m);
    lemma_pow2_adds(t, i0 + a);
    assert(t + m == n - a - c_log);
    assert(t + (i0 + a) == n);
    let (pi, pa, pm, pc, pt) = (
        pow2(i0) as int,
        pow2(a) as int,
        pow2(m) as int,
        pow2(c_log) as int,
        pow2(t) as int,
    );
    let hi = gid / pm;
    let mid = gid % pm;
    lemma_fundamental_div_mod(gid, pm);
    lemma_mod_bound(gid, pm);
    assert(0 <= hi < pt) by (nonlinear_arith)
        requires
            0 <= gid < pt * pm,
            gid == pm * hi + mid,
            0 <= mid < pm,
            pm > 0,
    ;
    let low = mid * pc + c;
    assert(0 <= low < pi) by (nonlinear_arith)
        requires
            0 <= mid <= pm - 1,
            0 <= c <= pc - 1,
            low == mid * pc + c,
            pi == pc * pm,
    ;
    let u = hi * pa + r;
    assert(0 <= u < pt * pa) by (nonlinear_arith)
        requires
            0 <= hi <= pt - 1,
            0 <= r <= pa - 1,
            u == hi * pa + r,
            pa > 0,
    ;
    let g = tile_place(i0, a, c_log, gid, r, c);
    assert(g == u * pi + low) by (nonlinear_arith)
        requires
            g == hi * (pi * pa) + mid * pc + r * pi + c,
            u == hi * pa + r,
            low == mid * pc + c,
    ;
    assert(0 <= g < pt * (pi * pa)) by (nonlinear_arith)
        requires
            0 <= u <= pt * pa - 1,
            0 <= low <= pi - 1,
            g == u * pi + low,
            pi > 0,
    ;
    lemma_fundamental_div_mod_converse(g, pi, u, low);
    lemma_fundamental_div_mod_converse(u, pa, hi, r);
    lemma_div_denominator(g, pi, pa);
    lemma_fundamental_div_mod_converse(low, pc, mid, c);
    lemma_mod_mod(g, pc, pm);
    assert(hi * pm + mid == gid) by (nonlinear_arith)
        requires
            gid == pm * hi + mid,
    ;
}

/// In layer `i0 + j`, the half and the block of a place follow from its row and tile.
proof fn lemma_place_layer(i0: nat, a: nat, j: nat, g: int, hi: int, r: int)
    requires
        j < a,
        g >= 0,
        hi >= 0,
        0 <= r < pow2(a),
        g / pow2(i0) as int == hi * pow2(a) + r,
    ensures
        low_half(g, i0 + j) == ((r / pow2(j) as int) % 2 == 0),
        g / pow2(i0 + j + 1) as int == hi * pow2((a - 1 - j) as nat) + r / pow2(j + 1) as int,
{
    let u = hi * pow2(a) + r;
    let (pi, pj, pj1) = (pow2(i0) as int, pow2(j) as int, pow2(j + 1) as int);
    let k1 = pow2((a - 1 - j) as nat) as int;
    lemma_pow2_pos(i0);
    lemma_pow2_pos(j);
    lemma_pow2_pos(j + 1);
    lemma_pow2_adds(i0, j);
    lemma_pow2_adds(i0, j + 1);
    lemma_pow2_adds(j + 1, (a - 1 - j) as nat);
    lemma_pow2_double(j + 1);
    assert(j + 1 + (a - 1 - j) == a);
    lemma_div_denominator(g, pi, pj);
    lemma_div_denominator(g, pi, pj1);
    let q = r / pj;
    lemma_fundamental_div_mod(r, pj);
    lemma_mod_bound(r, pj);
    assert(u == pj * (2 * (hi * k1) + q) + r % pj) by (nonlinear_arith)
        requires
            u == hi * (pj1 * k1) + r,
            pj1 == 2 * pj,
            r == pj * q + r % pj,
    ;
    lemma_fundamental_div_mod_converse(u, pj, 2 * (hi * k1) + q, r % pj);
    let q1 = r / pj1;
    lemma_fundamental_div_mod(r, pj1);
    lemma_mod_bound(r, pj1);
    assert(u == pj1 * (hi * k1 + q1) + r % pj1) by (nonlinear_arith)
        requires
            u == hi * (pj1 * k1) + r,
            r == pj1 * q1 + r % pj1,
    ;
    lemma_fundamental_div_mod_converse(u, pj1, hi * k1 + q1, r % pj1);
}

/// The partner of a row in step `j` is a row of the tile.
proof fn lemma_partner_row(a: nat, j: nat, r: int)
    requires
        j < a,
        0 <= r < pow2(a),
    ensures
        (r / pow2(j) as int) % 2 == 0 ==> r + pow2(j) < pow2(a),
        (r / pow2(j) as int) % 2 != 0 ==> r >= pow2(j),
{
    let pj = pow2(j) as int;
    lemma_pow2_pos(j);
    lemma_pow2_adds(j, (a - j) as nat);
    lemma_pow2_double((a - j) as nat);
    let k = pow2((a - j) as nat) as int;
    let t = r / pj;
    lemma_fundamental_div_mod(r, pj);
    lemma_mod_bound(r, pj);
    assert(0 <= t < k) by (nonlinear_arith)
        requires
            0 <= r < pj * k,
            r == pj * t + r % pj,
            0 <= r % pj < pj,
            pj > 0,
    ;
    if t % 2 == 0 {
        assert(t <= k - 2);
        assert(r + pj < pj * k) by (nonlinear_arith)
            requires
                r == pj * t + r % pj,
                0 <= r % pj < pj,
                t <= k - 2,
                pj > 0,
        ;
    } else {
        assert(r >= pj) by (nonlinear_arith)
            requires
                r == pj * t + r % pj,
                0 <= r % pj,
                t >= 1,
                pj > 0,
        ;
    }
}

/// The place of element `l` of a tile.
pub open spec fn element_place(p: PassParams, gid: int, l: int) -> int {
    tile_place(
        p.i0 as nat,
        p.n_layers as nat,
        p.c_log as nat,
        gid,
        l / pow2(p.c_log as nat) as int,
        l % pow2(p.c_log as nat) as int,
    )
}

/// The twiddles of step `j` of a pass over `2^n` values.
pub open spec fn step_twiddles(p: PassParams, packed: Seq<u32>, n: nat, j: int) -> Seq<M31> {
    Seq::new(
        pow2((n - 1 - p.i0 - j) as nat),
        |h: int| M31(packed[p.twiddle_offsets@[j] + h]),
    )
}

/// Whether a pass over `2^n` values can be run.
pub open spec fn pass_fits(p: PassParams, packed: Seq<u32>, n: nat, src: int) -> bool {
    &&& n <= 31
    &&& 0 < p.n_layers <= 16
    &&& p.i0 + p.n_layers <= n
    &&& p.c_log <= p.i0
    &&& p.n_layers + p.c_log <= 31
    &&& p.src_len <= src
    &&& forall|j: int|
        0 <= j < p.n_layers ==> (#[trigger] p.twiddle_offsets@[j]) + pow2((n - 1 - p.i0 - j) as nat)
            <= packed.len()
}

/// The layer of the whole values that step `s` of a pass applies.
pub open spec fn step_layer(p: PassParams, s: int) -> int {
    if p.descending != 0 {
        p.n_layers - 1 - s
    } else {
        s
    }
}

/// The whole values after the first `s` steps of a pass.
pub open spec fn after_steps(
    p: PassParams,
    packed: Seq<u32>,
    n: nat,
    v: Seq<M31>,
    s: nat,
) -> Seq<M31>
    decreases s,
{
    if s == 0 {
        v
    } else {
        let j = step_layer(p, s - 1);
        layer_s(
            after_steps(p, packed, n, v, (s - 1) as nat),
            (p.i0 + j) as nat,
            step_twiddles(p, packed, n, j),
            p.inverse != 0,
        )
    }
}

proof fn lemma_steps_len(p: PassParams, packed: Seq<u32>, n: nat, v: Seq<M31>, s: nat)
    ensures
        after_steps(p, packed, n, v, s).len() == v.len(),
    decreases s,
{
    if s > 0 {
        lemma_steps_len(p, packed, n, v, (s - 1) as nat);
    }
}

/// Whether a tile holds the values at its places.
spec fn holds(p: PassParams, gid: int, tile: Seq<M31>, w: Seq<M31>) -> bool {
    &&& tile.len() == pow2((p.n_layers + p.c_log) as nat)
    &&& forall|l: int| 0 <= l < tile.len() ==> #[trigger] tile[l] == w[element_place(p, gid, l)]
}

/// The row and run position of an element of a tile.
proof fn lemma_element(a: nat, c_log: nat, l: int)
    requires
        0 <= l < pow2(a + c_log),
    ensures
        0 <= l / pow2(c_log) as int,
        l / (pow2(c_log) as int) < pow2(a),
        0 <= l % pow2(c_log) as int,
        l % (pow2(c_log) as int) < pow2(c_log),
        l == (l / pow2(c_log) as int) * pow2(c_log) + l % pow2(c_log) as int,
{
    let pc = pow2(c_log) as int;
    lemma_pow2_pos(c_log);
    lemma_pow2_adds(a, c_log);
    lemma_fundamental_div_mod(l, pc);
    lemma_mod_bound(l, pc);
    let r = l / pc;
    assert(0 <= r < pow2(a)) by (nonlinear_arith)
        requires
            0 <= l < pow2(a) * pc,
            l == pc * r + l % pc,
            0 <= l % pc < pc,
            pc > 0,
    ;
    assert(pc * r == r * pc) by (nonlinear_arith);
}

/// The element in the same run position, `d` rows on.
proof fn lemma_shifted_element(c_log: nat, l: int, d: int)
    requires
        0 <= l,
        0 <= l + d * pow2(c_log),
    ensures
        (l + d * pow2(c_log)) / pow2(c_log) as int == l / pow2(c_log) as int + d,
        (l + d * pow2(c_log)) % pow2(c_log) as int == l % pow2(c_log) as int,
{
    let pc = pow2(c_log) as int;
    lemma_pow2_pos(c_log);
    lemma_fundamental_div_mod(l, pc);
    lemma_mod_bound(l, pc);
    let q = l / pc + d;
    assert(l + d * pc == pc * q + l % pc) by (nonlinear_arith)
        requires
            l == pc * (l / pc) + l % pc,
            q == l / pc + d,
    ;
    lemma_fundamental_div_mod_converse(l + d * pc, pc, q, l % pc);
}

/// One step of a pass on a tile.
fn tile_step(
    p: &PassParams,
    packed: &Vec<u32>,
    n_log: u32,
    gid: usize,
    j: u32,
    tile: &Vec<M31>,
    Ghost(w): Ghost<Seq<M31>>,
) -> (r: Vec<M31>)
    requires
        exists|src: int| pass_fits(*p, packed@, n_log as nat, src),
        gid < pow2((n_log - p.n_layers - p.c_log) as nat),
        j < p.n_layers,
        w.len() == pow2(n_log as nat),
        holds(*p, gid as int, tile@, w),
    ensures
        holds(
            *p,
            gid as int,
            r@,
            layer_s(
                w,
                (p.i0 + j) as nat,
                step_twiddles(*p, packed@, n_log as nat, j as int),
                p.inverse != 0,
            ),
        ),
{
    let ghost (i0, a, c_log, n) = (
        p.i0 as nat,
        p.n_layers as nat,
        p.c_log as nat,
        n_log as nat,
    );
    let ghost tw = step_twiddles(*p, packed@, n, j as int);
    let ghost next = layer_s(w, i0 + j as nat, tw, p.inverse != 0);
    proof {
        lemma_pow2_bound((p.n_layers + p.c_log) as nat);
        lemma_pow2_bound(c_log);
        lemma_pow2_pos(c_log);
        lemma_pow2_pos((i0 - c_log) as nat);
        lemma_pow2_adds(a, c_log);
        lemma_pow2_le((j + 1) as nat, 31);
        lemma_pow2_adds(i0, j as nat);
    }
    let run: usize = pow2_usize(p.c_log);
    let half: usize = pow2_usize(j);
    let pair: usize = pow2_usize(j + 1);
    let hi: usize = gid / pow2_usize(p.i0 - p.c_log);
    let blocks: usize = pow2_usize(p.n_layers - 1 - j);
    let offset: usize = p.twiddle_offsets[j as usize] as usize;
    let n_local: usize = pow2_usize(p.n_layers + p.c_log);
    let n_words: usize = packed.len();
    let mut r: Vec<M31> = Vec::with_capacity(n_local);
    for l in 0..n_local
        invariant
            exists|src: int| pass_fits(*p, packed@, n_log as nat, src),
            gid < pow2((n_log - p.n_layers - p.c_log) as nat),
            j < p.n_layers,
            w.len() == pow2(n_log as nat),
            holds(*p, gid as int, tile@, w),
            i0 == p.i0,
            a == p.n_layers,
            c_log == p.c_log,
            n == n_log,
            tw == step_twiddles(*p, packed@, n, j as int),
            next == layer_s(w, i0 + j as nat, tw, p.inverse != 0),
            run == pow2(c_log),
            run > 0,
            half == pow2(j as nat),
            pair == pow2((j + 1) as nat),
            hi == gid as int / pow2((i0 - c_log) as nat) as int,
            blocks == pow2((a - 1 - j) as nat),
            offset == p.twiddle_offsets@[j as int],
            n_local == pow2(a + c_log),
            n_words == packed@.len(),
            r.len() == l,
            forall|k: int| 0 <= k < l ==> #[trigger] r@[k] == next[element_place(*p, gid as int, k)],
    {
        let row: usize = l / run;
        let ghost c = l as int % run as int;
        let ghost g = element_place(*p, gid as int, l as int);
        proof {
            lemma_element(a, c_log, l as int);
            lemma_place(n, i0, a, c_log, gid as int, row as int, c);
            lemma_place_layer(i0, a, j as nat, g, hi as int, row as int);
            lemma_partner_row(a, j as nat, row as int);
            lemma_pow2_pos(j as nat);
            lemma_pow2_pos((j + 1) as nat);
            lemma_pow2_adds(i0, j as nat);
            lemma_block_bound(n, i0, a, j as nat, hi as int, row as int);
        }
        let ghost block = hi * blocks + row as int / pair as int;
        assert(0 <= hi * blocks <= block);
        assert(offset + block < packed@.len());
        let t = M31(packed[offset + (hi * blocks + row / pair)]);
        assert(t == tw[block]);
        let own = tile[l];
        assert(own == w[g]);
        let high: bool = (row / half) % 2 != 0;
        let value = if !high {
            proof {
                lemma_shifted_element(c_log, l as int, half as int);
                lemma_partner_bound(a, c_log, row as int, half as int, c);
            }
            let other = tile[l + half * run];
            assert(other == w[g + pow2(i0 + j as nat)]) by {
                assert(element_place(*p, gid as int, l + half * run) == g + half * pow2(i0)) by {
                    assert((row + half) * pow2(i0) == row * pow2(i0) + half * pow2(i0))
                        by (nonlinear_arith);
                }
                assert(half * pow2(i0) == pow2(i0) * half) by (nonlinear_arith);
            }
            if p.inverse != 0 {
                own.add(other)
            } else {
                own.add(other.mul(t))
            }
        } else {
            proof {
                lemma_back_bound(l as int, run as int, row as int, half as int, c);
                lemma_shifted_element(c_log, l as int, -(half as int));
            }
            let other = tile[l - half * run];
            assert(other == w[g - pow2(i0 + j as nat)]) by {
                assert(l - half * run == l + (-(half as int)) * run) by (nonlinear_arith);
                assert(element_place(*p, gid as int, l - half * run) == g - half * pow2(i0)) by {
                    assert((row - half) * pow2(i0) == row * pow2(i0) - half * pow2(i0))
                        by (nonlinear_arith);
                }
                assert(half * pow2(i0) == pow2(i0) * half) by (nonlinear_arith);
            }
            if p.inverse != 0 {
                other.sub(own).mul(t)
            } else {
                other.sub(own.mul(t))
            }
        };
        assert(value == next[g]);
        r.push(value);
    }
    r
}

/// The block of a row lies among the blocks of its layer.
proof fn lemma_block_bound(n: nat, i0: nat, a: nat, j: nat, hi: int, r: int)
    requires
        i0 + a <= n,
        j < a,
        0 <= hi < pow2((n - a - i0) as nat),
        0 <= r < pow2(a),
    ensures
        0 <= hi * pow2((a - 1 - j) as nat) + r / pow2(j + 1) as int,
        hi * pow2((a - 1 - j) as nat) + r / (pow2(j + 1) as int) < pow2((n - 1 - i0 - j) as nat),
        hi * pow2((a - 1 - j) as nat) <= hi * pow2((a - 1 - j) as nat) + r / pow2(j + 1) as int,
        0 <= hi * pow2((a - 1 - j) as nat),
{
    let k1 = pow2((a - 1 - j) as nat) as int;
    let pj1 = pow2(j + 1) as int;
    let pt = pow2((n - a - i0) as nat) as int;
    lemma_pow2_pos(j + 1);
    lemma_pow2_pos((a - 1 - j) as nat);
    lemma_pow2_adds(j + 1, (a - 1 - j) as nat);
    lemma_pow2_adds((n - a - i0) as nat, (a - 1 - j) as nat);
    assert(j + 1 + (a - 1 - j) == a);
    assert((n - a - i0) + (a - 1 - j) == n - 1 - i0 - j);
    let q = r / pj1;
    lemma_fundamental_div_mod(r, pj1);
    lemma_mod_bound(r, pj1);
    assert(0 <= q < k1) by (nonlinear_arith)
        requires
            0 <= r < pj1 * k1,
            r == pj1 * q + r % pj1,
            0 <= r % pj1 < pj1,
            pj1 > 0,
    ;
    assert(0 <= hi * k1 && hi * k1 + q < pt * k1) by (nonlinear_arith)
        requires
            0 <= hi <= pt - 1,
            0 <= q < k1,
            k1 > 0,
    ;
}

proof fn lemma_partner_bound(a: nat, c_log: nat, r: int, half: int, c: int)
    requires
        0 <= r,
        0 <= half,
        r + half < pow2(a),
        0 <= c < pow2(c_log),
    ensures
        0 <= r * pow2(c_log) + c + half * pow2(c_log) < pow2(a + c_log),
        0 <= half * pow2(c_log),
{
    lemma_pow2_adds(a, c_log);
    let (pa, pc) = (pow2(a) as int, pow2(c_log) as int);
    assert(0 <= r * pc + c + half * pc < pa * pc && 0 <= half * pc) by (nonlinear_arith)
        requires
            0 <= r,
            0 <= half,
            r + half <= pa - 1,
            0 <= c < pc,
    ;
}

proof fn lemma_back_bound(l: int, run: int, r: int, half: int, c: int)
    requires
        run > 0,
        l == r * run + c,
        0 <= c,
        0 <= half <= r,
    ensures
        0 <= half * run <= l,
        0 <= l + (-half) * run,
{
    assert(0 <= half * run <= l && 0 <= l + (-half) * run) by (nonlinear_arith)
        requires
            run > 0,
            l == r * run + c,
            0 <= c,
            0 <= half <= r,
    ;
}

/// What a pass starts from: the values, or the source behind which zeros follow.
pub open spec fn staged(p: PassParams, values: Seq<M31>, src: Seq<M31>) -> Seq<M31> {
    if p.src_len != 0 {
        Seq::new(
            values.len(),
            |g: int|
                if g < p.src_len {
                    src[g]
                } else {
                    M31(0)
                },
        )
    } else {
        values
    }
}

/// What a pass stores: its values, times its factor.
pub open spec fn stored(p: PassParams, w: Seq<M31>) -> Seq<M31> {
    if p.scale != 1 {
        Seq::new(w.len(), |g: int| w[g].times(M31(p.scale)))
    } else {
        w
    }
}

/// What a pass makes of the values.
pub open spec fn pass_s(
    p: PassParams,
    packed: Seq<u32>,
    n: nat,
    values: Seq<M31>,
    src: Seq<M31>,
) -> Seq<M31> {
    stored(p, after_steps(p, packed, n, staged(p, values, src), p.n_layers as nat))
}

/// The tile of a place, for a pass.
spec fn tile_of(p: PassParams, g: int) -> int {
    place_tile(p.i0 as nat, p.n_layers as nat, p.c_log as nat, g)
}

/// The elements of a tile have places of their own, and every place of the tile is one of them.
proof fn lemma_elements(p: PassParams, n: nat, gid: int)
    requires
        p.c_log <= p.i0,
        p.i0 + p.n_layers <= n,
        0 <= gid < pow2((n - p.n_layers - p.c_log) as nat),
    ensures
        forall|l: int|
            #![trigger element_place(p, gid, l)]
            0 <= l < pow2((p.n_layers + p.c_log) as nat) ==> 0 <= element_place(p, gid, l) < pow2(n)
                && tile_of(p, element_place(p, gid, l)) == gid,
        forall|k: int, l: int|
            #![trigger element_place(p, gid, k), element_place(p, gid, l)]
            0 <= k < pow2((p.n_layers + p.c_log) as nat) && 0 <= l < pow2(
                (p.n_layers + p.c_log) as nat,
            ) && element_place(p, gid, k) == element_place(p, gid, l) ==> k == l,
        forall|g: int|
            #![trigger tile_of(p, g)]
            0 <= g && tile_of(p, g) == gid ==> exists|l: int|
                0 <= l < pow2((p.n_layers + p.c_log) as nat) && g == #[trigger] element_place(
                    p,
                    gid,
                    l,
                ),
{
    let (i0, a, c_log) = (p.i0 as nat, p.n_layers as nat, p.c_log as nat);
    let pc = pow2(c_log) as int;
    lemma_pow2_pos(c_log);
    lemma_pow2_adds(a, c_log);
    assert forall|l: int|
        #![trigger element_place(p, gid, l)]
        0 <= l < pow2((p.n_layers + p.c_log) as nat) implies 0 <= element_place(p, gid, l) < pow2(n)
        && tile_of(p, element_place(p, gid, l)) == gid by {
        lemma_element(a, c_log, l);
        lemma_place(n, i0, a, c_log, gid, l / pc, l % pc);
    }
    assert forall|k: int, l: int|
        #![trigger element_place(p, gid, k), element_place(p, gid, l)]
        0 <= k < pow2((p.n_layers + p.c_log) as nat) && 0 <= l < pow2(
            (p.n_layers + p.c_log) as nat,
        ) && element_place(p, gid, k) == element_place(p, gid, l) implies k == l by {
        lemma_element(a, c_log, k);
        lemma_element(a, c_log, l);
        lemma_place(n, i0, a, c_log, gid, k / pc, k % pc);
        lemma_place(n, i0, a, c_log, gid, l / pc, l % pc);
    }
    assert forall|g: int|
        #![trigger tile_of(p, g)]
        0 <= g && tile_of(p, g) == gid implies exists|l: int|
        0 <= l < pow2((p.n_layers + p.c_log) as nat) && g == #[trigger] element_place(p, gid, l) by {
        lemma_tiles_cover(i0, a, c_log, g);
        let r = place_row(i0, a, g);
        let c = g % pc;
        lemma_mod_bound(g, pc);
        let l = r * pc + c;
        lemma_fundamental_div_mod_converse(l, pc, r, c);
        assert(0 <= l < pow2(a) * pc) by (nonlinear_arith)
            requires
                0 <= r <= pow2(a) - 1,
                0 <= c <= pc - 1,
                l == r * pc + c,
        ;
        assert(g == element_place(p, gid, l));
    }
}

/// Runs a pass on one tile.
fn run_tile(
    p: &PassParams,
    packed: &Vec<u32>,
    n_log: u32,
    gid: usize,
    values: &mut Vec<M31>,
    src: &Vec<M31>,
    Ghost(first): Ghost<Seq<M31>>,
)
    requires
        pass_fits(*p, packed@, n_log as nat, src@.len() as int),
        gid < pow2((n_log - p.n_layers - p.c_log) as nat),
        old(values)@.len() == pow2(n_log as nat),
        first.len() == pow2(n_log as nat),
        forall|g: int|
            #![trigger tile_of(*p, g)]
            0 <= g < first.len() && tile_of(*p, g) == gid ==> old(values)@[g] == first[g],
    ensures
        final(values)@.len() == first.len(),
        forall|g: int|
            #![trigger tile_of(*p, g)]
            0 <= g < first.len() ==> final(values)@[g] == if tile_of(*p, g) == gid {
                pass_s(*p, packed@, n_log as nat, first, src@)[g]
            } else {
                old(values)@[g]
            },
{
    let ghost (i0, a, c_log, n) = (
        p.i0 as nat,
        p.n_layers as nat,
        p.c_log as nat,
        n_log as nat,
    );
    let ghost start = staged(*p, first, src@);
    let ghost out = pass_s(*p, packed@, n, first, src@);
    let ghost before = values@;
    proof {
        lemma_elements(*p, n, gid as int);
        lemma_pow2_bound((p.n_layers + p.c_log) as nat);
        lemma_pow2_bound(n);
        lemma_pow2_pos(c_log);
        lemma_pow2_pos(a);
        lemma_pow2_pos((i0 - c_log) as nat);
        lemma_pow2_le(i0 + a, n);
        lemma_pow2_le(i0, n);
        lemma_place(n, i0, a, c_log, gid as int, 0, 0);
        lemma_steps_len(*p, packed@, n, start, a);
    }
    let run: usize = pow2_usize(p.c_log);
    let rows: usize = pow2_usize(p.i0);
    let mid: usize = pow2_usize(p.i0 - p.c_log);
    let span: usize = pow2_usize(p.i0 + p.n_layers);
    let ghost base_s = tile_base(i0, a, c_log, gid as int);
    proof {
        lemma_mod_bound(gid as int, mid as int);
        lemma_base_parts(gid as int / mid as int, span as int, gid as int % mid as int, run as int);
    }
    let base: usize = (gid / mid) * span + (gid % mid) * run;
    assert(base == base_s);
    let n_local: usize = pow2_usize(p.n_layers + p.c_log);
    let mut tile: Vec<M31> = Vec::with_capacity(n_local);
    for l in 0..n_local
        invariant
            pass_fits(*p, packed@, n, src@.len() as int),
            gid < pow2((n - p.n_layers - p.c_log) as nat),
            n == n_log,
            i0 == p.i0,
            a == p.n_layers,
            c_log == p.c_log,
            run == pow2(c_log),
            run > 0,
            rows == pow2(i0),
            base == tile_base(i0, a, c_log, gid as int),
            n_local == pow2(a + c_log),
            values@ == before,
            before.len() == pow2(n),
            first.len() == pow2(n),
            start == staged(*p, first, src@),
            forall|g: int|
                #![trigger tile_of(*p, g)]
                0 <= g < first.len() && tile_of(*p, g) == gid ==> before[g] == first[g],
            tile@.len() == l,
            forall|k: int|
                0 <= k < l ==> #[trigger] tile@[k] == start[element_place(*p, gid as int, k)],
    {
        let ghost g_s = element_place(*p, gid as int, l as int);
        proof {
            lemma_place_bounds(*p, n, gid as int, l as int);
        }
        let g: usize = base + (l / run) * rows + l % run;
        assert(g == g_s);
        assert(tile_of(*p, g as int) == gid);
        let x = if p.src_len != 0 {
            if g < p.src_len as usize {
                src[g]
            } else {
                M31(0)
            }
        } else {
            values[g]
        };
        tile.push(x);
    }
    let mut s: u32 = 0;
    while s < p.n_layers
        invariant
            s <= p.n_layers,
            pass_fits(*p, packed@, n, src@.len() as int),
            gid < pow2((n - p.n_layers - p.c_log) as nat),
            n == n_log,
            start.len() == pow2(n),
            holds(*p, gid as int, tile@, after_steps(*p, packed@, n, start, s as nat)),
        decreases p.n_layers - s,
    {
        let j: u32 = if p.descending != 0 {
            p.n_layers - 1 - s
        } else {
            s
        };
        let ghost w = after_steps(*p, packed@, n, start, s as nat);
        proof {
            lemma_steps_len(*p, packed@, n, start, s as nat);
        }
        tile = tile_step(p, packed, n_log, gid, j, &tile, Ghost(w));
        s = s + 1;
    }
    let ghost w = after_steps(*p, packed@, n, start, a);
    for l in 0..n_local
        invariant
            pass_fits(*p, packed@, n, src@.len() as int),
            gid < pow2((n - p.n_layers - p.c_log) as nat),
            n == n_log,
            i0 == p.i0,
            a == p.n_layers,
            c_log == p.c_log,
            run == pow2(c_log),
            run > 0,
            rows == pow2(i0),
            base == tile_base(i0, a, c_log, gid as int),
            n_local == pow2(a + c_log),
            before.len() == pow2(n),
            values@.len() == before.len(),
            w.len() == before.len(),
            out == stored(*p, w),
            holds(*p, gid as int, tile@, w),
            forall|k: int, l: int|
                #![trigger element_place(*p, gid as int, k), element_place(*p, gid as int, l)]
                0 <= k < pow2((p.n_layers + p.c_log) as nat) && 0 <= l < pow2(
                    (p.n_layers + p.c_log) as nat,
                ) && element_place(*p, gid as int, k) == element_place(*p, gid as int, l) ==> k == l,
            forall|k: int|
                #![trigger element_place(*p, gid as int, k)]
                0 <= k < l ==> values@[element_place(*p, gid as int, k)] == out[element_place(
                    *p,
                    gid as int,
                    k,
                )],
            forall|g: int|
                #![trigger tile_of(*p, g)]
                0 <= g < before.len() && tile_of(*p, g) != gid ==> values@[g] == before[g],
    {
        proof {
            lemma_place_bounds(*p, n, gid as int, l as int);
        }
        let g: usize = base + (l / run) * rows + l % run;
        assert(g == element_place(*p, gid as int, l as int));
        assert(tile_of(*p, g as int) == gid);
        let ghost now = values@;
        let mut x = tile[l];
        if p.scale != 1 {
            x = x.mul(M31(p.scale));
        }
        assert(x == out[g as int]);
        values.set(g, x);
        proof {
            assert forall|k: int|
                #![trigger element_place(*p, gid as int, k)]
                0 <= k < l + 1 implies values@[element_place(*p, gid as int, k)]
                == out[element_place(*p, gid as int, k)] by {
                lemma_place_bounds(*p, n, gid as int, k);
                if k < l {
                    assert(element_place(*p, gid as int, k) != element_place(
                        *p,
                        gid as int,
                        l as int,
                    ));
                }
            }
        }
    }
    proof {
        assert forall|g: int|
            #![trigger tile_of(*p, g)]
            0 <= g < first.len() implies values@[g] == if tile_of(*p, g) == gid {
            out[g]
        } else {
            before[g]
        } by {
            if tile_of(*p, g) == gid {
                let l = choose|l: int|
                    0 <= l < pow2((p.n_layers + p.c_log) as nat) && g == #[trigger] element_place(
                        *p,
                        gid as int,
                        l,
                    );
                assert(values@[element_place(*p, gid as int, l)] == out[g]);
            }
        }
    }
}

proof fn lemma_base_parts(hi: int, span: int, mid: int, run: int)
    requires
        0 <= hi,
        0 < span,
        0 <= mid,
        0 < run,
    ensures
        0 <= hi * span,
        0 <= mid * run,
{
    assert(0 <= hi * span && 0 <= mid * run) by (nonlinear_arith)
        requires
            0 <= hi,
            0 < span,
            0 <= mid,
            0 < run,
    ;
}

/// The place of an element of a tile, and its parts.
proof fn lemma_place_bounds(p: PassParams, n: nat, gid: int, l: int)
    requires
        n <= 31,
        p.c_log <= p.i0,
        p.i0 + p.n_layers <= n,
        0 <= gid < pow2((n - p.n_layers - p.c_log) as nat),
        0 <= l < pow2((p.n_layers + p.c_log) as nat),
    ensures
        ({
            let base = tile_base(p.i0 as nat, p.n_layers as nat, p.c_log as nat, gid);
            let r = l / pow2(p.c_log as nat) as int;
            let c = l % pow2(p.c_log as nat) as int;
            &&& 0 <= base
            &&& 0 <= r * pow2(p.i0 as nat)
            &&& 0 <= c
            &&& element_place(p, gid, l) == base + r * pow2(p.i0 as nat) + c
            &&& element_place(p, gid, l) < pow2(n)
            &&& pow2(n) <= 0x8000_0000
            &&& tile_of(p, element_place(p, gid, l)) == gid
        }),
{
    let (i0, a, c_log) = (p.i0 as nat, p.n_layers as nat, p.c_log as nat);
    let pc = pow2(c_log) as int;
    lemma_pow2_pos(c_log);
    lemma_pow2_pos(a);
    lemma_pow2_pos(i0);
    lemma_element(a, c_log, l);
    lemma_place(n, i0, a, c_log, gid, l / pc, l % pc);
    lemma_place(n, i0, a, c_log, gid, 0, 0);
    lemma_pow2_bound(n);
    let r = l / pc;
    assert(0 <= r * pow2(i0)) by (nonlinear_arith)
        requires
            0 <= r,
            pow2(i0) > 0,
    ;
}

/// Runs a pass over all its tiles.
pub fn run_pass(
    p: &PassParams,
    packed: &Vec<u32>,
    n_log: u32,
    n_groups: usize,
    values: &mut Vec<M31>,
    src: &Vec<M31>,
)
    requires
        pass_fits(*p, packed@, n_log as nat, src@.len() as int),
        n_groups == pow2((n_log - p.n_layers - p.c_log) as nat),
        old(values)@.len() == pow2(n_log as nat),
    ensures
        final(values)@ == pass_s(*p, packed@, n_log as nat, old(values)@, src@),
{
    let ghost first = values@;
    let ghost n = n_log as nat;
    let ghost out = pass_s(*p, packed@, n, first, src@);
    proof {
        assert forall|g: int|
            #![trigger tile_of(*p, g)]
            0 <= g < first.len() implies tile_of(*p, g) >= 0 by {
            lemma_tile_in_range(*p, n, g);
        }
    }
    for gid in 0..n_groups
        invariant
            pass_fits(*p, packed@, n, src@.len() as int),
            n == n_log,
            n_groups == pow2((n - p.n_layers - p.c_log) as nat),
            first.len() == pow2(n),
            values@.len() == first.len(),
            out == pass_s(*p, packed@, n, first, src@),
            forall|g: int|
                #![trigger tile_of(*p, g)]
                0 <= g < first.len() ==> values@[g] == if tile_of(*p, g) < gid {
                    out[g]
                } else {
                    first[g]
                },
    {
        run_tile(p, packed, n_log, gid, values, src, Ghost(first));
    }
    proof {
        lemma_steps_len(*p, packed@, n, staged(*p, first, src@), p.n_layers as nat);
        assert forall|g: int| 0 <= g < first.len() implies values@[g] == out[g] by {
            lemma_tile_in_range(*p, n, g);
            assert(tile_of(*p, g) < n_groups);
        }
        assert(values@ =~= out);
    }
}

/// Every place lies in one of the tiles.
proof fn lemma_tile_in_range(p: PassParams, n: nat, g: int)
    requires
        p.c_log <= p.i0,
        p.i0 + p.n_layers <= n,
        0 <= g < pow2(n),
    ensures
        0 <= tile_of(p, g) < pow2((n - p.n_layers - p.c_log) as nat),
{
    let (i0, a, c_log) = (p.i0 as nat, p.n_layers as nat, p.c_log as nat);
    let m = (i0 - c_log) as nat;
    let t = (n - a - i0) as nat;
    lemma_pow2_pos(i0);
    lemma_pow2_pos(i0 + a);
    lemma_pow2_pos(m);
    lemma_pow2_pos(c_log);
    lemma_pow2_adds(c_log, m);
    lemma_pow2_adds(t, m);
    lemma_pow2_adds(t, i0 + a);
    assert(t + m == n - a - c_log);
    assert(t + (i0 + a) == n);
    let (pi, pia, pm, pc, pt) = (
        pow2(i0) as int,
        pow2(i0 + a) as int,
        pow2(m) as int,
        pow2(c_log) as int,
        pow2(t) as int,
    );
    let hi = g / pia;
    lemma_fundamental_div_mod(g, pia);
    lemma_mod_bound(g, pia);
    assert(0 <= hi < pt) by (nonlinear_arith)
        requires
            0 <= g < pt * pia,
            g == pia * hi + g % pia,
            0 <= g % pia < pia,
            pia > 0,
    ;
    let low = g % pi;
    lemma_mod_bound(g, pi);
    let mid = low / pc;
    lemma_fundamental_div_mod(low, pc);
    lemma_mod_bound(low, pc);
    assert(0 <= mid < pm) by (nonlinear_arith)
        requires
            0 <= low < pc * pm,
            low == pc * mid + low % pc,
            0 <= low % pc < pc,
            pc > 0,
    ;
    assert(0 <= hi * pm + mid < pt * pm) by (nonlinear_arith)
        requires
            0 <= hi <= pt - 1,
            0 <= mid < pm,
    ;
}

} // verus!
