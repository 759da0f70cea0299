//! The circle FFT and its inverse.

use vstd::arithmetic::div_mod::{
    lemma_fundamental_div_mod, lemma_fundamental_div_mod_converse, lemma_mod_bound, lemma_small_mod,
};
use vstd::arithmetic::mul::lemma_mul_is_commutative;
use vstd::arithmetic::power2::{lemma2_to64, lemma_pow2_adds, lemma_pow2_pos, pow2};
use vstd::prelude::*;

use super::circle_poly::{CircleCoefficients, CircleEvaluation};
use super::domain::{
    lemma_circle_twiddle, lemma_line_mapping, lemma_reversed_pair, mapping_at, CircleDomain,
};
use super::fold::{
    combine, fold_s, lemma_fold_linear, lemma_mappings_rest, lemma_poly_at_padded, mappings, padded,
    poly_at,
};
use super::twiddles::{
    circle_twiddle, circle_twiddles_from_line_twiddles, domain_line_twiddles_from_tree, is_tower,
    layer_twiddle, tower_index, TwiddleTree,
};
use crate::circle::{circle_order, CirclePoint, Coset};
use crate::fields::m31::M31;
use crate::fields::{lemma_mul_opposite, Field};
use crate::utils::{bit_rev, lemma_pow2_bound, lemma_pow2_double, lemma_pow2_le, pow2_usize};

verus! {

/// `(v0 + v1 t, v0 - v1 t)`.
pub fn butterfly(v0: M31, v1: M31, t: M31) -> (r: (M31, M31))
    ensures
        r.0 == v0.plus(v1.times(t)),
        r.1 == v0.minus(v1.times(t)),
{
    let tmp = v1.mul(t);
    (v0.add(tmp), v0.sub(tmp))
}

/// `(v0 + v1, (v0 - v1) t)`.
pub fn ibutterfly(v0: M31, v1: M31, t: M31) -> (r: (M31, M31))
    ensures
        r.0 == v0.plus(v1),
        r.1 == v0.minus(v1).times(t),
{
    (v0.add(v1), v0.sub(v1).mul(t))
}

/// Whether digit `i` of `j` is zero.
pub open spec fn low_half(j: int, i: nat) -> bool {
    (j / (pow2(i) as int)) % 2 == 0
}

/// The butterflies of layer `i`: blocks of `2^(i+1)` values, each pairing its halves with one
/// twiddle.
pub open spec fn butterfly_layer(v: Seq<M31>, i: nat, tw: Seq<M31>) -> Seq<M31> {
    Seq::new(
        v.len(),
        |j: int|
            {
                let t = tw[j / (pow2(i + 1) as int)];
                if low_half(j, i) {
                    v[j].plus(v[j + pow2(i)].times(t))
                } else {
                    v[j - pow2(i)].minus(v[j].times(t))
                }
            },
    )
}

/// The inverse butterflies of layer `i`, without the division by two.
pub open spec fn ibutterfly_layer(v: Seq<M31>, i: nat, tw: Seq<M31>) -> Seq<M31> {
    Seq::new(
        v.len(),
        |j: int|
            {
                let t = tw[j / (pow2(i + 1) as int)];
                if low_half(j, i) {
                    v[j].plus(v[j + pow2(i)])
                } else {
                    v[j - pow2(i)].minus(v[j]).times(t)
                }
            },
    )
}

/// The layer in the direction asked for.
pub open spec fn layer_s(v: Seq<M31>, i: nat, tw: Seq<M31>, inverse: bool) -> Seq<M31> {
    if inverse {
        ibutterfly_layer(v, i, tw)
    } else {
        butterfly_layer(v, i, tw)
    }
}

/// Places `l` and `l + 2^i` of block `h`.
pub proof fn lemma_block_places(h: int, l: int, i: nat)
    requires
        0 <= h,
        0 <= l < pow2(i),
    ensures
        ({
            let s = pow2(i) as int;
            let j = h * (2 * s) + l;
            &&& pow2(i + 1) == 2 * s
            &&& j / (2 * s) == h
            &&& low_half(j, i)
            &&& (j + s) / (2 * s) == h
            &&& !low_half(j + s, i)
        }),
{
    let s = pow2(i) as int;
    lemma_pow2_double(i + 1);
    let j = h * (2 * s) + l;
    lemma_mul_is_commutative(2 * s, h);
    lemma_fundamental_div_mod_converse(j, 2 * s, h, l);
    lemma_fundamental_div_mod_converse(j + s, 2 * s, h, l + s);
    assert(h * (2 * s) == s * (2 * h)) by (nonlinear_arith);
    assert(h * (2 * s) + s == s * (2 * h + 1)) by (nonlinear_arith);
    lemma_fundamental_div_mod_converse(j, s, 2 * h, l);
    lemma_fundamental_div_mod_converse(j + s, s, 2 * h + 1, l);
}

/// One layer of butterflies over the whole buffer.
pub fn fft_full_layer(values: &mut Vec<M31>, i: u32, tw: &[M31], inverse: bool)
    requires
        i <= 30,
        old(values).len() == pow2((i + 1) as nat) * tw.len(),
        old(values).len() <= 0x8000_0000,
    ensures
        final(values)@ == layer_s(old(values)@, i as nat, tw@, inverse),
{
    let half = pow2_usize(i);
    let n = values.len();
    let blocks = tw.len();
    let ghost v = values@;
    let ghost target = layer_s(v, i as nat, tw@, inverse);
    let mut h: usize = 0;
    let mut base: usize = 0;
    proof {
        lemma_pow2_double((i + 1) as nat);
        assert(0 * (2 * half) == 0);
    }
    while h < blocks
        invariant
            i <= 30,
            half == pow2(i as nat),
            pow2((i + 1) as nat) == 2 * half,
            blocks == tw.len(),
            n == (2 * half) * blocks,
            n <= 0x8000_0000,
            values.len() == n,
            v.len() == n,
            target == layer_s(v, i as nat, tw@, inverse),
            h <= blocks,
            base == h * (2 * half),
            forall|j: int| 0 <= j < base ==> #[trigger] values@[j] == target[j],
            forall|j: int| base <= j < n ==> #[trigger] values@[j] == v[j],
        decreases blocks - h,
    {
        let t = tw[h];
        let mut l: usize = 0;
        proof {
            assert((h + 1) * (2 * half) == h * (2 * half) + 2 * half) by (nonlinear_arith);
            assert((h + 1) * (2 * half) <= blocks * (2 * half)) by (nonlinear_arith)
                requires
                    h + 1 <= blocks,
                    half >= 0,
            ;
            lemma_mul_is_commutative(blocks as int, 2 * half);
        }
        while l < half
            invariant
                i <= 30,
                half == pow2(i as nat),
                pow2((i + 1) as nat) == 2 * half,
                blocks == tw.len(),
                h < blocks,
                n <= 0x8000_0000,
                values.len() == n,
                v.len() == n,
                target == layer_s(v, i as nat, tw@, inverse),
                base == h * (2 * half),
                base + 2 * half <= n,
                t == tw@[h as int],
                l <= half,
                forall|j: int| 0 <= j < base + l ==> #[trigger] values@[j] == target[j],
                forall|j: int| base + l <= j < base + half ==> #[trigger] values@[j] == v[j],
                forall|j: int|
                    base + half <= j < base + half + l ==> #[trigger] values@[j] == target[j],
                forall|j: int| base + half + l <= j < n ==> #[trigger] values@[j] == v[j],
            decreases half - l,
        {
            proof {
                lemma_block_places(h as int, l as int, i as nat);
            }
            let j: usize = base + l;
            let v0 = values[j];
            let v1 = values[j + half];
            let (w0, w1) = if inverse {
                ibutterfly(v0, v1, t)
            } else {
                butterfly(v0, v1, t)
            };
            values.set(j, w0);
            values.set(j + half, w1);
            l = l + 1;
        }
        h = h + 1;
        base = base + 2 * half;
    }
    assert(values@ =~= target) by {
        lemma_mul_is_commutative(blocks as int, 2 * half);
    }
}

// ---------------------------------------------------------------------------------------------
// What the layers compute.

/// The block of size `2^i` that place `j` lies in.
pub open spec fn block_of(v: Seq<M31>, i: nat, j: int) -> Seq<M31> {
    let s = pow2(i) as int;
    let b = j / s;
    v.subrange(b * s, b * s + s)
}

/// The block of place `j`, folded with the factors of the digits below `i` at `(x, y)`.
pub open spec fn folded_at(v: Seq<M31>, i: nat, j: int, p: CirclePoint<M31>) -> M31 {
    fold_s(block_of(v, i, j), mappings(i, p.x, p.y))
}

/// The twiddles of layer `i` are the factors of digit `i` at the points of the domain.
pub open spec fn layer_fits(domain: CircleDomain, i: nat, tw: Seq<M31>) -> bool {
    &&& tw.len() * pow2(i + 1) == domain.size_s()
    &&& forall|j: int| #[trigger]
        place(j) && 0 <= j < domain.size_s() ==> {
            let p = domain.reversed_at(j);
            let t = tw[j / (pow2(i + 1) as int)];
            mapping_at(p.x, p.y, i as int) == if low_half(j, i) {
                t
            } else {
                t.opposite()
            }
        }
}

/// Names a place of a domain.
pub open spec fn place(j: int) -> bool {
    true
}

/// A layer of butterflies trades digit `i` of the coefficient index for digit `i` of the place.
pub proof fn lemma_butterfly_step(
    v: Seq<M31>,
    n: nat,
    i: nat,
    tw: Seq<M31>,
    j: int,
    p: CirclePoint<M31>,
)
    requires
        v.len() == pow2(n),
        i < n,
        0 <= j < v.len(),
        tw.len() * pow2(i + 1) == v.len(),
        mapping_at(p.x, p.y, i as int) == if low_half(j, i) {
            tw[j / (pow2(i + 1) as int)]
        } else {
            tw[j / (pow2(i + 1) as int)].opposite()
        },
    ensures
        folded_at(butterfly_layer(v, i, tw), i, j, p) == folded_at(v, i + 1, j, p),
{
    let s = pow2(i) as int;
    lemma_pow2_pos(i);
    lemma_pow2_double(i + 1);
    let h = j / (2 * s);
    let b = j / s;
    lemma_fundamental_div_mod(j, 2 * s);
    lemma_fundamental_div_mod(j, s);
    lemma_mod_bound(j, 2 * s);
    lemma_mod_bound(j, s);
    vstd::arithmetic::div_mod::lemma_div_pos_is_pos(j, 2 * s);
    vstd::arithmetic::div_mod::lemma_div_denominator(j, s, 2);
    lemma_mul_is_commutative(s, 2);
    assert(b / 2 == h);
    assert(b == 2 * h + b % 2);
    let t = tw[h];
    let w = butterfly_layer(v, i, tw);
    // The block of size 2^(i+1) lies within the sequence.
    assert(h < tw.len()) by (nonlinear_arith)
        requires
            (2 * s) * h <= j,
            j < tw.len() * (2 * s),
            s > 0,
    ;
    assert(h * (2 * s) + 2 * s <= v.len()) by (nonlinear_arith)
        requires
            h + 1 <= tw.len(),
            tw.len() * (2 * s) == v.len(),
            s > 0,
    ;
    lemma_mul_is_commutative(h, 2 * s);
    let big = block_of(v, i + 1, j);
    assert(big == v.subrange(h * (2 * s), h * (2 * s) + 2 * s));
    let lo = big.subrange(0, s);
    let hi = big.subrange(s, 2 * s);
    let small = block_of(w, i, j);
    assert(b * s == h * (2 * s) + (b % 2) * s) by (nonlinear_arith)
        requires
            b == 2 * h + b % 2,
    ;
    lemma_mappings_rest(i + 1, p.x, p.y);
    let f = mapping_at(p.x, p.y, i as int);
    let rest = mappings(i, p.x, p.y);
    assert(small =~= combine(lo, hi, f)) by {
        assert forall|l: int| 0 <= l < s implies small[l] == combine(lo, hi, f)[l] by {
            lemma_block_places(h, l, i);
            let q = h * (2 * s) + l;
            assert(lo[l] == v[q]);
            assert(hi[l] == v[q + s]);
            if b % 2 == 0 {
                assert((b % 2) * s == 0);
                assert(small[l] == w[q]);
            } else {
                assert((b % 2) * s == s);
                assert(small[l] == w[q + s]);
                lemma_mul_opposite(v[q + s], t);
                M31::law_sub(v[q], v[q + s].times(t));
            }
        }
    }
    lemma_fold_linear(lo, hi, f, rest);
    assert(big.len() as int / 2 == s);
    assert(hi =~= big.subrange(s, big.len() as int));
}

/// The line twiddles of a tree fit the domains below its root.
pub proof fn lemma_line_layer_fits(tree: Seq<M31>, root: Coset, domain: CircleDomain, i: nat, tw: Seq<M31>)
    requires
        root.wf(),
        is_tower(root, tree),
        domain.wf(),
        domain.half_coset.doubling_of_s(root),
        1 <= i <= domain.half_coset.log_size,
        tw == tree.subrange(
            tree.len() - pow2((domain.half_coset.log_size - i + 1) as nat),
            tree.len() - pow2((domain.half_coset.log_size - i) as nat),
        ),
    ensures
        layer_fits(domain, i, tw),
{
    let l = domain.half_coset.log_size as nat;
    let m = (l - i) as nat;
    let big = root.log_size as nat;
    lemma_pow2_double((m + 1) as nat);
    lemma_pow2_le((m + 1) as nat, big);
    assert(tw.len() == pow2(m));
    lemma_pow2_adds(m, i + 1);
    assert(m + (i + 1) == domain.log_size_s());
    assert forall|j: int| #[trigger] place(j) && 0 <= j < domain.size_s() implies ({
        let p = domain.reversed_at(j);
        let t = tw[j / (pow2(i + 1) as int)];
        mapping_at(p.x, p.y, i as int) == if low_half(j, i) {
            t
        } else {
            t.opposite()
        }
    }) by {
        lemma_line_mapping(domain, j, i);
        let s2 = pow2(i + 1) as int;
        lemma_pow2_pos(i + 1);
        let h = j / s2;
        lemma_fundamental_div_mod(j, s2);
        lemma_mod_bound(j, s2);
        vstd::arithmetic::div_mod::lemma_div_pos_is_pos(j, s2);
        assert(h < pow2(m)) by (nonlinear_arith)
            requires
                s2 * h <= j,
                j < pow2(m) * s2,
                s2 > 0,
        ;
        let t = layer_twiddle(root, m as int, h);
        assert(tree[tower_index(big, m as int, h)] == t);
        assert(tw[h] == t);
        lemma_same_doubling(root, domain.half_coset, (i - 1) as nat, (big - 1 - m) as nat);
    }
}

/// Doubling a doubling of the root further is doubling the root further.
pub proof fn lemma_same_doubling(root: Coset, h: Coset, d: nat, total: nat)
    requires
        root.wf(),
        h.wf(),
        h.doubling_of_s(root),
        d <= h.log_size,
        total == root.log_size - h.log_size + d,
    ensures
        h.repeated_double_s(d) == root.repeated_double_s(total),
{
    let n = circle_order() as int;
    let e = (root.log_size - h.log_size) as nat;
    let i = root.initial_index.0 as int;
    let pe = pow2(e) as int;
    let pd = pow2(d) as int;
    lemma_pow2_adds(e, d);
    assert(e + d == total);
    lemma_mod_bound(pe * i, n);
    assert(h.initial_index.0 as int == (pe * i) % n);
    vstd::arithmetic::div_mod::lemma_mul_mod_noop_right(pd, pe * i, n);
    assert(pd * (pe * i) == (pe * pd) * i) by (nonlinear_arith);
}

/// The circle twiddles derived from the first line layer are the `y` coordinates of the domain.
#[verifier::rlimit(60)]
#[verifier::spinoff_prover]
pub proof fn lemma_circle_layer_values(
    tree: Seq<M31>,
    root: Coset,
    domain: CircleDomain,
    first: Seq<M31>,
    tw: Seq<M31>,
)
    requires
        root.wf(),
        is_tower(root, tree),
        domain.wf(),
        domain.half_coset.doubling_of_s(root),
        domain.half_coset.log_size >= 2,
        first == tree.subrange(
            tree.len() - pow2(domain.half_coset.log_size as nat),
            tree.len() - pow2((domain.half_coset.log_size - 1) as nat),
        ),
        tw.len() == 2 * first.len(),
        forall|q: int| 0 <= q < tw.len() ==> #[trigger] tw[q] == circle_twiddle(first, q),
    ensures
        tw.len() == pow2(domain.half_coset.log_size as nat),
        forall|q: int|
            0 <= q < tw.len() ==> #[trigger] tw[q] == domain.half_coset.at_s(
                bit_rev(q, domain.half_coset.log_size as nat),
            ).y,
{
    let h = domain.half_coset;
    let l = h.log_size as nat;
    let l1 = (l - 1) as nat;
    let big = root.log_size as nat;
    lemma_pow2_double(l);
    lemma_pow2_double(l1);
    lemma_pow2_le(l, big);
    assert(first.len() == pow2(l1));
    assert forall|q: int| 0 <= q < first.len() implies #[trigger] first[q] == h.at_s(
        bit_rev(q, l1),
    ).x by {
        assert(tree[tower_index(big, l1 as int, q)] == layer_twiddle(root, l1 as int, q));
        lemma_same_doubling(root, h, 0, (big - l) as nat);
        lemma2_to64();
        assert(pow2(0) * h.initial_index.0 == h.initial_index.0);
        lemma_small_mod(h.initial_index.0 as nat, circle_order());
        assert(h.repeated_double_s(0) == h);
    }
    assert forall|q: int| 0 <= q < tw.len() implies #[trigger] tw[q] == h.at_s(bit_rev(q, l)).y by {
        let a = q / 4;
        lemma_circle_twiddle(h, a);
        assert(q == 4 * a + q % 4);
        assert(first[2 * a] == h.at_s(bit_rev(2 * a, l1)).x);
        assert(first[2 * a + 1] == h.at_s(bit_rev(2 * a + 1, l1)).x);
    }
}

/// The circle twiddles derived from the first line layer fit the domain.
pub proof fn lemma_circle_layer_fits(
    tree: Seq<M31>,
    root: Coset,
    domain: CircleDomain,
    first: Seq<M31>,
    tw: Seq<M31>,
)
    requires
        root.wf(),
        is_tower(root, tree),
        domain.wf(),
        domain.half_coset.doubling_of_s(root),
        domain.half_coset.log_size >= 2,
        first == tree.subrange(
            tree.len() - pow2(domain.half_coset.log_size as nat),
            tree.len() - pow2((domain.half_coset.log_size - 1) as nat),
        ),
        tw.len() == 2 * first.len(),
        forall|q: int| 0 <= q < tw.len() ==> #[trigger] tw[q] == circle_twiddle(first, q),
    ensures
        layer_fits(domain, 0, tw),
{
    lemma_circle_layer_values(tree, root, domain, first, tw);
    lemma_circle_values_fit(domain, tw);
}

/// The factor of the lowest digit at place `j`.
proof fn lemma_circle_place(domain: CircleDomain, t: M31, j: int)
    requires
        domain.wf(),
        0 <= j < domain.size_s(),
        t == domain.half_coset.at_s(bit_rev(j / 2, domain.half_coset.log_size as nat)).y,
    ensures
        mapping_at(domain.reversed_at(j).x, domain.reversed_at(j).y, 0) == if j % 2 == 0 {
            t
        } else {
            t.opposite()
        },
{
    lemma_pow2_double(domain.log_size_s());
    lemma_reversed_pair(domain, j / 2);
    assert(j == 2 * (j / 2) || j == 2 * (j / 2) + 1);
}

/// Twiddles that are the `y` coordinates of the half coset fit the circle layer.
pub proof fn lemma_circle_values_fit(domain: CircleDomain, tw: Seq<M31>)
    requires
        domain.wf(),
        tw.len() == domain.half_coset.size_s(),
        forall|q: int|
            0 <= q < tw.len() ==> #[trigger] tw[q] == domain.half_coset.at_s(
                bit_rev(q, domain.half_coset.log_size as nat),
            ).y,
    ensures
        layer_fits(domain, 0, tw),
{
    assert(pow2(0) == 1 && pow2(1) == 2) by {
        lemma2_to64();
    }
    lemma_pow2_double(domain.log_size_s());
    let zero: nat = 0;
    let two = pow2(zero + 1);
    assert(tw.len() * two == 2 * tw.len()) by (nonlinear_arith)
        requires
            two == 2,
    ;
    assert((domain.log_size_s() - 1) as nat == domain.half_coset.log_size);
    assert forall|j: int| #[trigger] place(j) && 0 <= j < domain.size_s() implies ({
        let p = domain.reversed_at(j);
        let t = tw[j / (pow2(zero + 1) as int)];
        mapping_at(p.x, p.y, zero as int) == if low_half(j, zero) {
            t
        } else {
            t.opposite()
        }
    }) by {
        lemma_circle_place(domain, tw[j / 2], j);
        assert(j / 1 == j);
    }
}

/// The twiddles of the circle layer of a domain, given those of its first line layer.
fn circle_layer_twiddles(domain: CircleDomain, tree: &TwiddleTree, line: &Vec<&[M31]>) -> (tw: Vec<
    M31,
>)
    requires
        tree.wf(),
        domain.wf(),
        domain.half_coset.doubling_of_s(tree.root_coset),
        line.len() == domain.half_coset.log_size,
        line.len() > 0 ==> line@[0]@ == tree.twiddles@.subrange(
            tree.twiddles.len() - pow2(domain.half_coset.log_size as nat),
            tree.twiddles.len() - pow2((domain.half_coset.log_size - 1) as nat),
        ),
    ensures
        layer_fits(domain, 0, tw@),
{
    proof {
        lemma_pow2_bound(domain.half_coset.log_size as nat);
        lemma_pow2_le(domain.half_coset.log_size as nat, tree.root_coset.log_size as nat);
    }
    if domain.half_coset.log_size >= 2 {
        proof {
            lemma_pow2_double(domain.half_coset.log_size as nat);
            lemma_pow2_double((domain.half_coset.log_size - 1) as nat);
        }
        let tw = circle_twiddles_from_line_twiddles(line[0]);
        proof {
            lemma_circle_layer_fits(
                tree.twiddles@,
                tree.root_coset,
                domain,
                line@[0]@,
                tw@,
            );
        }
        tw
    } else {
        small_circle_twiddles(domain)
    }
}

/// The circle twiddles of a domain of two or four points.
pub(crate) fn small_circle_twiddles(domain: CircleDomain) -> (tw: Vec<M31>)
    requires
        domain.wf(),
        domain.half_coset.log_size <= 1,
    ensures
        tw.len() == domain.half_coset.size_s(),
        layer_fits(domain, 0, tw@),
        tw@[0] == domain.half_coset.initial.y,
        tw.len() == 2 ==> tw@[1] == tw@[0].opposite(),
{
    let h = domain.half_coset;
    let y = h.initial.y;
    proof {
        lemma2_to64();
        reveal_with_fuel(bit_rev, 2);
        assert(h.index_s(0) == h.initial_index.0);
    }
    if h.log_size == 0 {
        let tw: Vec<M31> = vec![y];
        proof {
            lemma_circle_values_fit(domain, tw@);
        }
        tw
    } else {
        let tw: Vec<M31> = vec![y, y.neg()];
        proof {
            crate::circle::lemma_gen_point_half_turn(h.initial_index.0 as nat);
            assert(bit_rev(1, 1) == 1);
            assert(h.index_s(1) == h.initial_index.0 + 0x4000_0000);
            lemma_circle_values_fit(domain, tw@);
        }
        tw
    }
}

/// The circle FFT: the values of a polynomial on a domain, into the given buffer.
pub fn evaluate_into_scalar(
    poly: &CircleCoefficients,
    domain: CircleDomain,
    twiddles: &TwiddleTree,
    buffer: Vec<M31>,
) -> (r: CircleEvaluation)
    requires
        poly.wf(),
        domain.wf(),
        twiddles.wf(),
        domain.half_coset.doubling_of_s(twiddles.root_coset),
        poly.log_size <= domain.log_size_s(),
        buffer.len() == domain.size_s(),
    ensures
        r.wf(),
        r.domain == domain,
        forall|j: int|
            0 <= j < domain.size_s() ==> #[trigger] r.values@[j] == poly_at(
                poly.coeffs@,
                poly.log_size as nat,
                domain.reversed_at(j).x,
                domain.reversed_at(j).y,
            ).canon(),
{
    let n = domain.log_size();
    let ghost c = padded(poly.coeffs@, domain.size_s());
    let mut values: Vec<M31> = buffer;
    let len = values.len();
    let poly_len = poly.coeffs.len();
    proof {
        lemma_pow2_le(poly.log_size as nat, n as nat);
        lemma_pow2_bound(n as nat);
    }
    // Copy the coefficients and pad them with zeros.
    for k in 0..len
        invariant
            len == values.len(),
            len == domain.size_s(),
            poly_len == poly.coeffs.len(),
            c == padded(poly.coeffs@, len as nat),
            forall|j: int| 0 <= j < k ==> #[trigger] values@[j] == c[j],
    {
        if k < poly_len {
            values.set(k, poly.coeffs[k]);
        } else {
            values.set(k, M31(0));
        }
    }
    assert(values@ =~= c);
    let line = domain_line_twiddles_from_tree_checked(domain, twiddles);
    let circle = circle_layer_twiddles(domain, twiddles, &line);
    let mut i: u32 = n;
    proof {
        lemma_start(values@, n as nat);
        assert forall|j: int| #[trigger] place(j) && 0 <= j < len implies folded_at(
            values@,
            n as nat,
            j,
            domain.reversed_at(j),
        ) == poly_at(c, n as nat, domain.reversed_at(j).x, domain.reversed_at(j).y) by {
            assert(block_of(values@, n as nat, j) == values@);
        }
    }
    while i > 1
        invariant
            1 <= i <= n,
            n == domain.log_size_s(),
            domain.wf(),
            twiddles.wf(),
            domain.half_coset.doubling_of_s(twiddles.root_coset),
            line.len() == domain.half_coset.log_size,
            forall|k: int|
                0 <= k < line.len() ==> (#[trigger] line@[k])@ == twiddles.twiddles@.subrange(
                    twiddles.twiddles.len() - pow2((domain.half_coset.log_size - k) as nat),
                    twiddles.twiddles.len() - pow2((domain.half_coset.log_size - 1 - k) as nat),
                ),
            values.len() == len,
            len == pow2(n as nat),
            len <= 0x8000_0000,
            forall|j: int| #[trigger]
                place(j) && 0 <= j < len ==> folded_at(
                    values@,
                    i as nat,
                    j,
                    domain.reversed_at(j),
                ) == poly_at(c, n as nat, domain.reversed_at(j).x, domain.reversed_at(j).y),
        decreases i,
    {
        i = i - 1;
        let ghost before = values@;
        let tw = line[i as usize - 1];
        proof {
            lemma_line_layer_fits(
                twiddles.twiddles@,
                twiddles.root_coset,
                domain,
                i as nat,
                tw@,
            );
            lemma_mul_is_commutative(tw.len() as int, pow2((i + 1) as nat) as int);
        }
        fft_full_layer(&mut values, i, tw, false);
        proof {
            assert forall|j: int| #[trigger] place(j) && 0 <= j < len implies folded_at(
                values@,
                i as nat,
                j,
                domain.reversed_at(j),
            ) == poly_at(c, n as nat, domain.reversed_at(j).x, domain.reversed_at(j).y) by {
                lemma_butterfly_step(before, n as nat, i as nat, tw@, j, domain.reversed_at(j));
            }
        }
    }
    let ghost before = values@;
    proof {
        lemma2_to64();
        lemma_mul_is_commutative(circle.len() as int, pow2(1) as int);
    }
    fft_full_layer(&mut values, 0, circle.as_slice(), false);
    proof {
        assert forall|j: int| 0 <= j < len implies #[trigger] values@[j] == poly_at(
            poly.coeffs@,
            poly.log_size as nat,
            domain.reversed_at(j).x,
            domain.reversed_at(j).y,
        ).canon() by {
            assert(place(j));
            let p = domain.reversed_at(j);
            lemma_butterfly_step(before, n as nat, 0, circle@, j, p);
            assert(j / 1 == j);
            assert(folded_at(values@, 0, j, p) == values@[j]);
            lemma_poly_at_padded(poly.coeffs@, poly.log_size as nat, n as nat, p.x, p.y);
            lemma_layer_canonical(before, 0, circle@, j);
        }
    }
    CircleEvaluation { domain, values }
}

/// The block of size `2^n` of a sequence of that length is the sequence.
pub proof fn lemma_start(v: Seq<M31>, n: nat)
    requires
        v.len() == pow2(n),
    ensures
        forall|j: int| 0 <= j < v.len() ==> #[trigger] block_of(v, n, j) == v,
{
    assert forall|j: int| 0 <= j < v.len() implies #[trigger] block_of(v, n, j) == v by {
        vstd::arithmetic::div_mod::lemma_basic_div(j, pow2(n) as int);
        assert(0 * pow2(n) == 0);
        assert(block_of(v, n, j) =~= v);
    }
}

/// Butterflies return canonical representatives.
pub proof fn lemma_layer_canonical(v: Seq<M31>, i: nat, tw: Seq<M31>, j: int)
    requires
        0 <= j < v.len(),
    ensures
        butterfly_layer(v, i, tw)[j].canon() == butterfly_layer(v, i, tw)[j],
        ibutterfly_layer(v, i, tw)[j].canon() == ibutterfly_layer(v, i, tw)[j],
{
    let t = tw[j / (pow2(i + 1) as int)];
    if low_half(j, i) {
        M31::law_canon_results(v[j], v[j + pow2(i)].times(t));
        M31::law_canon_results(v[j], v[j + pow2(i)]);
    } else {
        M31::law_canon_results(v[j - pow2(i)], v[j].times(t));
        M31::law_canon_results(v[j - pow2(i)].minus(v[j]), t);
    }
}

pub(crate) fn domain_line_twiddles_from_tree_checked<'a>(domain: CircleDomain, tree: &'a TwiddleTree) -> (r: Vec<
    &'a [M31],
>)
    requires
        tree.wf(),
        domain.wf(),
        domain.half_coset.doubling_of_s(tree.root_coset),
    ensures
        r.len() == domain.half_coset.log_size,
        forall|k: int|
            0 <= k < r.len() ==> (#[trigger] r@[k])@ == tree.twiddles@.subrange(
                tree.twiddles.len() - pow2((domain.half_coset.log_size - k) as nat),
                tree.twiddles.len() - pow2((domain.half_coset.log_size - 1 - k) as nat),
            ),
{
    proof {
        lemma_pow2_le(domain.half_coset.log_size as nat, tree.root_coset.log_size as nat);
    }
    domain_line_twiddles_from_tree(domain, &tree.twiddles)
}

} // verus!
