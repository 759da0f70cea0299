//! The twiddle factors of the circle FFT.

use vstd::arithmetic::div_mod::{
    lemma_fundamental_div_mod, lemma_mod_bound, lemma_mul_mod_noop_right, lemma_small_mod,
};
use vstd::arithmetic::mul::lemma_mul_is_associative;
use vstd::arithmetic::power2::{lemma2_to64, lemma_pow2_adds, lemma_pow2_pos, pow2};
use vstd::prelude::*;

use super::domain::{lemma_doubled_at, CircleDomain};
use crate::circle::{
    circle_order, coset_s, gen_point, lemma_gen_point_add, lemma_gen_point_landmarks,
    lemma_gen_point_mod, lemma_gen_point_on_circle, lemma_gen_point_power, subgroup_step,
    CirclePoint, Coset,
};
use crate::fields::batch::batch_inverse;
use crate::fields::m31::M31;
use crate::fields::prime::lemma_generator_injective;
use crate::fields::{lemma_mul_zero, Field};
use crate::utils::{
    bit_rev, bit_reverse, lemma_bit_rev_range, lemma_pow2_double, lemma_pow2_le, pow2_usize,
};

verus! {

/// The twiddle of block `h` in the layer of `2^m` blocks below `root`: the `x` coordinate of a
/// point of `root` doubled down to the size `2^(m+1)`.
pub open spec fn layer_twiddle(root: Coset, m: int, h: int) -> M31 {
    root.repeated_double_s((root.log_size - 1 - m) as nat).at_s(bit_rev(h, m as nat)).x
}

/// The place of a twiddle in the tower.
pub open spec fn tower_index(log: nat, m: int, h: int) -> int {
    pow2(log) - pow2((m + 1) as nat) + h
}

/// The layers below `root`, largest first, followed by a one.
pub open spec fn is_tower(root: Coset, tower: Seq<M31>) -> bool {
    &&& tower.len() == root.size_s()
    &&& tower[tower.len() - 1] == M31::one_el()
    &&& forall|m: int, h: int|
        #![trigger layer_twiddle(root, m, h)]
        0 <= m < root.log_size && 0 <= h < pow2(m as nat) ==> tower[tower_index(
            root.log_size as nat,
            m,
            h,
        )] == layer_twiddle(root, m, h)
}

/// No twiddle below `root` is zero.
pub open spec fn tower_nonzero(root: Coset) -> bool {
    forall|m: int, h: int|
        #![trigger layer_twiddle(root, m, h)]
        0 <= m < root.log_size && 0 <= h < pow2(m as nat) ==> layer_twiddle(root, m, h)
            != M31::zero_el()
}

/// Twiddles for all domains whose half coset is a doubling of the root, and their inverses.
pub struct TwiddleTree {
    pub root_coset: Coset,
    pub twiddles: Vec<M31>,
    pub itwiddles: Vec<M31>,
}

impl TwiddleTree {
    pub open spec fn wf(self) -> bool {
        &&& self.root_coset.wf()
        &&& is_tower(self.root_coset, self.twiddles@)
        &&& self.itwiddles.len() == self.twiddles.len()
        &&& forall|k: int|
            0 <= k < self.twiddles.len() ==> self.twiddles@[k].times(#[trigger] self.itwiddles@[k])
                == M31::one_el() && self.itwiddles@[k].canon() == self.itwiddles@[k]
    }
}

pub proof fn lemma_double_step(root: Coset, k: nat)
    requires
        root.wf(),
        k < root.log_size,
    ensures
        root.repeated_double_s(k).double_s() == root.repeated_double_s(k + 1),
{
    let n = circle_order() as int;
    let i = root.initial_index.0 as int;
    let p = pow2(k) as int;
    lemma_pow2_double(k + 1);
    lemma_mod_bound(p * i, n);
    lemma_mul_mod_noop_right(2, p * i, n);
    lemma_mul_is_associative(2, p, i);
}

proof fn lemma_step_point(c: Coset, k: int)
    requires
        c.wf(),
        0 <= k,
    ensures
        c.at_s(k).join(c.step) == c.at_s(k + 1),
{
    let s = subgroup_step(c.log_size as nat);
    lemma_gen_point_mod(s);
    assert(k * s >= 0) by (nonlinear_arith)
        requires
            k >= 0,
            s >= 0,
    ;
    lemma_gen_point_add(c.index_s(k), s);
    assert((k + 1) * s == k * s + s) by (nonlinear_arith);
    assert(c.index_s(k + 1) == c.index_s(k) + s);
}

/// The `x` coordinates of the first half of a coset, in bit-reversed order.
fn coset_layer(coset: Coset) -> (layer: Vec<M31>)
    requires
        coset.wf(),
        coset.log_size > 0,
    ensures
        layer.len() == pow2((coset.log_size - 1) as nat),
        forall|h: int|
            0 <= h < layer.len() ==> #[trigger] layer@[h] == coset.at_s(
                bit_rev(h, (coset.log_size - 1) as nat),
            ).x,
{
    let half = pow2_usize(coset.log_size - 1);
    let mut natural: Vec<M31> = Vec::with_capacity(half);
    let mut point = coset.at(0);
    for k in 0..half
        invariant
            coset.wf(),
            natural.len() == k,
            point == coset.at_s(k as int),
            forall|i: int| 0 <= i < k ==> #[trigger] natural@[i] == coset.at_s(i).x,
    {
        natural.push(point.x);
        proof {
            lemma_step_point(coset, k as int);
        }
        point = point.add(coset.step);
    }
    let layer = bit_reverse(&natural, coset.log_size - 1);
    proof {
        assert forall|h: int| 0 <= h < layer.len() implies #[trigger] layer@[h] == coset.at_s(
            bit_rev(h, (coset.log_size - 1) as nat),
        ).x by {
            lemma_bit_rev_range(h, (coset.log_size - 1) as nat);
        }
    }
    layer
}

/// The twiddles below a coset, layer by layer, padded to a power of two.
pub fn slow_precompute_twiddles(coset: Coset) -> (r: Vec<M31>)
    requires
        coset.wf(),
    ensures
        is_tower(coset, r@),
{
    let log = coset.log_size;
    let mut twiddles: Vec<M31> = Vec::with_capacity(coset.size());
    let mut current = coset;
    let mut k: u32 = 0;
    proof {
        lemma2_to64();
        let n = circle_order() as int;
        assert(pow2(0) * coset.initial_index.0 == coset.initial_index.0);
        lemma_small_mod(coset.initial_index.0 as nat, circle_order());
        assert(coset.repeated_double_s(0) == coset);
    }
    while k < log
        invariant
            coset.wf(),
            current.wf(),
            log == coset.log_size,
            k <= log,
            current == coset.repeated_double_s(k as nat),
            twiddles.len() == pow2(log as nat) - pow2((log - k) as nat),
            forall|m: int, h: int|
                #![trigger layer_twiddle(coset, m, h)]
                log - k <= m < log && 0 <= h < pow2(m as nat) ==> twiddles@[tower_index(
                    log as nat,
                    m,
                    h,
                )] == layer_twiddle(coset, m, h),
        decreases log - k,
    {
        let layer = coset_layer(current);
        let ghost before = twiddles@;
        let ghost added = layer@;
        let mut layer = layer;
        twiddles.append(&mut layer);
        proof {
            lemma_double_step(coset, k as nat);
            lemma_pow2_double((log - k) as nat);
            let m0 = log - 1 - k;
            assert forall|m: int, h: int|
                #![trigger layer_twiddle(coset, m, h)]
                m0 <= m < log && 0 <= h < pow2(m as nat) implies twiddles@[tower_index(
                log as nat,
                m,
                h,
            )] == layer_twiddle(coset, m, h) by {
                let idx = tower_index(log as nat, m, h);
                lemma_pow2_double((m + 1) as nat);
                lemma_pow2_le((m + 1) as nat, log as nat);
                if m == m0 {
                    assert(idx == before.len() + h);
                    assert(twiddles@[idx] == added[h]);
                } else {
                    lemma_pow2_le((log - k) as nat, m as nat);
                    assert(idx < before.len());
                    assert(twiddles@[idx] == before[idx]);
                }
            }
        }
        current = current.double();
        k = k + 1;
    }
    let ghost before = twiddles@;
    twiddles.push(M31(1));
    proof {
        lemma2_to64();
        assert forall|m: int, h: int|
            #![trigger layer_twiddle(coset, m, h)]
            0 <= m < log && 0 <= h < pow2(m as nat) implies twiddles@[tower_index(
            log as nat,
            m,
            h,
        )] == layer_twiddle(coset, m, h) by {
            let idx = tower_index(log as nat, m, h);
            lemma_pow2_double((m + 1) as nat);
            lemma_pow2_le((m + 1) as nat, log as nat);
            lemma_pow2_pos(m as nat);
            assert(0 <= idx < before.len());
            assert(twiddles@[idx] == before[idx]);
        }
    }
    twiddles
}

/// Every place of a tower but the last is that of some twiddle.
pub proof fn lemma_tower_place(log: nat, idx: int)
    requires
        0 <= idx < pow2(log) - 1,
    ensures
        exists|m: int, h: int|
            0 <= m < log && 0 <= h < pow2(m as nat) && idx == #[trigger] tower_index(log, m, h),
    decreases log,
{
    if log == 0 {
        lemma2_to64();
    } else {
        let l1 = (log - 1) as nat;
        lemma_pow2_double(log);
        if idx < pow2(l1) {
            assert(tower_index(log, l1 as int, idx) == idx);
        } else {
            lemma_tower_place(l1, idx - pow2(l1));
            let (m, h) = choose|m: int, h: int|
                0 <= m < l1 && 0 <= h < pow2(m as nat) && idx - pow2(l1) == #[trigger] tower_index(
                    l1,
                    m,
                    h,
                );
            assert(tower_index(log, m, h) == idx);
        }
    }
}

/// The twiddles below a coset and their inverses.
pub fn precompute_twiddles(coset: Coset) -> (r: TwiddleTree)
    requires
        coset.wf(),
        tower_nonzero(coset),
    ensures
        r.wf(),
        r.root_coset == coset,
{
    let twiddles = slow_precompute_twiddles(coset);
    proof {
        assert forall|i: int| 0 <= i < twiddles.len() implies (#[trigger] twiddles@[i]).canon()
            != M31::zero_el() by {
            let log = coset.log_size as nat;
            if i < twiddles.len() - 1 {
                lemma_tower_place(log, i);
                let (m, h) = choose|m: int, h: int|
                    0 <= m < log && 0 <= h < pow2(m as nat) && i == #[trigger] tower_index(
                        log,
                        m,
                        h,
                    );
                let t = layer_twiddle(coset, m, h);
                assert(twiddles@[i] == t);
                crate::circle::lemma_gen_point_canonical(
                    coset.repeated_double_s((log - 1 - m) as nat).index_s(bit_rev(h, m as nat)),
                );
            }
        }
    }
    let itwiddles = batch_inverse(&twiddles);
    TwiddleTree { root_coset: coset, twiddles, itwiddles }
}

/// A point with `x = 0` doubles to `(-1, 0)`.
proof fn lemma_x_zero_doubles(p: CirclePoint<M31>)
    requires
        p.x == M31::zero_el(),
        crate::circle::norm_of(p) == M31::one_el(),
    ensures
        p.join(p) == (CirclePoint { x: M31(2147483646), y: M31(0) }),
{
    lemma_mul_zero(p.x);
    lemma_mul_zero(p.y);
    let yy = p.y.times(p.y);
    M31::law_add_comm(M31::zero_el(), yy);
    M31::law_add_zero(yy);
    M31::law_canon_results(p.y, p.y);
    assert(yy == M31::one_el());
    assert(M31(0).minus(M31(1)) == M31(2147483646));
    M31::law_add_zero(M31(0));
}

/// Only the index half way round names the point `(-1, 0)`.
pub proof fn lemma_half_way_index(n: nat)
    requires
        gen_point(n) == (CirclePoint { x: M31(2147483646), y: M31(0) }),
    ensures
        n % 0x8000_0000 == 0x4000_0000,
{
    lemma_gen_point_landmarks();
    let d = n % circle_order();
    lemma_gen_point_mod(n);
    lemma_mod_bound(n as int, circle_order() as int);
    lemma_gen_point_power(d);
    lemma_gen_point_power(0x4000_0000);
    if d < 0x4000_0000 {
        lemma_generator_injective(d, 0x4000_0000);
    } else if d > 0x4000_0000 {
        lemma_generator_injective(0x4000_0000, d);
    }
}

/// The `x` coordinate vanishes only a quarter or three quarters of the way round.
pub proof fn lemma_gen_point_x_zero(n: nat)
    requires
        gen_point(n).x == M31::zero_el(),
    ensures
        n % 0x4000_0000 == 0x2000_0000,
{
    lemma_gen_point_on_circle(n);
    lemma_x_zero_doubles(gen_point(n));
    lemma_gen_point_add(n, n);
    lemma_half_way_index(n + n);
}

/// The half coset of a canonical domain has no zero twiddle.
pub proof fn lemma_half_odds_nonzero(log: nat)
    requires
        log <= 29,
    ensures
        tower_nonzero(coset_s(subgroup_step((log + 2) as nat) as int, log)),
{
    let root = coset_s(subgroup_step((log + 2) as nat) as int, log);
    crate::circle::lemma_step_small((log + 2) as nat);
    lemma_mod_bound(subgroup_step(log) as int, circle_order() as int);
    assert(root.wf());
    assert forall|m: int, h: int|
        #![trigger layer_twiddle(root, m, h)]
        0 <= m < root.log_size && 0 <= h < pow2(m as nat) implies layer_twiddle(root, m, h)
        != M31::zero_el() by {
        let d = (log - 1 - m) as nat;
        let k = bit_rev(h, m as nat);
        lemma_bit_rev_range(h, m as nat);
        lemma_doubled_at(root, d, k);
        let e = (29 - log + d) as nat;
        let i0 = subgroup_step((log + 2) as nat) as int;
        lemma_pow2_adds((29 - log) as nat, 2);
        lemma2_to64();
        assert(subgroup_step(log) == i0 * 4);
        let idx = pow2(d) * root.index_s(k);
        lemma_pow2_adds((29 - log) as nat, d);
        let o = 1 + 4 * k;
        let pd = pow2(d) as int;
        assert(k * (i0 * 4) >= 0) by (nonlinear_arith)
            requires
                k >= 0,
                i0 >= 0,
        ;
        assert(pd * (i0 + k * (i0 * 4)) == (i0 * pd) * (1 + 4 * k)) by (nonlinear_arith);
        assert(idx as int == pow2(e) * o);
        if layer_twiddle(root, m, h) == M31::zero_el() {
            lemma_gen_point_x_zero(idx);
            // An odd multiple of 2^e with e < 29 is no multiple of 2^(e+1).
            let c = (28 - e) as nat;
            lemma_pow2_adds((e + 1) as nat, c);
            lemma_pow2_double((e + 1) as nat);
            assert(pow2(29) == 0x2000_0000);
            let pe = pow2(e) as int;
            let pc = pow2(c) as int;
            assert(2 * (pe * pc) == 0x2000_0000) by (nonlinear_arith)
                requires
                    (2 * pe) * pc == 0x2000_0000,
            ;
            let z = idx as int / 0x4000_0000;
            lemma_fundamental_div_mod(idx as int, 0x4000_0000);
            let w = pe * pc;
            assert(w == 0x1000_0000);
            assert(pe * o == pe * (2 * pc + z * (4 * pc))) by (nonlinear_arith)
                requires
                    pe * o == 0x4000_0000 * z + 0x2000_0000,
                    pe * pc == 0x1000_0000,
            ;
            lemma_pow2_pos(e);
            vstd::arithmetic::mul::lemma_mul_equality_converse(
                pe,
                o,
                2 * pc + z * (4 * pc),
            );
            assert(z * (4 * pc) == 2 * (2 * (z * pc))) by (nonlinear_arith);
            assert(o % 2 == 1);
            assert(false);
        }
    }
}

/// The layers that the FFT on `domain` uses, largest first: line layer `k` has
/// `2^(log - 2 - k)` twiddles for a domain of size `2^log`.
pub fn domain_line_twiddles_from_tree(domain: CircleDomain, buffer: &Vec<M31>) -> (r: Vec<&[M31]>)
    requires
        domain.wf(),
        domain.half_coset.size_s() <= buffer.len(),
    ensures
        r.len() == domain.half_coset.log_size,
        forall|k: int|
            0 <= k < r.len() ==> (#[trigger] r@[k])@ == buffer@.subrange(
                buffer.len() - pow2((domain.half_coset.log_size - k) as nat),
                buffer.len() - pow2((domain.half_coset.log_size - 1 - k) as nat),
            ),
{
    let log = domain.half_coset.log_size;
    let len = buffer.len();
    let mut r: Vec<&[M31]> = Vec::new();
    let mut k: u32 = 0;
    while k < log
        invariant
            k <= log <= 30,
            len == buffer.len(),
            pow2(log as nat) <= len,
            r.len() == k,
            forall|i: int|
                0 <= i < k ==> (#[trigger] r@[i])@ == buffer@.subrange(
                    len - pow2((log - i) as nat),
                    len - pow2((log - 1 - i) as nat),
                ),
        decreases log - k,
    {
        proof {
            lemma_pow2_le((log - k) as nat, log as nat);
            lemma_pow2_double((log - k) as nat);
        }
        let layer = vstd::slice::slice_subrange(
            buffer.as_slice(),
            len - pow2_usize(log - k),
            len - pow2_usize(log - 1 - k),
        );
        r.push(layer);
        k = k + 1;
    }
    r
}

/// The twiddle of block `q` of the circle layer, from those of the first line layer.
///
/// Four neighbours in bit-reversed order are `(x, y), (-x, -y), (y, -x), (-y, x)`, and the line
/// layer holds their `x` and `y`. The same relation holds between the inverses.
pub open spec fn circle_twiddle(first: Seq<M31>, q: int) -> M31 {
    let a = q / 4;
    if q % 4 == 0 {
        first[2 * a + 1]
    } else if q % 4 == 1 {
        first[2 * a + 1].opposite()
    } else if q % 4 == 2 {
        first[2 * a].opposite()
    } else {
        first[2 * a]
    }
}

/// The twiddles of the circle layer.
pub fn circle_twiddles_from_line_twiddles(first: &[M31]) -> (r: Vec<M31>)
    requires
        first.len() % 2 == 0,
        first.len() <= 0x4000_0000,
    ensures
        r.len() == 2 * first.len(),
        forall|q: int| 0 <= q < r.len() ==> #[trigger] r@[q] == circle_twiddle(first@, q),
{
    let mut r: Vec<M31> = Vec::with_capacity(2 * first.len());
    let mut k: usize = 0;
    while k < first.len()
        invariant
            first.len() % 2 == 0,
            k % 2 == 0,
            k <= first.len(),
            r.len() == 2 * k,
            forall|q: int| 0 <= q < 2 * k ==> #[trigger] r@[q] == circle_twiddle(first@, q),
        decreases first.len() - k,
    {
        let x = first[k];
        let y = first[k + 1];
        r.push(y);
        r.push(y.neg());
        r.push(x.neg());
        r.push(x);
        k = k + 2;
    }
    r
}

} // verus!
