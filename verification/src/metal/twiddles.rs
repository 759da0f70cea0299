//! Twiddles in device passes: one pass for each layer, one point for each thread.

use vstd::arithmetic::power2::{lemma2_to64, lemma_pow2_pos, pow2};
use vstd::prelude::*;

use crate::circle::{
    circle_order, gen_point, lemma_gen_point_add, subgroup_step, CirclePoint, Coset,
};
use crate::fields::m31::M31;
use crate::fields::Field;
use crate::poly::twiddles::{
    layer_twiddle, lemma_double_step, tower_index, tower_nonzero, TwiddleTree,
};
use crate::utils::{
    bit_rev, bit_reverse_index, lemma_bit_rev_range, lemma_pow2_bound, lemma_pow2_double,
    lemma_pow2_le, pow2_usize,
};

verus! {

/// The least logarithmic size of a coset whose twiddles are computed in passes.
pub const MIN_METAL_TWIDDLE_LOG_SIZE: u32 = 16;

/// The parameters of a layer's pass.
#[derive(Clone, Copy, Debug, PartialEq, Eq, Structural)]
pub struct LayerParams {
    pub initial_x: u32,
    pub initial_y: u32,
    pub step_x: u32,
    pub step_y: u32,
    /// The logarithm of the layer's length: half of the coset's.
    pub layer_log: u32,
    /// Where the layer starts.
    pub out_offset: u32,
}

/// The parameters of the layer of a root coset doubled `k` times.
pub open spec fn layer_params_s(root: Coset, k: int) -> LayerParams {
    let c = root.repeated_double_s(k as nat);
    LayerParams {
        initial_x: c.initial.x.0,
        initial_y: c.initial.y.0,
        step_x: c.step.x.0,
        step_y: c.step.y.0,
        layer_log: (root.log_size - 1 - k) as u32,
        out_offset: (pow2(root.log_size as nat) - pow2((root.log_size - k) as nat)) as u32,
    }
}

/// The passes that compute the twiddles below a coset.
pub fn layer_passes(coset: Coset) -> (r: Vec<LayerParams>)
    requires
        coset.wf(),
        coset.log_size <= 31,
    ensures
        r@ == Seq::new(coset.log_size as nat, |k: int| layer_params_s(coset, k)),
{
    let log = coset.log_size;
    let ghost target = Seq::new(log as nat, |k: int| layer_params_s(coset, k));
    let mut current = coset;
    let mut offset: u32 = 0;
    let mut r: Vec<LayerParams> = Vec::new();
    proof {
        lemma2_to64();
        assert(pow2(0) * coset.initial_index.0 == coset.initial_index.0);
        vstd::arithmetic::div_mod::lemma_small_mod(
            coset.initial_index.0 as nat,
            circle_order(),
        );
    }
    let mut k: u32 = 0;
    while k < log
        invariant
            k <= log <= 31,
            coset.wf(),
            log == coset.log_size,
            current.wf(),
            current == coset.repeated_double_s(k as nat),
            offset == pow2(log as nat) - pow2((log - k) as nat),
            target == Seq::new(log as nat, |k: int| layer_params_s(coset, k)),
            r@ == target.take(k as int),
        decreases log - k,
    {
        let half_log = current.log_size - 1;
        r.push(
            LayerParams {
                initial_x: current.initial.x.0,
                initial_y: current.initial.y.0,
                step_x: current.step.x.0,
                step_y: current.step.y.0,
                layer_log: half_log,
                out_offset: offset,
            },
        );
        proof {
            lemma_pow2_bound(log as nat);
            lemma_pow2_double((log - k) as nat);
            lemma_pow2_pos((log - k - 1) as nat);
            lemma_double_step(coset, k as nat);
        }
        offset = offset + pow2_usize(half_log) as u32;
        current = current.double();
        k += 1;
        assert(r@ =~= target.take(k as int));
    }
    assert(r@ =~= target);
    r
}

/// The `k`-th point of a coset by doubling and adding.
pub fn point_by_doubling(coset: Coset, k: u32) -> (r: CirclePoint<M31>)
    requires
        coset.wf(),
    ensures
        r == coset.at_s(k as int),
{
    let ghost step = coset.step_size.0 as int;
    let mut acc = coset.initial;
    let mut base = coset.step;
    let mut left: u32 = k;
    let ghost mut a = coset.initial_index.0 as int;
    let ghost mut b = step;
    while left != 0
        invariant
            acc == gen_point(a as nat),
            base == gen_point(b as nat),
            a >= 0,
            b >= 0,
            a + b * left == coset.initial_index.0 + step * k,
        decreases left,
    {
        let ghost (a0, b0, l0) = (a, b, left as int);
        if left % 2 == 1 {
            proof {
                lemma_gen_point_add(a as nat, b as nat);
                a = a + b;
            }
            acc = acc.add(base);
        }
        proof {
            lemma_gen_point_add(b as nat, b as nat);
            b = b + b;
            assert(a0 + b0 * l0 == a + (2 * b0) * (l0 / 2)) by (nonlinear_arith)
                requires
                    a == if l0 % 2 == 1 {
                        a0 + b0
                    } else {
                        a0
                    },
                    l0 >= 0,
            ;
        }
        base = base.add(base);
        left = left / 2;
    }
    proof {
        // The step counts modulo the order of the group.
        let s = subgroup_step(coset.log_size as nat) as int;
        let n = circle_order() as int;
        let init = coset.initial_index.0 as int;
        vstd::arithmetic::div_mod::lemma_fundamental_div_mod(s, n);
        let q = s / n;
        assert(b * 0 == 0);
        assert(a == init + step * k);
        assert(step * k >= 0) by (nonlinear_arith)
            requires
                step >= 0,
                k >= 0,
        ;
        assert(q * k >= 0) by (nonlinear_arith)
            requires
                q >= 0,
                k >= 0,
        ;
        assert(init + k * s == a + n * (q * k)) by (nonlinear_arith)
            requires
                s == n * q + step,
                a == init + step * k,
        ;
        crate::circle::lemma_gen_point_period(a as nat, (q * k) as nat);
        assert(n * (q * k) == circle_order() * ((q * k) as nat));
    }
    acc
}

/// The twiddle of thread `h` in the layer of a coset.
#[verifier::opaque]
spec fn layer_x(coset: Coset, h: int) -> M31 {
    coset.at_s(bit_rev(h, (coset.log_size - 1) as nat)).x
}

/// The twiddle of one thread.
fn thread_twiddle(coset: Coset, i: usize) -> (r: M31)
    requires
        coset.wf(),
        coset.log_size > 0,
        i < pow2((coset.log_size - 1) as nat),
    ensures
        r == layer_x(coset, i as int),
{
    let half_log: u32 = coset.log_size - 1;
    proof {
        lemma_pow2_bound(half_log as nat);
        lemma_bit_rev_range(i as int, half_log as nat);
        reveal(layer_x);
    }
    let j: usize = bit_reverse_index(i, half_log);
    point_by_doubling(coset, j as u32).x
}

/// The twiddles of one layer and their inverses: each thread takes one point.
fn run_layer(coset: Coset) -> (r: (Vec<M31>, Vec<M31>))
    requires
        coset.wf(),
        coset.log_size > 0,
        forall|h: int|
            0 <= h < pow2((coset.log_size - 1) as nat) ==> (#[trigger] layer_x(coset, h)).canon()
                != M31::zero_el(),
    ensures
        r.0@ == Seq::new(pow2((coset.log_size - 1) as nat), |h: int| layer_x(coset, h)),
        r.1@.len() == r.0@.len(),
        forall|h: int|
            0 <= h < r.0@.len() ==> is_inverse_pair(r.0@[h], #[trigger] r.1@[h]),
{
    let half: usize = pow2_usize(coset.log_size - 1);
    let mut twiddles: Vec<M31> = Vec::with_capacity(half);
    let mut itwiddles: Vec<M31> = Vec::with_capacity(half);
    let ghost target = Seq::new(pow2((coset.log_size - 1) as nat), |h: int| layer_x(coset, h));
    for i in 0..half
        invariant
            coset.wf(),
            coset.log_size > 0,
            half == pow2((coset.log_size - 1) as nat),
            target == Seq::new(pow2((coset.log_size - 1) as nat), |h: int| layer_x(coset, h)),
            forall|h: int|
                0 <= h < half ==> (#[trigger] layer_x(coset, h)).canon() != M31::zero_el(),
            twiddles@ == target.take(i as int),
            itwiddles@.len() == i,
            forall|h: int|
                0 <= h < i ==> is_inverse_pair(twiddles@[h], #[trigger] itwiddles@[h]),
    {
        let x = thread_twiddle(coset, i);
        let ghost before = (twiddles@, itwiddles@);
        let inverse = x.inverse();
        twiddles.push(x);
        itwiddles.push(inverse);
        proof {
            assert(twiddles@ =~= target.take(i + 1));
            assert forall|h: int| 0 <= h < i + 1 implies is_inverse_pair(
                twiddles@[h],
                #[trigger] itwiddles@[h],
            ) by {
                if h < i {
                    assert(is_inverse_pair(before.0[h], before.1[h]));
                }
            }
        }
    }
    assert(twiddles@ =~= target);
    (twiddles, itwiddles)
}

/// The second is the canonical inverse of the first.
pub open spec fn is_inverse_pair(t: M31, u: M31) -> bool {
    t.times(u) == M31::one_el() && u.canon() == u
}

/// The layers of a doubled coset have no zero either.
proof fn lemma_layer_nonzero(root: Coset, k: nat)
    requires
        root.wf(),
        tower_nonzero(root),
        k < root.log_size,
    ensures
        ({
            let c = root.repeated_double_s(k);
            forall|h: int|
                0 <= h < pow2((c.log_size - 1) as nat) ==> (#[trigger] layer_x(c, h)).canon()
                    != M31::zero_el() && layer_x(c, h) == layer_twiddle(
                    root,
                    root.log_size - 1 - k,
                    h,
                )
        }),
{
    let c = root.repeated_double_s(k);
    let m = root.log_size - 1 - k;
    reveal(layer_x);
    assert forall|h: int| 0 <= h < pow2((c.log_size - 1) as nat) implies (#[trigger] layer_x(
        c,
        h,
    )).canon() != M31::zero_el() && layer_x(c, h) == layer_twiddle(root, m, h) by {
        assert(layer_twiddle(root, m, h) != M31::zero_el());
        crate::circle::lemma_gen_point_canonical(c.index_s(bit_rev(h, m as nat)));
    }
}

/// The twiddles below a large coset, layer after layer.
pub fn precompute_twiddles_metal(coset: Coset) -> (r: Option<TwiddleTree>)
    requires
        coset.wf(),
        tower_nonzero(coset),
    ensures
        r is Some <==> coset.log_size >= 16,
        match r {
            Some(tree) => tree.wf() && tree.root_coset == coset,
            None => true,
        },
{
    if coset.log_size < MIN_METAL_TWIDDLE_LOG_SIZE {
        return None;
    }
    let log: u32 = coset.log_size;
    let mut twiddles: Vec<M31> = Vec::with_capacity(coset.size());
    let mut itwiddles: Vec<M31> = Vec::with_capacity(coset.size());
    let mut current = coset;
    let mut k: u32 = 0;
    proof {
        lemma2_to64();
        assert(pow2(0) * coset.initial_index.0 == coset.initial_index.0);
        vstd::arithmetic::div_mod::lemma_small_mod(
            coset.initial_index.0 as nat,
            circle_order(),
        );
        assert(coset.repeated_double_s(0) == coset);
    }
    while k < log
        invariant
            coset.wf(),
            tower_nonzero(coset),
            current.wf(),
            log == coset.log_size,
            k <= log,
            current == coset.repeated_double_s(k as nat),
            twiddles@.len() == pow2(log as nat) - pow2((log - k) as nat),
            itwiddles@.len() == twiddles@.len(),
            forall|m: int, h: int|
                #![trigger layer_twiddle(coset, m, h)]
                log - k <= m < log && 0 <= h < pow2(m as nat) ==> twiddles@[tower_index(
                    log as nat,
                    m,
                    h,
                )] == layer_twiddle(coset, m, h),
            forall|i: int|
                0 <= i < twiddles@.len() ==> is_inverse_pair(
                    twiddles@[i],
                    #[trigger] itwiddles@[i],
                ),
        decreases log - k,
    {
        let ghost before = twiddles@;
        let ghost ibefore = itwiddles@;
        proof {
            lemma_layer_nonzero(coset, k as nat);
        }
        let (layer, ilayer) = run_layer(current);
        let ghost (added, iadded) = (layer@, ilayer@);
        let mut layer = layer;
        let mut ilayer = ilayer;
        twiddles.append(&mut layer);
        itwiddles.append(&mut ilayer);
        proof {
            lemma_double_step(coset, k as nat);
            lemma_pow2_double((log - k) as nat);
            let m0 = log - 1 - k;
            assert forall|m: int, h: int|
                #![trigger layer_twiddle(coset, m, h)]
                m0 <= m < log && 0 <= h < pow2(m as nat) implies twiddles@[tower_index(
                log as nat,
                m,
                h,
            )] == layer_twiddle(coset, m, h) by {
                let idx = tower_index(log as nat, m, h);
                lemma_pow2_double((m + 1) as nat);
                lemma_pow2_le((m + 1) as nat, log as nat);
                if m == m0 {
                    assert(idx == before.len() + h);
                    assert(twiddles@[idx] == added[h]);
                    assert(added[h] == layer_x(current, h));
                } else {
                    lemma_pow2_le((log - k) as nat, m as nat);
                    assert(idx < before.len());
                    assert(twiddles@[idx] == before[idx]);
                }
            }
            assert forall|i: int| 0 <= i < twiddles@.len() implies is_inverse_pair(
                twiddles@[i],
                #[trigger] itwiddles@[i],
            ) by {
                if i < before.len() {
                    assert(is_inverse_pair(before[i], ibefore[i]));
                } else {
                    assert(is_inverse_pair(added[i - before.len()], iadded[i - before.len()]));
                }
            }
        }
        current = current.double();
        k = k + 1;
    }
    let ghost before = twiddles@;
    let ghost ibefore = itwiddles@;
    twiddles.push(M31(1));
    itwiddles.push(M31(1));
    proof {
        lemma2_to64();
        M31::law_mul_one(M31::one_el());
        M31::law_canon_results(M31::one_el(), M31::one_el());
        assert forall|m: int, h: int|
            #![trigger layer_twiddle(coset, m, h)]
            0 <= m < log && 0 <= h < pow2(m as nat) implies twiddles@[tower_index(
            log as nat,
            m,
            h,
        )] == layer_twiddle(coset, m, h) by {
            let idx = tower_index(log as nat, m, h);
            lemma_pow2_double((m + 1) as nat);
            lemma_pow2_le((m + 1) as nat, log as nat);
            lemma_pow2_pos(m as nat);
            assert(0 <= idx < before.len());
            assert(twiddles@[idx] == before[idx]);
        }
        assert forall|i: int| 0 <= i < twiddles@.len() implies twiddles@[i].times(
            #[trigger] itwiddles@[i],
        ) == M31::one_el() && itwiddles@[i].canon() == itwiddles@[i] by {
            if i < before.len() {
                assert(is_inverse_pair(before[i], ibefore[i]));
            }
        }
    }
    Some(TwiddleTree { root_coset: coset, twiddles, itwiddles })
}

} // verus!
