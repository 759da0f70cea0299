//! The polynomial that vanishes on the trace, on the rows of an evaluation domain.

use vstd::arithmetic::div_mod::{
    lemma_fundamental_div_mod, lemma_mod_bound, lemma_mod_multiples_vanish, lemma_small_mod,
};
use vstd::arithmetic::power2::{lemma2_to64, lemma_pow2_adds, lemma_pow2_pos, pow2};
use vstd::prelude::*;

use crate::circle::{
    circle_order, coset_s, double_x, double_x_iter, gen_point, lemma_gen_point_canonical,
    lemma_gen_point_double_x, lemma_gen_point_on_circle, lemma_gen_point_period, lemma_join_assoc,
    lemma_join_neutral, lemma_step_small, lemma_step_times_size, subgroup_step, CirclePoint, Coset,
};
use crate::fields::m31::M31;
use crate::fields::{inv_of, lemma_inv_of, lemma_mul_opposite, lemma_opposite_twice, Field};
use crate::poly::domain::{CanonicCoset, CircleDomain};
use crate::poly::twiddles::lemma_gen_point_x_zero;
use crate::utils::{
    bit_rev, bit_reverse, lemma_bit_rev_range, lemma_bit_rev_split, lemma_pow2_double,
    lemma_pow2_le, pow2_usize,
};

verus! {

/// The value at a point of the polynomial that vanishes on a coset.
pub open spec fn base_vanishing(coset: Coset, p: CirclePoint<M31>) -> M31 {
    double_x_iter(
        p.join(coset.initial.reflected()).join(gen_point((coset.step_size.0 / 2) as nat)).x,
        (coset.log_size - 1) as nat,
    )
}

pub fn coset_vanishing_base(coset: Coset, p: CirclePoint<M31>) -> (r: M31)
    requires
        coset.wf(),
        1 <= coset.log_size <= 30,
    ensures
        r == base_vanishing(coset, p),
{
    proof {
        lemma_step_small(coset.log_size as nat);
        lemma_pow2_double((31 - coset.log_size) as nat);
        assert(coset.step_size.0 == 2 * pow2((30 - coset.log_size) as nat));
    }
    let h = coset.step_size.half();
    let q = p.sub(coset.initial).add(h.to_point());
    let mut x = q.x;
    let n: u32 = coset.log_size - 1;
    for k in 0..n
        invariant
            x == double_x_iter(q.x, k as nat),
    {
        x = double_x(x);
    }
    x
}

/// A point and its reflection cancel.
pub proof fn lemma_reflected_cancels(n: nat)
    ensures
        gen_point(n).reflected().join(gen_point(n)) == CirclePoint::<M31>::neutral(),
{
    let p = gen_point(n);
    lemma_gen_point_on_circle(n);
    let xx = p.x.times(p.x);
    let yy = p.y.times(p.y);
    lemma_mul_opposite(p.y, p.y);
    M31::law_sub(xx, yy.opposite());
    lemma_opposite_twice(yy);
    M31::law_canon_results(p.y, p.y);
    let xy = p.x.times(p.y);
    M31::law_mul_comm(p.x, p.y);
    lemma_mul_opposite(p.y, p.x);
    M31::law_add_opposite(xy);
}

/// On a canonic coset the vanishing polynomial is the repeatedly doubled `x` coordinate.
pub proof fn lemma_canonic_vanishing(coset: CanonicCoset, n: nat, reflected: bool)
    requires
        coset.wf(),
    ensures
        ({
            let p = if reflected {
                gen_point(n).reflected()
            } else {
                gen_point(n)
            };
            base_vanishing(coset.coset, p) == gen_point(
                pow2((coset.coset.log_size - 1) as nat) * n,
            ).x
        }),
{
    let t = coset.coset.log_size as nat;
    let p = if reflected {
        gen_point(n).reflected()
    } else {
        gen_point(n)
    };
    lemma_step_small(t);
    lemma_step_small(t + 1);
    lemma_pow2_double((31 - t) as nat);
    let i = subgroup_step(t + 1);
    assert(coset.coset.step_size.0 / 2 == i);
    let g = gen_point(i);
    assert(coset.coset.initial == g);
    lemma_join_assoc(p, g.reflected(), g);
    lemma_reflected_cancels(i);
    lemma_join_neutral(p);
    lemma_gen_point_canonical(n);
    lemma_gen_point_double_x(n, (t - 1) as nat);
}

/// The domain on which constraints are evaluated: the part of the canonic domain, `2^log_expansion`
/// times as large, that starts where it starts.
pub open spec fn eval_domain_s(log_size: nat, log_expansion: nat) -> CircleDomain {
    CircleDomain {
        half_coset: coset_s(
            subgroup_step(log_size + log_expansion + 1) as int,
            (log_size - 1) as nat,
        ),
    }
}

proof fn lemma_eval_domain_wf(log_size: nat, log_expansion: nat)
    requires
        1 <= log_size,
        log_size + log_expansion <= 30,
    ensures
        eval_domain_s(log_size, log_expansion).wf(),
        eval_domain_s(log_size, log_expansion).log_size_s() == log_size,
{
    lemma_step_small(log_size + log_expansion + 1);
    lemma_mod_bound(subgroup_step((log_size - 1) as nat) as int, circle_order() as int);
}

/// The evaluation domain of a component with the given degree bound.
pub fn subdomain_eval_domain(max_constraint_log_degree_bound: u32, log_expansion: u32) -> (r:
    CircleDomain)
    requires
        1 <= max_constraint_log_degree_bound,
        max_constraint_log_degree_bound + log_expansion <= 30,
    ensures
        r == eval_domain_s(max_constraint_log_degree_bound as nat, log_expansion as nat),
        r.wf(),
        r.log_size_s() == max_constraint_log_degree_bound,
{
    proof {
        lemma_eval_domain_wf(max_constraint_log_degree_bound as nat, log_expansion as nat);
        lemma_step_small((max_constraint_log_degree_bound + log_expansion + 1) as nat);
    }
    let committed = CanonicCoset::new(
        max_constraint_log_degree_bound + log_expansion,
    ).circle_domain();
    committed.split(log_expansion).0
}

/// The index of the vanishing value at the `k`-th point of the half coset.
spec fn vanishing_index(t: nat, e: nat, x: nat, k: int) -> nat {
    pow2((t - 1) as nat) * eval_domain_s(e, x).half_coset.index_s(k)
}

proof fn lemma_vanishing_index_period(t: nat, e: nat, x: nat, k: int)
    requires
        1 <= t <= e,
        e + x <= 30,
        k >= 0,
    ensures
        gen_point(vanishing_index(t, e, x, k)) == gen_point(
            vanishing_index(t, e, x, k % pow2((e - t) as nat) as int),
        ),
{
    let le = (e - t) as nat;
    let m = pow2(le) as int;
    lemma_pow2_pos(le);
    let q = k / m;
    let j = k % m;
    lemma_fundamental_div_mod(k, m);
    lemma_mod_bound(k, m);
    assert(q >= 0) by {
        vstd::arithmetic::div_mod::lemma_div_pos_is_pos(k, m);
    }
    let h = eval_domain_s(e, x).half_coset;
    let step = subgroup_step((e - 1) as nat) as int;
    let pt = pow2((t - 1) as nat) as int;
    lemma_step_times_size((e - 1) as nat);
    lemma_pow2_adds((t - 1) as nat, le);
    assert(pow2((e - 1) as nat) == pt * m);
    lemma_step_small(e + x + 1);
    let init = h.initial_index.0 as int;
    assert(k * step >= 0) by (nonlinear_arith)
        requires
            k >= 0,
            step >= 0,
    ;
    assert(j * step >= 0) by (nonlinear_arith)
        requires
            j >= 0,
            step >= 0,
    ;
    let order = circle_order() as int;
    assert(pt * (init + k * step) == pt * (init + j * step) + order * q) by (nonlinear_arith)
        requires
            k == m * q + j,
            step * (pt * m) == order,
    ;
    assert(order * q == circle_order() * q as nat);
    assert(pt * (init + j * step) >= 0) by (nonlinear_arith)
        requires
            pt >= 0,
            init + j * step >= 0,
    ;
    assert(vanishing_index(t, e, x, k) == vanishing_index(t, e, x, j) + circle_order() * (
    q as nat));
    lemma_gen_point_period(vanishing_index(t, e, x, j), q as nat);
}

proof fn lemma_vanishing_index_nonzero(t: nat, e: nat, x: nat, k: int)
    requires
        1 <= t <= e,
        t < e + x <= 30,
        k >= 0,
    ensures
        gen_point(vanishing_index(t, e, x, k)).x != M31::zero_el(),
{
    let c = e + x;
    let n = vanishing_index(t, e, x, k) as int;
    let h = eval_domain_s(e, x).half_coset;
    let step = subgroup_step((e - 1) as nat) as int;
    lemma_step_small(c + 1);
    let init = pow2((30 - c) as nat) as int;
    assert(h.initial_index.0 as int == init);
    // step = init * 4 * 2^x
    lemma_pow2_adds((30 - c) as nat, (2 + x) as nat);
    lemma_pow2_adds(2, x);
    lemma2_to64();
    lemma_pow2_pos(x);
    let px = pow2(x) as int;
    assert(step == init * (4 * px));
    let odd = 1 + k * (4 * px);
    assert(init + k * step == init * odd) by (nonlinear_arith)
        requires
            step == init * (4 * px),
            odd == 1 + k * (4 * px),
    ;
    assert(k * step >= 0) by (nonlinear_arith)
        requires
            k >= 0,
            step >= 0,
    ;
    let a = (29 + t - c) as nat;
    lemma_pow2_adds((t - 1) as nat, (30 - c) as nat);
    let pa = pow2(a) as int;
    assert(pa == pow2((t - 1) as nat) * init);
    assert(n == pa * odd) by (nonlinear_arith)
        requires
            n == pow2((t - 1) as nat) * (init + k * step),
            init + k * step == init * odd,
            pa == pow2((t - 1) as nat) * init,
    ;
    if gen_point(n as nat).x == M31::zero_el() {
        lemma_gen_point_x_zero(n as nat);
        lemma_fundamental_div_mod(n, 0x4000_0000);
        let z = n / 0x4000_0000;
        lemma_pow2_adds(a, (29 - a) as nat);
        lemma_pow2_double((29 - a) as nat);
        lemma_pow2_pos(a);
        let half = pow2((28 - a) as nat) as int;
        assert(pa * (2 * half) == 0x2000_0000);
        assert(pa * odd == pa * ((2 * half) * (2 * z + 1))) by (nonlinear_arith)
            requires
                pa * odd == 0x4000_0000 * z + 0x2000_0000,
                pa * (2 * half) == 0x2000_0000,
        ;
        vstd::arithmetic::mul::lemma_mul_equality_converse(pa, odd, (2 * half) * (2 * z + 1));
        assert((2 * half) * (2 * z + 1) == 2 * (half * (2 * z + 1))) by (nonlinear_arith);
        assert(k * (4 * px) == 2 * (k * (2 * px))) by (nonlinear_arith);
        assert(false);
    }
}

/// The value of the trace's vanishing polynomial at the `i`-th point of the evaluation domain
/// depends on `i` modulo the ratio of the sizes, and is not zero.
#[verifier::rlimit(30)]
pub proof fn lemma_vanishing_pattern(trace: CanonicCoset, e: nat, x: nat, i: int)
    requires
        trace.wf(),
        trace.coset.log_size <= e,
        trace.coset.log_size < e + x <= 30,
        0 <= i < pow2(e),
    ensures
        base_vanishing(trace.coset, eval_domain_s(e, x).at_s(i)) == base_vanishing(
            trace.coset,
            eval_domain_s(e, x).at_s(i % pow2((e - trace.coset.log_size) as nat) as int),
        ),
        base_vanishing(trace.coset, eval_domain_s(e, x).at_s(i)) != M31::zero_el(),
{
    let t = trace.coset.log_size as nat;
    let d = eval_domain_s(e, x);
    let h = d.half_coset;
    let le = (e - t) as nat;
    let m = pow2(le) as int;
    lemma_pow2_pos(le);
    lemma_pow2_le(le, (e - 1) as nat);
    lemma_pow2_double(e);
    let half = pow2((e - 1) as nat) as int;
    assert(h.size_s() == half);
    let j = i % m;
    lemma_mod_bound(i, m);
    lemma_canonic_vanishing(trace, h.index_s(j), false);
    lemma_vanishing_index_period(t, e, x, j);
    if i < half {
        lemma_canonic_vanishing(trace, h.index_s(i), false);
        lemma_vanishing_index_period(t, e, x, i);
        lemma_vanishing_index_nonzero(t, e, x, i);
    } else {
        let k = i - half;
        lemma_canonic_vanishing(trace, h.index_s(k), true);
        lemma_vanishing_index_period(t, e, x, k);
        lemma_vanishing_index_nonzero(t, e, x, k);
        lemma_half_keeps_residue(t, e, k);
        assert(i % m == k % m);
    }
}

/// Half the size of a domain is a multiple of the ratio of the sizes.
proof fn lemma_half_keeps_residue(t: nat, e: nat, k: int)
    requires
        1 <= t <= e,
    ensures
        (k + pow2((e - 1) as nat)) % (pow2((e - t) as nat) as int) == k % (pow2(
            (e - t) as nat,
        ) as int),
{
    let m = pow2((e - t) as nat) as int;
    let w = pow2((t - 1) as nat) as int;
    lemma_pow2_adds((t - 1) as nat, (e - t) as nat);
    lemma_pow2_pos((e - t) as nat);
    assert(pow2((e - 1) as nat) == m * w) by (nonlinear_arith)
        requires
            pow2((e - 1) as nat) == w * m,
    ;
    lemma_mod_multiples_vanish(w, k, m);
}

/// The inverse of the trace's vanishing polynomial at the point of a row.
pub open spec fn row_denominator_inverse(
    trace: CanonicCoset,
    domain: CircleDomain,
    row: int,
) -> M31 {
    inv_of(base_vanishing(trace.coset, domain.reversed_at(row)))
}

/// The inverses of the vanishing polynomial that the rows of an evaluation domain need: one for
/// every `2^trace_log` rows. A domain as small as the trace must be part of a larger one, or else
/// the polynomial vanishes on it.
pub fn denominator_inverses(
    trace: CanonicCoset,
    domain: CircleDomain,
    log_expansion: u32,
) -> (r: Vec<M31>)
    requires
        trace.wf(),
        domain.half_coset.log_size < 30,
        domain == eval_domain_s(domain.log_size_s(), log_expansion as nat),
        trace.coset.log_size <= domain.log_size_s(),
        trace.coset.log_size < domain.log_size_s() + log_expansion <= 30,
    ensures
        r@.len() == pow2((domain.log_size_s() - trace.coset.log_size) as nat),
        forall|row: int|
            0 <= row < domain.size_s() ==> r@[(row / pow2(
                trace.coset.log_size as nat,
            ) as int)] == #[trigger] row_denominator_inverse(trace, domain, row),
{
    let ghost e = domain.log_size_s();
    let ghost x = log_expansion as nat;
    let ghost t = trace.coset.log_size as nat;
    proof {
        lemma_eval_domain_wf(e, x);
    }
    let log_expand: u32 = domain.log_size() - trace.log_size();
    let ghost le = log_expand as nat;
    let n = pow2_usize(log_expand);
    proof {
        lemma_pow2_le(le, (e - 1) as nat);
        lemma_pow2_double(e);
    }
    let mut inverses: Vec<M31> = Vec::new();
    let mut i: usize = 0;
    while i < n
        invariant
            i <= n,
            n == pow2(le),
            le == e - t,
            n <= pow2(e),
            trace.wf(),
            domain.wf(),
            e == domain.log_size_s(),
            t == trace.coset.log_size,
            t <= e,
            t < e + x <= 30,
            domain == eval_domain_s(e, x),
            inverses@.len() == i,
            forall|j: int|
                0 <= j < i ==> #[trigger] inverses@[j] == inv_of(
                    base_vanishing(trace.coset, domain.at_s(j)),
                ),
        decreases n - i,
    {
        let value = coset_vanishing_base(trace.coset, domain.at(i));
        proof {
            lemma_vanishing_pattern(trace, e, x, i as int);
            lemma_double_iter_canonical(trace, e, x, i as int);
        }
        let inverse = value.inverse();
        proof {
            lemma_inv_of(value, inverse);
        }
        inverses.push(inverse);
        i += 1;
    }
    let r = bit_reverse(&inverses, log_expand);
    proof {
        lemma_pow2_pos(t);
        assert forall|row: int| 0 <= row < domain.size_s() implies r@[(row / pow2(t) as int)]
            == #[trigger] row_denominator_inverse(trace, domain, row) by {
            let pt = pow2(t) as int;
            let high = row / pt;
            let low = row % pt;
            lemma_fundamental_div_mod(row, pt);
            lemma_mod_bound(row, pt);
            lemma_pow2_adds(t, le);
            assert(0 <= high < pow2(le)) by (nonlinear_arith)
                requires
                    0 <= row < pt * pow2(le),
                    row == pt * high + low,
                    0 <= low < pt,
            ;
            lemma_bit_rev_split(low, high, t, le);
            lemma_bit_rev_range(low, t);
            lemma_bit_rev_range(high, le);
            lemma_bit_rev_range(row, e);
            let b = bit_rev(high, le);
            let at = bit_rev(row, e);
            assert(at == bit_rev(low, t) * pow2(le) + b);
            lemma_mod_multiples_vanish(bit_rev(low, t), b, pow2(le) as int);
            assert(pow2(le) as int * bit_rev(low, t) == bit_rev(low, t) * pow2(le))
                by (nonlinear_arith);
            lemma_small_mod(b as nat, pow2(le));
            assert(at % pow2(le) as int == b);
            lemma_vanishing_pattern(trace, e, x, at);
            assert(r@[high] == inverses@[b]);
        }
    }
    r
}

/// The vanishing values are canonical.
proof fn lemma_double_iter_canonical(trace: CanonicCoset, e: nat, x: nat, i: int)
    requires
        trace.wf(),
        trace.coset.log_size <= e,
        e + x <= 30,
        0 <= i < pow2((e - trace.coset.log_size) as nat),
    ensures
        ({
            let v = base_vanishing(trace.coset, eval_domain_s(e, x).at_s(i));
            v.canon() == v
        }),
{
    let t = trace.coset.log_size as nat;
    let h = eval_domain_s(e, x).half_coset;
    lemma_pow2_le((e - t) as nat, (e - 1) as nat);
    lemma_canonic_vanishing(trace, h.index_s(i), false);
    lemma_gen_point_canonical(pow2((t - 1) as nat) * h.index_s(i));
}

} // verus!
