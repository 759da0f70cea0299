//! What constraints are divided by vanishes on the trace, and the quotients are quotients.

use vstd::arithmetic::power2::{lemma2_to64, lemma_pow2_adds, pow2};
use vstd::prelude::*;

use super::component::{FrameworkEval, RowContext};
use super::quotient::accumulated;
use super::vanishing::{
    base_vanishing, eval_domain_s, lemma_canonic_vanishing, lemma_reflected_cancels,
    lemma_vanishing_pattern, row_denominator_inverse,
};
use crate::circle::{
    gen_point, lemma_gen_point_add, lemma_gen_point_canonical, lemma_gen_point_double_x,
    lemma_gen_point_half_turn, lemma_gen_point_landmarks, lemma_join_assoc, lemma_join_comm,
    lemma_join_neutral, lemma_step_small, subgroup_step, CirclePoint, Coset,
};
use crate::constraints::{coset_vanishing_s, embed_point};
use crate::fields::m31::M31;
use crate::fields::qm31::{embed, QM31};
use crate::fields::{lemma_inv_exists, Field};
use crate::fri::{lemma_embed, lemma_embed_double_x};
use crate::poly::domain::CanonicCoset;
use crate::poly::eval::lemma_scaled_is_times;
use crate::utils::{lemma_bit_rev_range, lemma_pow2_double};

verus! {

/// A quarter turn and any number of half turns lead to a point with `x = 0`.
proof fn lemma_quarter_points(i: nat)
    ensures
        gen_point(0x2000_0000 + i * 0x4000_0000).x == M31::zero_el(),
    decreases i,
{
    lemma_gen_point_landmarks();
    if i > 0 {
        let j = (i - 1) as nat;
        lemma_quarter_points(j);
        let a = (0x2000_0000 + j * 0x4000_0000) as nat;
        lemma_gen_point_half_turn(a);
        assert(a + 0x4000_0000 == 0x2000_0000 + i * 0x4000_0000);
        assert(M31::zero_el().opposite() == M31::zero_el());
    } else {
        assert(0 * 0x4000_0000 == 0);
    }
}

/// The polynomial that constraints are divided by vanishes at every point of the trace.
pub proof fn lemma_vanishes_on_trace(trace: CanonicCoset, i: int)
    requires
        trace.wf(),
        0 <= i,
    ensures
        base_vanishing(trace.coset, trace.coset.at_s(i)) == M31::zero_el(),
{
    let c = trace.coset;
    let t = c.log_size as nat;
    let (a, s) = (subgroup_step((t + 1) as nat) as int, subgroup_step(t) as int);
    let p = pow2((t - 1) as nat) as int;
    lemma_step_small((t + 1) as nat);
    lemma_step_small(t);
    lemma2_to64();
    lemma_pow2_adds((t - 1) as nat, (31 - (t + 1)) as nat);
    lemma_pow2_adds((t - 1) as nat, (31 - t) as nat);
    assert(((t - 1) + (31 - (t + 1))) as nat == 29);
    assert(((t - 1) + (31 - t)) as nat == 30);
    assert(p * a == 0x2000_0000 && p * s == 0x4000_0000);
    let n = c.index_s(i);
    assert(i * s >= 0) by (nonlinear_arith)
        requires
            i >= 0,
            s >= 0,
    ;
    assert(n == a + i * s);
    lemma_canonic_vanishing(trace, n, false);
    assert(p * (a + i * s) == p * a + i * (p * s)) by (nonlinear_arith);
    lemma_quarter_points(i as nat);
    assert((pow2((t - 1) as nat) * n) as int == 0x2000_0000 + i * 0x4000_0000);
}

/// The vanishing polynomial of any coset vanishes at every point of the coset.
pub proof fn lemma_vanishes_on_coset(coset: Coset, i: int)
    requires
        coset.wf(),
        1 <= coset.log_size <= 30,
        0 <= i,
    ensures
        base_vanishing(coset, coset.at_s(i)) == M31::zero_el(),
{
    let t = coset.log_size as nat;
    let s = subgroup_step(t) as int;
    let a = coset.initial_index.0 as nat;
    let p = pow2((t - 1) as nat) as int;
    lemma_step_small(t);
    lemma2_to64();
    lemma_pow2_adds((t - 1) as nat, (31 - t) as nat);
    assert(((t - 1) + (31 - t)) as nat == 30);
    lemma_pow2_double((31 - t) as nat);
    let h = pow2((30 - t) as nat) as int;
    assert(s == 2 * h && p * s == 0x4000_0000);
    assert(p * h == 0x2000_0000) by (nonlinear_arith)
        requires
            s == 2 * h,
            p * s == 0x4000_0000,
    ;
    assert(coset.step_size.0 == s);
    assert(i * s >= 0) by (nonlinear_arith)
        requires
            i >= 0,
            s >= 0,
    ;
    let g = gen_point(a);
    let m = (i * s) as nat;
    lemma_gen_point_add(m, a);
    assert(coset.at_s(i) == gen_point(m + a));
    lemma_join_assoc(gen_point(m), g, g.reflected());
    lemma_reflected_cancels(a);
    lemma_join_comm(g, g.reflected());
    lemma_join_neutral(gen_point(m));
    lemma_gen_point_canonical(m);
    lemma_gen_point_add(m, h as nat);
    lemma_gen_point_double_x((m + h) as nat, (t - 1) as nat);
    assert(p * (i * s + h) == p * h + i * (p * s)) by (nonlinear_arith);
    lemma_quarter_points(i as nat);
}

/// At a point of the base field the two evaluations of the vanishing polynomial agree.
pub proof fn lemma_vanishing_embeds(coset: Coset, p: CirclePoint<M31>)
    ensures
        coset_vanishing_s(coset, embed_point(p)) == embed(base_vanishing(coset, p)),
{
    let g = gen_point((coset.step_size.0 / 2) as nat);
    let back = coset.initial.reflected();
    let q = p.join(back);
    lemma_embed(coset.initial.y, coset.initial.y);
    assert(embed_point(coset.initial).reflected() == embed_point(back));
    lemma_embed_join(p, back);
    lemma_embed_join(q, g);
    lemma_embed_double_x(q.join(g).x, (coset.log_size - 1) as nat);
}

proof fn lemma_embed_join(p: CirclePoint<M31>, q: CirclePoint<M31>)
    ensures
        embed_point(p).join(embed_point(q)) == embed_point(p.join(q)),
{
    lemma_embed(p.x, q.x);
    lemma_embed(p.y, q.y);
    lemma_embed(p.x, q.y);
    lemma_embed(p.y, q.x);
    lemma_embed(p.x.times(q.x), p.y.times(q.y));
    lemma_embed(p.x.times(q.y), p.y.times(q.x));
}

/// What a row gains, times the value there of the polynomial that vanishes on the trace, is the
/// weighted sum of the row's constraints.
pub proof fn lemma_quotient_times_vanishing<E: FrameworkEval>(
    component: &E,
    at: RowContext<'_>,
    before: Seq<QM31>,
    trace: CanonicCoset,
    e: nat,
    x: nat,
    row: int,
)
    requires
        trace.wf(),
        trace.coset.log_size <= e,
        trace.coset.log_size < e + x <= 30,
        0 <= row < pow2(e),
    ensures
        accumulated(
            component,
            at,
            before,
            row_denominator_inverse(trace, eval_domain_s(e, x), row),
            row,
        ).minus(before[row]).scaled(
            base_vanishing(trace.coset, eval_domain_s(e, x).reversed_at(row)),
        ) == component.row_sum(at, row).canon(),
{
    let domain = eval_domain_s(e, x);
    let i = crate::utils::bit_rev(row, domain.log_size_s());
    assert(domain.log_size_s() == e);
    lemma_bit_rev_range(row, e);
    lemma_vanishing_pattern(trace, e, x, i);
    let d = base_vanishing(trace.coset, domain.reversed_at(row));
    let inverse = row_denominator_inverse(trace, domain, row);
    lemma_double_canonical(trace, e, x, i);
    lemma_inv_exists(d);
    let s = component.row_sum(at, row);
    let b = before[row];
    let q = s.scaled(inverse);
    lemma_scaled_is_times(s, inverse);
    QM31::law_canon_results(s, embed(inverse));
    // (b + q) - b = q
    QM31::law_add_comm(b, q);
    QM31::law_sub(q.plus(b), b);
    QM31::law_add_assoc(q, b, b.opposite());
    QM31::law_add_opposite(b);
    QM31::law_add_zero(q);
    lemma_scaled_is_times(q, d);
    QM31::law_mul_assoc(s, embed(inverse), embed(d));
    lemma_embed(inverse, d);
    M31::law_mul_comm(inverse, d);
    lemma_embed(d, d);
    QM31::law_mul_one(s);
}

/// The value of the vanishing polynomial is canonical.
proof fn lemma_double_canonical(trace: CanonicCoset, e: nat, x: nat, i: int)
    requires
        trace.wf(),
        trace.coset.log_size <= e,
        trace.coset.log_size < e + x <= 30,
        0 <= i < pow2(e),
    ensures
        ({
            let v = base_vanishing(trace.coset, eval_domain_s(e, x).at_s(i));
            v.canon() == v
        }),
{
    let h = eval_domain_s(e, x).half_coset;
    if i < h.size_s() {
        lemma_canonic_vanishing(trace, h.index_s(i), false);
        crate::circle::lemma_gen_point_canonical(
            pow2((trace.coset.log_size - 1) as nat) * h.index_s(i),
        );
    } else {
        lemma_canonic_vanishing(trace, h.index_s(i - h.size_s()), true);
        crate::circle::lemma_gen_point_canonical(
            pow2((trace.coset.log_size - 1) as nat) * h.index_s(i - h.size_s()),
        );
    }
}

} // verus!
