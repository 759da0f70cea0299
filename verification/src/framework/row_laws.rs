//! The rows of evaluations as points of the circle.

use vstd::arithmetic::div_mod::{
    lemma_add_mod_noop, lemma_fundamental_div_mod, lemma_mod_bound, lemma_mod_multiples_vanish,
    lemma_small_mod,
};
use vstd::arithmetic::power2::{lemma_pow2_adds, lemma_pow2_pos, pow2};
use vstd::prelude::*;

use crate::circle::{
    circle_order, gen_point, lemma_gen_point_add, lemma_gen_point_canonical, lemma_gen_point_mod,
    lemma_join_assoc, lemma_join_comm, lemma_join_neutral, lemma_step_small, lemma_step_times_size,
    subgroup_step, CirclePoint,
};
use crate::fields::m31::M31;
use crate::fields::Field;
use crate::framework::rows::{circle_index, moved, offset_row};
use crate::framework::vanishing::lemma_reflected_cancels;
use crate::poly::domain::{canonic_domain, lemma_canonic_domain_wf, CanonicCoset, CircleDomain};
use crate::utils::{bit_rev, lemma_bit_rev_involution, lemma_bit_rev_range, lemma_pow2_double};

verus! {

/// The index of the opposite point.
pub open spec fn negated(a: int) -> nat {
    ((-a) % (circle_order() as int)) as nat
}

/// Indices that differ by turns name one point.
proof fn lemma_same_point(a: nat, b: nat)
    requires
        a as int % circle_order() as int == b as int % circle_order() as int,
    ensures
        gen_point(a) == gen_point(b),
{
    lemma_gen_point_mod(a);
    lemma_gen_point_mod(b);
}

/// Two points that cancel: the second is the reflection of the first.
proof fn lemma_inverse_point(p: CirclePoint<M31>, q: CirclePoint<M31>)
    requires
        p.reflected().join(p) == CirclePoint::<M31>::neutral(),
        p.join(q) == CirclePoint::<M31>::neutral(),
        p.reflected().canonical_point() == p.reflected(),
        q.canonical_point() == q,
    ensures
        p.reflected() == q,
{
    lemma_join_assoc(p.reflected(), p, q);
    lemma_join_neutral(p.reflected());
    lemma_join_neutral(q);
    lemma_join_comm(CirclePoint::<M31>::neutral(), q);
}

/// The reflection of a point has the opposite index.
pub proof fn lemma_reflected_index(a: nat)
    ensures
        gen_point(a).reflected() == gen_point(negated(a as int)),
{
    let n = circle_order() as int;
    let b = negated(a as int);
    lemma_mod_bound(-(a as int), n);
    lemma_gen_point_add(a, b);
    assert((a + b) as int % n == 0) by {
        lemma_add_mod_noop(a as int, -(a as int), n);
        lemma_add_mod_noop(a as int, b as int, n);
        lemma_small_mod(b, circle_order());
    }
    lemma_same_point(a + b, 0);
    lemma_reflected_cancels(a);
    lemma_gen_point_canonical(a);
    lemma_gen_point_canonical(b);
    M31::law_canon_results(gen_point(a).y, gen_point(a).y);
    lemma_inverse_point(gen_point(a), gen_point(b));
}

/// The circle domain of a canonic coset has the points of the coset: the `i`-th of them stands at
/// its circle index.
pub proof fn lemma_coset_points(coset: CanonicCoset, i: int)
    requires
        coset.wf(),
        0 <= i < pow2(coset.coset.log_size as nat),
    ensures
        coset.circle_domain_s().at_s(circle_index(i, coset.coset.log_size as nat))
            == coset.coset.at_s(i),
{
    let log = coset.coset.log_size as nat;
    let d = canonic_domain(log);
    let h = d.half_coset;
    lemma_canonic_domain_wf(log);
    lemma_step_small(log);
    lemma_step_small(log + 1);
    lemma_pow2_double((32 - log) as nat);
    lemma_pow2_double((31 - log) as nat);
    lemma_pow2_double(log);
    let st = subgroup_step(log) as int;
    let init = subgroup_step(log + 1) as int;
    assert(subgroup_step((log - 1) as nat) as int == 2 * st);
    assert(st == 2 * init);
    let half = pow2((log - 1) as nat) as int;
    if i % 2 == 0 {
        let k = i / 2;
        assert(k * (2 * st) == i * st) by (nonlinear_arith)
            requires
                i == 2 * k,
        ;
    } else {
        let k = (i - 1) / 2;
        let j = half - k - 1;
        let a = h.index_s(j) as int;
        let b = coset.coset.index_s(i) as int;
        let n = circle_order() as int;
        assert(j * (2 * st) >= 0) by (nonlinear_arith)
            requires
                j >= 0,
                st >= 0,
        ;
        assert(i * st >= 0) by (nonlinear_arith)
            requires
                i >= 0,
                st >= 0,
        ;
        assert(a + b == st * (2 * half)) by (nonlinear_arith)
            requires
                a == init + j * (2 * st),
                b == init + i * st,
                st == 2 * init,
                i == 2 * k + 1,
                j == half - k - 1,
        ;
        assert(a + b == n);
        lemma_reflected_index(a as nat);
        assert((-a) % n == b % n) by {
            lemma_mod_multiples_vanish(1, -a, n);
            assert(n * 1 + (-a) == b);
        }
        lemma_gen_point_mod(b as nat);
        assert(circle_index(i, log) == half + j);
    }
}

/// The index by which a mask moves: `offset` steps of the trace domain.
pub open spec fn offset_index(domain_log: nat, offset: int) -> nat {
    ((offset * subgroup_step(domain_log)) % (circle_order() as int)) as nat
}

/// The row that a mask reads is that of the point `offset` steps of the trace away.
pub proof fn lemma_offset_moves_point(
    domain: CircleDomain,
    domain_log: nat,
    row: int,
    offset: int,
)
    requires
        domain.wf(),
        0 < domain_log < domain.log_size_s(),
        0 <= row < domain.size_s(),
    ensures
        domain.reversed_at(offset_row(row, domain_log, domain.log_size_s(), offset))
            == domain.reversed_at(row).join(gen_point(offset_index(domain_log, offset))),
{
    let e = domain.log_size_s();
    let h = domain.half_coset;
    let n = circle_order() as int;
    let at = bit_rev(row, e);
    lemma_bit_rev_range(row, e);
    let after = moved(at, domain_log, e, offset);
    let half = pow2((e - 1) as nat) as int;
    lemma_pow2_double(e);
    lemma_pow2_pos((e - 1) as nat);
    let ratio = pow2((e - domain_log - 1) as nat) as int;
    let step = offset * ratio;
    lemma_mod_bound(at + step, half);
    lemma_mod_bound(at - step, half);
    lemma_bit_rev_involution(after, e);
    // the step of the half coset, taken `ratio` times, is that of the trace
    let big = subgroup_step((e - 1) as nat) as int;
    let small = subgroup_step(domain_log) as int;
    lemma_pow2_adds((e - domain_log - 1) as nat, (32 - e) as nat);
    assert(ratio * big == small);
    lemma_step_times_size((e - 1) as nat);
    assert(big * half == n);
    let w = offset_index(domain_log, offset);
    lemma_mod_bound(offset * small, n);
    let init = h.initial_index.0 as int;
    if at < half {
        let q = (at + step) / half;
        lemma_fundamental_div_mod(at + step, half);
        let (a, b) = (h.index_s(at) as int, h.index_s(after) as int);
        lemma_scaled_move(at, after, q, half, step, offset, ratio, big, small, init, n);
        assert(at * big >= 0 && after * big >= 0) by (nonlinear_arith)
            requires
                at >= 0,
                after >= 0,
                big >= 0,
        ;
        lemma_gen_point_add(a as nat, w);
        assert((a + w) % n == b % n) by {
            lemma_add_mod_noop(a, offset * small, n);
            lemma_add_mod_noop(a, w as int, n);
            lemma_small_mod(w, circle_order());
            lemma_mod_multiples_vanish(q, b, n);
            assert(a + offset * small == n * q + b);
        }
        lemma_same_point((a + w) as nat, b as nat);
    } else {
        let from = at - half;
        let to = after - half;
        // (at - step) and (from - step) leave the same remainder
        lemma_mod_multiples_vanish(1, from - step, half);
        assert(half * 1 + (from - step) == at - step);
        let q = (from - step) / half;
        lemma_fundamental_div_mod(from - step, half);
        let (a, b) = (h.index_s(from) as int, h.index_s(to) as int);
        assert(-step == (-offset) * ratio) by (nonlinear_arith)
            requires
                step == offset * ratio,
        ;
        lemma_scaled_move(from, to, q, half, -step, -offset, ratio, big, small, init, n);
        assert(from * big >= 0 && to * big >= 0) by (nonlinear_arith)
            requires
                from >= 0,
                to >= 0,
                big >= 0,
        ;
        assert((-offset) * small == -(offset * small)) by (nonlinear_arith);
        lemma_reflected_index(a as nat);
        lemma_reflected_index(b as nat);
        let (na, nb) = (negated(a) as int, negated(b) as int);
        lemma_mod_bound(-a, n);
        lemma_mod_bound(-b, n);
        lemma_gen_point_add(na as nat, w);
        assert((na + w) % n == nb % n) by {
            lemma_add_mod_noop(-a, offset * small, n);
            lemma_add_mod_noop(na, w as int, n);
            lemma_small_mod(w, circle_order());
            lemma_small_mod(na as nat, circle_order());
            lemma_small_mod(nb as nat, circle_order());
            lemma_mod_multiples_vanish(-q, -b, n);
            assert(n * (-q) == -(n * q)) by (nonlinear_arith);
            assert(-a + offset * small == n * (-q) + (-b));
        }
        lemma_same_point((na + w) as nat, nb as nat);
    }
}

/// Moving by `step` places moves the index by `offset` trace steps, up to turns.
proof fn lemma_scaled_move(
    at: int,
    after: int,
    q: int,
    half: int,
    step: int,
    offset: int,
    ratio: int,
    big: int,
    small: int,
    init: int,
    n: int,
)
    requires
        at + step == half * q + after,
        step == offset * ratio,
        ratio * big == small,
        big * half == n,
    ensures
        (init + at * big) + offset * small == n * q + (init + after * big),
{
    assert(step * big == offset * small) by (nonlinear_arith)
        requires
            step == offset * ratio,
            ratio * big == small,
    ;
    assert((half * q) * big == n * q) by (nonlinear_arith)
        requires
            big * half == n,
    ;
    assert((at + step) * big == at * big + step * big) by (nonlinear_arith);
    assert((half * q + after) * big == (half * q) * big + after * big) by (nonlinear_arith);
}

} // verus!
