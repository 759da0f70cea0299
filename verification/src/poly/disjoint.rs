//! Canonical domains of different sizes have no point in common.

use vstd::arithmetic::div_mod::lemma_fundamental_div_mod;
use vstd::arithmetic::power2::{lemma2_to64, lemma_pow2_adds, lemma_pow2_pos, pow2};
use vstd::prelude::*;

use super::domain::{canonic_domain, lemma_canonic_domain_wf};
use super::twiddles::lemma_half_way_index;
use crate::circle::{
    double_x_iter, gen_point, lemma_gen_point_canonical, lemma_gen_point_double_x,
    lemma_gen_point_landmarks, lemma_gen_point_on_circle, lemma_gen_point_period, lemma_step_small,
    subgroup_step, CirclePoint,
};
use crate::fields::m31::M31;
use crate::fields::{lemma_add_cancel, lemma_integral, Field};

verus! {

/// The point with `x = -1` is `(-1, 0)`.
proof fn lemma_leftmost(n: nat)
    requires
        gen_point(n).x == M31(2147483646),
    ensures
        gen_point(n) == (CirclePoint { x: M31(2147483646), y: M31(0) }),
{
    let p = gen_point(n);
    lemma_gen_point_on_circle(n);
    lemma_gen_point_canonical(n);
    let yy = p.y.times(p.y);
    assert(M31(2147483646).times(M31(2147483646)) == M31(1)) by {
        assert(2147483646int * 2147483646 == 2147483647int * 2147483645 + 1) by (nonlinear_arith);
        vstd::arithmetic::div_mod::lemma_fundamental_div_mod_converse(
            2147483646int * 2147483646,
            2147483647,
            2147483645,
            1,
        );
    }
    assert(M31(1).plus(yy) == M31(1));
    M31::law_add_zero(M31(1));
    M31::law_canon_results(M31(1), M31(1));
    assert(M31(1).plus(yy) == M31(1).plus(M31::zero_el()));
    lemma_add_cancel(M31(1), yy, M31::zero_el());
    M31::law_canon_results(p.y, p.y);
    lemma_integral(p.y, p.y);
}

/// The index of a point of a canonical half coset: an odd multiple of a power of two.
proof fn lemma_half_index(n: nat, k: int)
    requires
        0 < n <= 30,
        0 <= k,
    ensures
        canonic_domain(n).half_coset.index_s(k) as int == pow2((30 - n) as nat) * (1 + 4 * k),
{
    lemma_canonic_domain_wf(n);
    lemma_step_small((n + 1) as nat);
    lemma_pow2_adds((30 - n) as nat, 2);
    lemma2_to64();
    let s = pow2((30 - n) as nat) as int;
    assert(subgroup_step((n - 1) as nat) == 4 * s);
    assert(subgroup_step((n + 1) as nat) == s);
    assert(s + k * (4 * s) == s * (1 + 4 * k)) by (nonlinear_arith);
    assert(s * (1 + 4 * k) >= 0) by (nonlinear_arith)
        requires
            s >= 0,
            k >= 0,
    ;
}

/// Doubled `n` times, the points of the canonical domain of size `2^n` come to lie at `x = -1`,
/// and those of a larger one do not.
proof fn lemma_doubled_x(n: nat, m: nat, k: int)
    requires
        0 < n <= m <= 30,
        0 <= k,
    ensures
        (double_x_iter(canonic_domain(m).half_coset.at_s(k).x, n) == M31(2147483646)) == (n == m),
{
    lemma_half_index(m, k);
    let idx = canonic_domain(m).half_coset.index_s(k);
    lemma_gen_point_double_x(idx, n);
    let e = (30 - m + n) as nat;
    lemma_pow2_adds(n, (30 - m) as nat);
    lemma_pow2_pos(e);
    lemma2_to64();
    let o = 1 + 4 * k;
    let (pn, pm, pe) = (pow2(n) as int, pow2((30 - m) as nat) as int, pow2(e) as int);
    let all = pow2(n) as int * idx as int;
    assert(all == pe * o) by (nonlinear_arith)
        requires
            all == pn * (pm * o),
            pe == pn * pm,
    ;
    if n == m {
        assert(pe == 0x4000_0000);
        lemma_gen_point_landmarks();
        lemma_gen_point_period(0x4000_0000, (2 * k) as nat);
        assert(all == 0x4000_0000 + 0x8000_0000 * (2 * k)) by (nonlinear_arith)
            requires
                all == 0x4000_0000 * (1 + 4 * k),
        ;
    } else if gen_point(all as nat).x == M31(2147483646) {
        lemma_leftmost(all as nat);
        lemma_half_way_index(all as nat);
        // An odd multiple of 2^e with e < 30 is no odd multiple of 2^30.
        let c = (29 - e) as nat;
        lemma_pow2_adds(e, c);
        let pc = pow2(c) as int;
        let z = all / 0x8000_0000;
        lemma_fundamental_div_mod(all, 0x8000_0000);
        assert(pow2(29) == 0x2000_0000);
        assert(pe * o == pe * (2 * pc + z * (4 * pc))) by (nonlinear_arith)
            requires
                pe * o == 0x8000_0000 * z + 0x4000_0000,
                pe * pc == 0x2000_0000,
        ;
        vstd::arithmetic::mul::lemma_mul_equality_converse(pe, o, 2 * pc + z * (4 * pc));
        assert(z * (4 * pc) == 2 * (2 * (z * pc))) by (nonlinear_arith);
        assert(o % 2 == 1);
        assert(false);
    }
}

/// Canonical domains of different sizes are disjoint. In particular no point of the domain on
/// which columns are committed is a point of the domain of their trace.
pub proof fn lemma_canonic_domains_disjoint(n: nat, m: nat, i: int, j: int)
    requires
        0 < n < m <= 30,
        0 <= i < pow2(n),
        0 <= j < pow2(m),
    ensures
        canonic_domain(n).at_s(i) != canonic_domain(m).at_s(j),
{
    let (a, b) = (canonic_domain(n), canonic_domain(m));
    lemma_canonic_domain_wf(n);
    lemma_canonic_domain_wf(m);
    let (sa, sb) = (a.half_coset.size_s() as int, b.half_coset.size_s() as int);
    let k = if i < sa {
        i
    } else {
        i - sa
    };
    let l = if j < sb {
        j
    } else {
        j - sb
    };
    assert(a.at_s(i).x == a.half_coset.at_s(k).x);
    assert(b.at_s(j).x == b.half_coset.at_s(l).x);
    lemma_doubled_x(n, n, k);
    lemma_doubled_x(n, m, l);
}

} // verus!
