//! Polynomials at doubled points: a polynomial on a domain, read on a larger one.

use vstd::arithmetic::power2::{lemma2_to64, lemma_pow2_adds, pow2};
use vstd::prelude::*;

use super::domain::{
    canonic_domain, lemma_canonic_domain_wf, lemma_doubled_at, lemma_reversed_pair, mapping_at,
};
use super::fold::{embed_all, fold_s, mappings, poly_at};
use super::lagrange::lemma_doubled_first;
use crate::circle::{
    circle_order, double_x_iter, double_x_s, lemma_double_x, lemma_gen_point_doubled,
    lemma_gen_point_period, lemma_norm_join, lemma_step_small, norm_of, subgroup_step, CirclePoint,
};
use crate::fields::m31::M31;
use crate::fields::qm31::embed;
use crate::fields::{
    lemma_distrib_right, lemma_mul_opposite, lemma_mul_zero, lemma_opposite_sum,
    lemma_opposite_twice, Field,
};
use crate::fri::lemma_embed;
use crate::utils::{
    bit_rev, lemma_bit_rev_range, lemma_lifted_none, lemma_lifted_row, lemma_lifted_twice,
    lemma_pow2_double, lifted_row,
};

verus! {

// ---------------------------------------------------------------------------------------------
// Points.

/// Reflecting a point reflects its double.
proof fn lemma_reflected_double(p: CirclePoint<M31>)
    ensures
        p.reflected().join(p.reflected()) == p.join(p).reflected(),
{
    let (x, y) = (p.x, p.y);
    let m = y.opposite();
    lemma_mul_opposite(m, y);
    lemma_mul_opposite(y, y);
    lemma_opposite_twice(y.times(y));
    M31::law_canon_results(y, y);
    lemma_mul_opposite(x, y);
    lemma_mul_opposite(y, x);
    lemma_opposite_sum(x.times(y), y.times(x));
}

/// The half coset of a canonical domain is the double of that of the domain of twice the size.
proof fn lemma_half_coset_doubles(n: nat)
    requires
        1 <= n < 30,
    ensures
        canonic_domain(n).half_coset == canonic_domain(n + 1).half_coset.repeated_double_s(1),
{
    let s = subgroup_step((n + 2) as nat) as int;
    lemma2_to64();
    lemma_pow2_double((31 - (n + 1)) as nat);
    assert((31 - (n + 2)) as nat == ((31 - (n + 1)) as nat - 1) as nat);
    assert(subgroup_step((n + 1) as nat) == 2 * s);
    lemma_step_small((n + 1) as nat);
    lemma_step_small((n + 2) as nat);
    lemma_canonic_domain_wf(n);
    lemma_canonic_domain_wf(n + 1);
    assert(canonic_domain(n + 1).half_coset.initial_index.0 as int == s);
    vstd::arithmetic::div_mod::lemma_small_mod((2 * s) as nat, circle_order());
}

/// The points of a half coset repeat after its size.
proof fn lemma_half_coset_repeats(n: nat, j: int)
    requires
        1 <= n <= 30,
        0 <= j,
    ensures
        canonic_domain(n).half_coset.at_s(j + pow2((n - 1) as nat)) == canonic_domain(
            n,
        ).half_coset.at_s(j),
{
    let g = canonic_domain(n).half_coset;
    let l = (n - 1) as nat;
    let step = subgroup_step(l) as int;
    let size = pow2(l) as int;
    lemma_canonic_domain_wf(n);
    lemma2_to64();
    lemma_pow2_adds(l, (31 - l) as nat);
    assert(size * step == circle_order());
    assert((j + size) * step == j * step + size * step) by (nonlinear_arith);
    assert(j * step >= 0) by (nonlinear_arith)
        requires
            j >= 0,
            step >= 0,
    ;
    assert(circle_order() * 1 == circle_order());
    assert(g.index_s(j + size) == g.index_s(j) + circle_order() * 1);
    lemma_gen_point_period(g.index_s(j), 1);
}

/// The double of a point of the half coset of a canonical domain.
proof fn lemma_half_coset_double(n: nat, q: int)
    requires
        1 <= n < 30,
        0 <= q,
    ensures
        ({
            let p = canonic_domain(n + 1).half_coset.at_s(bit_rev(q, n));
            p.join(p) == canonic_domain(n).half_coset.at_s(bit_rev(q / 2, (n - 1) as nat))
        }),
{
    let h = canonic_domain(n + 1).half_coset;
    let l = (n - 1) as nat;
    let k = bit_rev(q, n);
    let j = bit_rev(q / 2, l);
    lemma_canonic_domain_wf(n + 1);
    lemma_half_coset_doubles(n);
    lemma_bit_rev_range(q, n);
    lemma_bit_rev_range(q / 2, l);
    lemma2_to64();
    lemma_doubled_at(h, 1, k);
    lemma_gen_point_doubled(h.index_s(k), 1);
    let p = h.at_s(k);
    assert(p.doubled(0) == p);
    assert(p.doubled(1) == p.doubled(0).join(p.doubled(0)));
    assert(k == (q % 2) * pow2(l) + j);
    if q % 2 == 1 {
        assert(1 * pow2(l) == pow2(l));
        lemma_half_coset_repeats(n, j);
    } else {
        assert(0 * pow2(l) == 0);
    }
}

/// The double of the point in a row of a canonical domain is the point in the row of the domain of
/// half the size that the row is lifted from.
proof fn lemma_double_of_row(n: nat, i: int)
    requires
        1 <= n < 30,
        0 <= i < pow2(n + 1),
    ensures
        ({
            let p = canonic_domain(n + 1).reversed_at(i);
            p.join(p) == canonic_domain(n).reversed_at(lifted_row(i, 1))
        }),
{
    let (large, small) = (canonic_domain(n + 1), canonic_domain(n));
    lemma_canonic_domain_wf(n + 1);
    lemma_canonic_domain_wf(n);
    let q = i / 2;
    let r = q / 2;
    lemma2_to64();
    lemma_pow2_double(n + 1);
    lemma_pow2_double(n);
    assert(lifted_row(i, 1) == 2 * r + i % 2);
    lemma_half_coset_double(n, q);
    lemma_reversed_pair(large, q);
    lemma_reversed_pair(small, r);
    lemma_reflected_double(large.half_coset.at_s(bit_rev(q, n)));
    assert(i == 2 * q || i == 2 * q + 1);
}

/// The point in a row of a canonical domain, doubled `r` times, is the point in the row that it is
/// lifted from of the domain `2^r` times smaller.
pub proof fn lemma_lifted_point(n: nat, r: nat, i: int)
    requires
        1 <= n,
        n + r <= 30,
        0 <= i < pow2(n + r),
    ensures
        canonic_domain(n + r).reversed_at(i).doubled(r) == canonic_domain(n).reversed_at(
            lifted_row(i, r),
        ),
    decreases r,
{
    if r == 0 {
        lemma_lifted_none(i);
    } else {
        let s = (r - 1) as nat;
        assert(n + r == (n + 1) + s);
        lemma_lifted_point(n + 1, s, i);
        lemma_lifted_row(i, n + r, n + 1);
        lemma_double_of_row(n, lifted_row(i, s));
        lemma_lifted_twice(i, s, 1);
    }
}

// ---------------------------------------------------------------------------------------------
// Coefficients.

/// The coefficients of a polynomial after doubling its argument: `y` becomes `2 x y`, and every
/// other factor the next one.
pub open spec fn widened<F: Field>(v: Seq<F>) -> Seq<F> {
    Seq::new(
        2 * v.len(),
        |j: int|
            if j % 4 == 0 {
                v[j / 2]
            } else if j % 4 == 3 {
                v[j / 2].plus(v[j / 2])
            } else {
                F::zero_el()
            },
    )
}

/// [`widened`] applied `r` times.
pub open spec fn widened_by<F: Field>(v: Seq<F>, r: nat) -> Seq<F>
    decreases r,
{
    if r == 0 {
        v
    } else {
        widened(widened_by(v, (r - 1) as nat))
    }
}

pub proof fn lemma_widened_len<F: Field>(v: Seq<F>, n: nat, r: nat)
    requires
        v.len() == pow2(n),
    ensures
        widened_by(v, r).len() == pow2(n + r),
    decreases r,
{
    if r > 0 {
        lemma_widened_len(v, n, (r - 1) as nat);
        lemma_pow2_double(n + r);
    }
}

/// Two coefficients under `2 x y`, as four under `x` and `y`.
proof fn lemma_widened_pair<F: Field>(v: Seq<F>, x: F, y: F)
    requires
        v.len() == 2,
    ensures
        fold_s(widened(v), seq![x, y]) == fold_s(v, seq![x.times(y).plus(y.times(x))]),
{
    let z = F::zero_el();
    let w = widened(v);
    let (a, b) = (v[0], v[1]);
    let d = b.plus(b);
    let u = x.times(y).plus(y.times(x));
    let (lo, hi) = (w.subrange(0, 2), w.subrange(2, 4));
    let fy = seq![y];
    assert(seq![x, y].drop_first() =~= fy);
    assert(fy.drop_first().len() == 0);
    assert(seq![u].drop_first().len() == 0);
    assert(lo[0] == a && lo[1] == z && hi[0] == z && hi[1] == d);
    // The halves.
    assert(fold_s(lo, fy) == a.plus(z.times(y))) by {
        assert(fold_s(lo.subrange(0, 1), fy.drop_first()) == a);
        assert(fold_s(lo.subrange(1, 2), fy.drop_first()) == z);
    }
    assert(fold_s(hi, fy) == z.plus(d.times(y))) by {
        assert(fold_s(hi.subrange(0, 1), fy.drop_first()) == z);
        assert(fold_s(hi.subrange(1, 2), fy.drop_first()) == d);
    }
    assert(fold_s(v, seq![u]) == a.plus(b.times(u))) by {
        assert(fold_s(v.subrange(0, 1), seq![u].drop_first()) == a);
        assert(fold_s(v.subrange(1, 2), seq![u].drop_first()) == b);
    }
    assert(fold_s(w, seq![x, y]) == fold_s(lo, fy).plus(fold_s(hi, fy).times(x)));
    lemma_mul_zero(y);
    F::law_add_zero(a);
    let dy = d.times(y);
    F::law_add_comm(z, dy);
    F::law_add_zero(dy);
    F::law_canon_results(d, y);
    F::law_canon_args(a, dy.times(x));
    // (b + b) y x = b (x y + y x)
    lemma_distrib_right(b, b, y);
    lemma_distrib_right(b.times(y), b.times(y), x);
    F::law_mul_assoc(b, y, x);
    F::law_mul_comm(x, y);
    F::law_distrib(b, x.times(y), y.times(x));
}

proof fn lemma_widened_fold<F: Field>(v: Seq<F>, top: Seq<F>, x: F, y: F)
    requires
        v.len() == pow2(top.len() + 1),
    ensures
        fold_s(widened(v), top + seq![x, y]) == fold_s(
            v,
            top + seq![x.times(y).plus(y.times(x))],
        ),
    decreases top.len(),
{
    let u = x.times(y).plus(y.times(x));
    if top.len() == 0 {
        lemma2_to64();
        assert(top + seq![x, y] =~= seq![x, y]);
        assert(top + seq![u] =~= seq![u]);
        lemma_widened_pair(v, x, y);
    } else {
        let w = widened(v);
        let m = v.len() as int;
        lemma_pow2_double(top.len() + 1);
        lemma_pow2_double(top.len());
        let half = m / 2;
        let rest = top.drop_first();
        let (a, b) = (v.subrange(0, half), v.subrange(half, m));
        assert(half % 2 == 0);
        assert(w.subrange(0, m) =~= widened(a));
        assert(w.subrange(m, 2 * m) =~= widened(b)) by {
            assert forall|j: int| 0 <= j < m implies w.subrange(m, 2 * m)[j] == widened(b)[j] by {
                assert(m % 4 == 0);
                assert((m + j) % 4 == j % 4);
                assert((m + j) / 2 == half + j / 2);
            }
        }
        assert((top + seq![x, y]).drop_first() =~= rest + seq![x, y]);
        assert((top + seq![u]).drop_first() =~= rest + seq![u]);
        lemma_widened_fold(a, rest, x, y);
        lemma_widened_fold(b, rest, x, y);
    }
}

proof fn lemma_double_iter_shift<F: Field>(x: F, m: nat)
    ensures
        double_x_iter(double_x_s(x), m) == double_x_iter(x, m + 1),
    decreases m,
{
    if m > 0 {
        lemma_double_iter_shift(x, (m - 1) as nat);
    } else {
        assert(double_x_iter(x, 1) == double_x_s(double_x_iter(x, 0)));
    }
}

/// Widened coefficients take at a point of the circle the value of the polynomial at its double.
pub proof fn lemma_widened_value<F: Field>(v: Seq<F>, n: nat, p: CirclePoint<F>)
    requires
        n >= 1,
        v.len() == pow2(n),
        norm_of(p) == F::one_el(),
    ensures
        poly_at(widened(v), n + 1, p.x, p.y) == poly_at(v, n, p.join(p).x, p.join(p).y),
{
    let q = p.join(p);
    lemma_double_x(p);
    let l = (n - 1) as nat;
    let top = Seq::new(l, |k: int| mapping_at(p.x, p.y, n - k));
    assert(mappings(n + 1, p.x, p.y) =~= top + seq![p.x, p.y]) by {
        assert(double_x_iter(p.x, 0) == p.x);
    }
    assert(mappings(n, q.x, q.y) =~= top + seq![q.y]) by {
        assert forall|k: int| 0 <= k < l implies #[trigger] mappings(n, q.x, q.y)[k] == top[k] by {
            lemma_double_iter_shift(p.x, (n - 2 - k) as nat);
        }
    }
    lemma_widened_fold(v, top, p.x, p.y);
}

proof fn lemma_doubled_norm<F: Field>(p: CirclePoint<F>, r: nat)
    requires
        norm_of(p) == F::one_el(),
    ensures
        norm_of(p.doubled(r)) == F::one_el(),
    decreases r,
{
    if r > 0 {
        lemma_doubled_norm(p, (r - 1) as nat);
        let q = p.doubled((r - 1) as nat);
        lemma_norm_join(q, q);
        F::law_mul_one(F::one_el());
        F::law_canon_results(F::one_el(), F::one_el());
    }
}

/// Coefficients widened `r` times take at a point of the circle the value of the polynomial at the
/// point doubled `r` times.
pub proof fn lemma_widened_by_value<F: Field>(v: Seq<F>, n: nat, r: nat, p: CirclePoint<F>)
    requires
        n >= 1,
        v.len() == pow2(n),
        norm_of(p) == F::one_el(),
    ensures
        poly_at(widened_by(v, r), n + r, p.x, p.y) == poly_at(
            v,
            n,
            p.doubled(r).x,
            p.doubled(r).y,
        ),
    decreases r,
{
    if r > 0 {
        let s = (r - 1) as nat;
        let q = p.join(p);
        lemma_widened_len(v, n, s);
        lemma_widened_value(widened_by(v, s), n + s, p);
        assert(n + s + 1 == n + r);
        lemma_norm_join(p, p);
        F::law_mul_one(F::one_el());
        F::law_canon_results(F::one_el(), F::one_el());
        lemma_widened_by_value(v, n, s, q);
        lemma_doubled_first(p, s);
    }
}

/// Widening and embedding can be exchanged.
pub proof fn lemma_embed_widened(v: Seq<M31>, r: nat)
    ensures
        embed_all(widened_by(v, r)) == widened_by(embed_all(v), r),
    decreases r,
{
    if r > 0 {
        let u = widened_by(v, (r - 1) as nat);
        lemma_embed_widened(v, (r - 1) as nat);
        assert(embed_all(widened(u)) =~= widened(embed_all(u))) by {
            assert forall|j: int| 0 <= j < 2 * u.len() implies embed_all(widened(u))[j] == widened(
                embed_all(u),
            )[j] by {
                lemma_embed(u[j / 2], u[j / 2]);
                assert(embed_all(u)[j / 2] == embed(u[j / 2]));
            }
        }
    }
}

} // verus!
