//! Folding steps of the low-degree test.

use vstd::arithmetic::power2::{lemma2_to64, pow2};
use vstd::prelude::*;

use crate::circle::{double_x, double_x_iter, double_x_s, CirclePoint, Coset};
use crate::fields::batch::batch_inverse;
use crate::fields::m31::M31;
use crate::fields::qm31::{embed, lemma_coordinates, QM31};
use crate::fields::{
    inv_of, lemma_add_swap_middle, lemma_canon_both, lemma_distrib_right, lemma_inv_exists, lemma_inv_of,
    lemma_mul_opposite, lemma_opposite_twice, Field,
};
use crate::line::{
    lemma_double_x_first, lemma_line_mappings_last, lemma_line_pair, lemma_mappings_last, line_at, line_mappings,
    LineDomain, LineEvaluation,
};
use crate::poly::circle_poly::CircleEvaluation;
use crate::poly::domain::{
    canonic_domain, lemma_canonic_domain_wf, lemma_doubled_at, lemma_reversed_pair, CircleDomain,
};
use crate::poly::eval::lemma_scaled_is_times;
use crate::poly::extension::interpolates;
use crate::poly::fold::{
    combine, embed_all, fold_s, lemma_fold_linear, mappings, poly_at, poly_at_secure,
};
use crate::poly::ifft::{lemma_two_pow_value, two_pow};
use crate::poly::unique::{domain_layer, lemma_canonic_domain_regular};
use crate::secure_column::{SecureColumnByCoords, SecureEvaluation};
use crate::utils::{bit_rev, bit_reverse_index, lemma_pow2_bound, lemma_pow2_double, pow2_usize};

verus! {

/// `f0 + f1 + alpha (f0 - f1) / t`, given the inverse of `t`.
pub open spec fn fold_pair(f0: QM31, f1: QM31, t_inv: M31, alpha: QM31) -> QM31 {
    f0.plus(f1).plus(alpha.times(f0.minus(f1).scaled(t_inv)))
}

/// The coordinates by which neighbours are folded.
pub open spec fn pair_xs(coset: Coset) -> Seq<M31> {
    Seq::new(
        pow2((coset.log_size - 1) as nat),
        |i: int| coset.at_s(bit_rev(i, (coset.log_size - 1) as nat)).x,
    )
}

/// The second coordinates by which neighbours on a circle domain are folded.
pub open spec fn pair_ys(half_coset: Coset) -> Seq<M31> {
    Seq::new(
        half_coset.size_s(),
        |i: int| half_coset.at_s(bit_rev(i, half_coset.log_size as nat)).y,
    )
}

/// Whether no element is zero.
pub open spec fn all_nonzero(v: Seq<M31>) -> bool {
    forall|i: int| 0 <= i < v.len() ==> (#[trigger] v[i]).canon() != M31::zero_el()
}

/// Neighbours folded into one another.
pub open spec fn fold_layer(values: Seq<QM31>, ts: Seq<M31>, alpha: QM31) -> Seq<QM31> {
    Seq::new(
        ts.len(),
        |i: int| fold_pair(values[2 * i], values[2 * i + 1], inv_of(ts[i]), alpha),
    )
}

/// Folds neighbours with the given coordinates.
pub fn fold_values(values: &SecureColumnByCoords, ts: Vec<M31>, alpha: QM31) -> (r:
    SecureColumnByCoords)
    requires
        values.wf(),
        values.len_s() == 2 * ts.len(),
        all_nonzero(ts@),
    ensures
        r.wf(),
        r.elements() == fold_layer(values.elements(), ts@, alpha),
{
    let t_invs = batch_inverse(&ts);
    let mut r = SecureColumnByCoords::new_empty();
    let n: usize = ts.len();
    for i in 0..n
        invariant
            n == ts.len(),
            n == t_invs.len(),
            values.wf(),
            values.len_s() == 2 * n,
            forall|k: int|
                0 <= k < n ==> ts@[k].times(#[trigger] t_invs@[k]) == M31::one_el()
                    && t_invs@[k].canon() == t_invs@[k],
            r.wf(),
            r.elements() == fold_layer(values.elements(), ts@, alpha).take(i as int),
    {
        let f0 = values.at(2 * i);
        let f1 = values.at(2 * i + 1);
        let t_inv = t_invs[i];
        let sum = f0.add(f1);
        let diff = f0.sub(f1).mul_m31(t_inv);
        proof {
            lemma_inv_of(ts@[i as int], t_inv);
        }
        r.push(sum.add(alpha.mul(diff)));
        assert(r.elements() =~= fold_layer(values.elements(), ts@, alpha).take(i + 1));
    }
    assert(fold_layer(values.elements(), ts@, alpha).take(n as int) =~= fold_layer(
        values.elements(),
        ts@,
        alpha,
    ));
    r
}

/// Folds an evaluation on a line domain to one on the doubled domain.
pub fn fold_line_cpu(eval: &LineEvaluation, alpha: QM31) -> (r: LineEvaluation)
    requires
        eval.wf(),
        eval.domain.coset.log_size >= 1,
        all_nonzero(pair_xs(eval.domain.coset)),
    ensures
        r.wf(),
        r.domain == eval.domain.double_s(),
        r.values.elements() == fold_layer(
            eval.values.elements(),
            pair_xs(eval.domain.coset),
            alpha,
        ),
{
    let domain = eval.domain;
    let half_log: u32 = domain.log_size() - 1;
    let half_n: usize = pow2_usize(half_log);
    proof {
        lemma_pow2_double(domain.coset.log_size as nat);
        lemma_pow2_bound(domain.coset.log_size as nat);
    }
    let mut xs: Vec<M31> = Vec::with_capacity(half_n);
    for i in 0..half_n
        invariant
            half_log <= 30,
            half_log == domain.coset.log_size - 1,
            half_n == pow2(half_log as nat),
            domain.wf(),
            domain.size_s() == 2 * half_n,
            xs@ == pair_xs(domain.coset).take(i as int),
    {
        let k = bit_reverse_index(i, half_log);
        xs.push(domain.at(k));
        assert(xs@ =~= pair_xs(domain.coset).take(i + 1));
    }
    assert(xs@ =~= pair_xs(domain.coset));
    let values = fold_values(&eval.values, xs, alpha);
    assert(values.elements().len() == half_n);
    LineEvaluation::new(domain.double(), values)
}

/// Folds an evaluation on a circle domain to one on the line domain of the canonical half coset.
pub fn fold_circle_into_line_cpu(src: &SecureEvaluation, alpha: QM31) -> (r: LineEvaluation)
    requires
        src.wf(),
        src.domain.half_coset.log_size <= 29,
        all_nonzero(pair_ys(src.domain.half_coset)),
    ensures
        r.wf(),
        r.domain.coset == canonic_domain(
            src.domain.log_size_s(),
        ).half_coset,
        r.values.elements() == fold_layer(
            src.values.elements(),
            pair_ys(src.domain.half_coset),
            alpha,
        ),
{
    let half = src.domain.half_coset;
    let line_log_size: u32 = half.log_size;
    let n: usize = pow2_usize(line_log_size);
    proof {
        lemma_pow2_double((line_log_size + 1) as nat);
        lemma_pow2_bound(line_log_size as nat);
    }
    let mut ys: Vec<M31> = Vec::with_capacity(n);
    for i in 0..n
        invariant
            line_log_size <= 29,
            line_log_size == half.log_size,
            n == pow2(line_log_size as nat),
            half.wf(),
            ys@ == pair_ys(half).take(i as int),
    {
        proof {
            lemma_pow2_bound(line_log_size as nat);
        }
        let k = bit_reverse_index(i, line_log_size);
        ys.push(half.at(k).y);
        assert(ys@ =~= pair_ys(half).take(i + 1));
    }
    assert(ys@ =~= pair_ys(half));
    let values = fold_values(&src.values, ys, alpha);
    assert(values.elements().len() == n);
    LineEvaluation::new(LineDomain::new(Coset::half_odds(line_log_size)), values)
}

/// Repeated folding, one challenge after the other.
pub open spec fn fold_layers(coset: Coset, values: Seq<QM31>, alphas: Seq<QM31>) -> Seq<QM31>
    decreases alphas.len(),
{
    if alphas.len() == 0 {
        values
    } else {
        fold_layers(
            coset.double_s(),
            fold_layer(values, pair_xs(coset), alphas[0]),
            alphas.drop_first(),
        )
    }
}

/// The coset doubled `k` times, and whether each of the doublings can be folded.
pub open spec fn doubled_coset(coset: Coset, k: nat) -> Coset
    decreases k,
{
    if k == 0 {
        coset
    } else {
        doubled_coset(coset, (k - 1) as nat).double_s()
    }
}

pub open spec fn foldable(coset: Coset, k: nat) -> bool {
    forall|m: nat| m < k ==> all_nonzero(pair_xs(#[trigger] doubled_coset(coset, m)))
}

pub proof fn lemma_doubled_coset_first(coset: Coset, k: nat)
    ensures
        doubled_coset(coset.double_s(), k) == doubled_coset(coset, k + 1),
    decreases k,
{
    if k > 0 {
        lemma_doubled_coset_first(coset, (k - 1) as nat);
    } else {
        assert(doubled_coset(coset, 1) == doubled_coset(coset, 0).double_s());
    }
}

/// Folds once for each challenge.
pub fn fold_line(eval: &LineEvaluation, alphas: &[QM31]) -> (r: LineEvaluation)
    requires
        eval.wf(),
        1 <= alphas.len() <= eval.domain.coset.log_size,
        foldable(eval.domain.coset, alphas@.len()),
    ensures
        r.wf(),
        r.domain.coset == doubled_coset(eval.domain.coset, alphas@.len()),
        r.values.elements() == fold_layers(
            eval.domain.coset,
            eval.values.elements(),
            alphas@,
        ),
{
    assert(doubled_coset(eval.domain.coset, 0) == eval.domain.coset);
    let mut res = fold_line_cpu(eval, alphas[0]);
    let fold_step: usize = alphas.len();
    let mut k: usize = 1;
    assert(doubled_coset(eval.domain.coset, 1) == doubled_coset(
        eval.domain.coset,
        0,
    ).double_s());
    while k < fold_step
        invariant
            1 <= k <= fold_step,
            fold_step == alphas.len(),
            fold_step <= eval.domain.coset.log_size,
            foldable(eval.domain.coset, alphas@.len()),
            res.wf(),
            res.domain.coset == doubled_coset(eval.domain.coset, k as nat),
            res.domain.coset.log_size == eval.domain.coset.log_size - k,
            fold_layers(eval.domain.coset, eval.values.elements(), alphas@) == fold_layers(
                res.domain.coset,
                res.values.elements(),
                alphas@.skip(k as int),
            ),
        decreases fold_step - k,
    {
        let ghost before = res;
        res = fold_line_cpu(&res, alphas[k]);
        assert(alphas@.skip(k as int).drop_first() =~= alphas@.skip(k + 1));
        k = k + 1;
    }
    assert(alphas@.skip(k as int).len() == 0);
    res
}

// ---------------------------------------------------------------------------------------------
// What folding does to the folded polynomial.

/// The coefficients of the folded polynomial: neighbours combined with the challenge.
pub open spec fn combine_pairs<F: Field>(d: Seq<F>, c: F) -> Seq<F> {
    Seq::new(d.len() / 2, |k: int| d[2 * k].plus(d[2 * k + 1].times(c)))
}

/// The last factor of a fold can be applied first, to neighbours.
pub proof fn lemma_fold_last<F: Field>(d: Seq<F>, factors: Seq<F>, c: F)
    requires
        d.len() == pow2(factors.len() + 1),
    ensures
        fold_s(d, factors.push(c)) == fold_s(combine_pairs(d, c), factors),
    decreases factors.len(),
{
    lemma_pow2_double(factors.len() + 1);
    let n = d.len() as int;
    let half = n / 2;
    let all = factors.push(c);
    if factors.len() == 0 {
        lemma2_to64();
        assert(all.drop_first().len() == 0);
        assert(d.subrange(0, half)[0] == d[0]);
        assert(d.subrange(half, n)[0] == d[1]);
        assert(fold_s(d.subrange(0, half), all.drop_first()) == d[0]);
        assert(fold_s(d.subrange(half, n), all.drop_first()) == d[1]);
    } else {
        lemma_pow2_double(factors.len());
        let rest = factors.drop_first();
        assert(all.drop_first() =~= rest.push(c));
        let (d0, d1) = (d.subrange(0, half), d.subrange(half, n));
        lemma_fold_last(d0, rest, c);
        lemma_fold_last(d1, rest, c);
        let q = combine_pairs(d, c);
        assert(q.len() == half);
        assert(q.subrange(0, half / 2) =~= combine_pairs(d0, c));
        assert(q.subrange(half / 2, half) =~= combine_pairs(d1, c)) by {
            assert forall|k: int| 0 <= k < half / 2 implies q.subrange(half / 2, half)[k]
                == combine_pairs(d1, c)[k] by {
                assert(2 * (half / 2 + k) == half + 2 * k);
            }
        }
    }
}

/// The entries at even places.
pub open spec fn evens<F: Field>(d: Seq<F>) -> Seq<F> {
    Seq::new(d.len() / 2, |k: int| d[2 * k])
}

/// The entries at odd places.
pub open spec fn odds<F: Field>(d: Seq<F>) -> Seq<F> {
    Seq::new(d.len() / 2, |k: int| d[2 * k + 1])
}

/// A fold is affine in its last factor.
proof fn lemma_fold_affine<F: Field>(d: Seq<F>, factors: Seq<F>, c: F)
    requires
        d.len() == pow2(factors.len() + 1),
    ensures
        fold_s(combine_pairs(d, c), factors) == fold_s(evens(d), factors).plus(
            fold_s(odds(d), factors).times(c),
        ),
{
    lemma_pow2_double(factors.len() + 1);
    assert(combine_pairs(d, c) =~= combine(evens(d), odds(d), c));
    lemma_fold_linear(evens(d), odds(d), c, factors);
}

/// Folding the values `(e + o x) s` and `(e - o x) s` gives `(e + o alpha) (s + s)`.
proof fn lemma_fold_core<F: Field>(e: F, o: F, x: F, x_inv: F, alpha: F, s: F, f0: F, f1: F)
    requires
        x.times(x_inv) == F::one_el(),
        f0.canon() == e.plus(o.times(x)).times(s),
        f1.canon() == e.plus(o.times(x.opposite())).times(s),
    ensures
        f0.plus(f1).plus(alpha.times(f0.minus(f1).times(x_inv))) == e.plus(
            o.times(alpha),
        ).times(s.plus(s)),
{
    let a = e.times(s);
    let b = o.times(x).times(s);
    let nb = b.opposite();
    // f0 = a + b and f1 = a - b
    lemma_distrib_right(e, o.times(x), s);
    lemma_mul_opposite(o, x);
    lemma_distrib_right(e, o.times(x).opposite(), s);
    F::law_mul_comm(o.times(x).opposite(), s);
    F::law_mul_comm(o.times(x), s);
    lemma_mul_opposite(s, o.times(x));
    assert(f0.canon() == a.plus(b));
    assert(f1.canon() == a.plus(nb));
    lemma_canon_both(f0, f1);
    // f0 + f1 = a + a
    lemma_add_swap_middle(a, b, a, nb);
    F::law_add_opposite(b);
    F::law_add_zero(a.plus(a));
    F::law_canon_results(a, a);
    assert(f0.plus(f1) == a.plus(a));
    // f0 - f1 = b + b
    F::law_sub(a.plus(b), a.plus(nb));
    crate::fields::lemma_opposite_sum(a, nb);
    lemma_opposite_twice(b);
    F::law_canon_results(o.times(x), s);
    lemma_add_swap_middle(a, b, a.opposite(), b);
    F::law_add_opposite(a);
    F::law_add_comm(F::zero_el(), b.plus(b));
    F::law_add_zero(b.plus(b));
    F::law_canon_results(b, b);
    assert(f0.minus(f1) == b.plus(b));
    // b / x = o s
    let os = o.times(s);
    lemma_distrib_right(b, b, x_inv);
    F::law_mul_assoc(o, x, s);
    F::law_mul_comm(x, s);
    F::law_mul_assoc(o, s, x);
    assert(b == os.times(x));
    F::law_mul_assoc(os, x, x_inv);
    F::law_mul_one(os);
    F::law_canon_results(o, s);
    assert(b.times(x_inv) == os);
    // a + a + alpha (o s + o s) = (e + o alpha) (s + s)
    F::law_distrib(alpha, os, os);
    F::law_mul_assoc(alpha, o, s);
    F::law_mul_comm(alpha, o);
    let oas = o.times(alpha).times(s);
    assert(alpha.times(os) == oas);
    lemma_add_swap_middle(a, a, oas, oas);
    lemma_distrib_right(e, o.times(alpha), s);
    let g = e.plus(o.times(alpha));
    F::law_distrib(g, s, s);
}

/// Embedding keeps sums, products, opposites and one.
pub proof fn lemma_embed(a: M31, b: M31)
    ensures
        embed(a).plus(embed(b)) == embed(a.plus(b)),
        embed(a).minus(embed(b)) == embed(a.minus(b)),
        embed(a).times(embed(b)) == embed(a.times(b)),
        embed(a).opposite() == embed(a.opposite()),
        embed(a).canon() == embed(a.canon()),
        embed(M31::one_el()) == QM31::one_el(),
        embed(M31::zero_el()) == QM31::zero_el(),
{
    lemma_coordinates(embed(a), embed(b), b);
    lemma_scaled_is_times(embed(a), b);
    M31::law_mul_comm(M31::zero_el(), b);
    crate::fields::lemma_mul_zero(b);
    assert(M31::zero_el().opposite() == M31::zero_el());
}

/// Folding one pair of values of a polynomial.
proof fn lemma_fold_step<F: Field>(
    d: Seq<F>,
    factors: Seq<F>,
    x: F,
    x_inv: F,
    alpha: F,
    s: F,
    f0: F,
    f1: F,
)
    requires
        d.len() == pow2(factors.len() + 1),
        x.times(x_inv) == F::one_el(),
        f0.canon() == fold_s(d, factors.push(x)).times(s),
        f1.canon() == fold_s(d, factors.push(x.opposite())).times(s),
    ensures
        f0.plus(f1).plus(alpha.times(f0.minus(f1).times(x_inv))) == fold_s(
            combine_pairs(d, alpha),
            factors,
        ).times(s.plus(s)),
{
    lemma_fold_last(d, factors, x);
    lemma_fold_last(d, factors, x.opposite());
    lemma_fold_affine(d, factors, x);
    lemma_fold_affine(d, factors, x.opposite());
    lemma_fold_affine(d, factors, alpha);
    lemma_fold_core(
        fold_s(evens(d), factors),
        fold_s(odds(d), factors),
        x,
        x_inv,
        alpha,
        s,
        f0,
        f1,
    );
}

proof fn lemma_fold_pair(
    d: Seq<QM31>,
    factors: Seq<QM31>,
    t: M31,
    alpha: QM31,
    s: QM31,
    f0: QM31,
    f1: QM31,
)
    requires
        d.len() == pow2(factors.len() + 1),
        t.canon() != M31::zero_el(),
        f0.canon() == fold_s(d, factors.push(embed(t))).times(s),
        f1.canon() == fold_s(d, factors.push(embed(t.opposite()))).times(s),
    ensures
        fold_pair(f0, f1, inv_of(t), alpha) == fold_s(combine_pairs(d, alpha), factors).times(
            s.plus(s),
        ),
{
    lemma_inv_exists(t);
    lemma_embed(t, inv_of(t));
    lemma_scaled_is_times(f0.minus(f1), inv_of(t));
    lemma_fold_step(d, factors, embed(t), embed(inv_of(t)), alpha, s, f0, f1);
}

/// The values are those of the line polynomial `d`, scaled by `s`.
#[verifier::opaque]
pub open spec fn line_values(domain: LineDomain, values: Seq<QM31>, d: Seq<QM31>, s: QM31) -> bool {
    &&& values.len() == domain.size_s()
    &&& d.len() == domain.size_s()
    &&& forall|j: int|
        0 <= j < values.len() ==> (#[trigger] values[j]).canon() == line_at(
            d,
            domain.coset.log_size as nat,
            embed(domain.reversed_at(j)),
        ).times(s)
}

pub proof fn lemma_line_values_len(domain: LineDomain, values: Seq<QM31>, d: Seq<QM31>, s: QM31)
    requires
        line_values(domain, values, d, s),
    ensures
        values.len() == domain.size_s(),
        d.len() == domain.size_s(),
{
    reveal(line_values);
}

pub proof fn lemma_circle_values_len(
    domain: CircleDomain,
    values: Seq<QM31>,
    d: Seq<QM31>,
    s: QM31,
)
    requires
        circle_values(domain, values, d, s),
    ensures
        values.len() == domain.size_s(),
        d.len() == domain.size_s(),
{
    reveal(circle_values);
}

/// The values are those of the circle polynomial `d`, scaled by `s`.
#[verifier::opaque]
pub open spec fn circle_values(
    domain: CircleDomain,
    values: Seq<QM31>,
    d: Seq<QM31>,
    s: QM31,
) -> bool {
    &&& values.len() == domain.size_s()
    &&& d.len() == domain.size_s()
    &&& forall|j: int|
        0 <= j < values.len() ==> (#[trigger] values[j]).canon() == poly_at(
            d,
            domain.log_size_s(),
            embed(domain.reversed_at(j).x),
            embed(domain.reversed_at(j).y),
        ).times(s)
}

/// Folding the values of a line polynomial on a domain gives twice the values, on the doubled
/// domain, of the polynomial whose coefficients are the neighbours combined with the challenge.
pub proof fn lemma_fold_line(
    domain: LineDomain,
    values: Seq<QM31>,
    d: Seq<QM31>,
    s: QM31,
    alpha: QM31,
)
    requires
        domain.wf(),
        domain.coset.log_size >= 1,
        all_nonzero(pair_xs(domain.coset)),
        line_values(domain, values, d, s),
    ensures
        line_values(
            domain.double_s(),
            fold_layer(values, pair_xs(domain.coset), alpha),
            combine_pairs(d, alpha),
            s.plus(s),
        ),
{
    reveal(line_values);
    let n = domain.coset.log_size as nat;
    let n1 = (n - 1) as nat;
    lemma_pow2_double(n);
    let xs = pair_xs(domain.coset);
    let r = fold_layer(values, xs, alpha);
    assert(domain.double_s().coset.log_size == n1);
    assert forall|i: int| 0 <= i < r.len() implies (#[trigger] r[i]).canon() == line_at(
        combine_pairs(d, alpha),
        n1,
        embed(domain.double_s().reversed_at(i)),
    ).times(s.plus(s)) by {
        lemma_line_pair(domain, i);
        let t = domain.reversed_at(2 * i);
        assert(xs[i] == t);
        let x = embed(t);
        let x2 = embed(domain.double_s().reversed_at(i));
        lemma_embed(t, t);
        lemma_embed(t.times(t), t.times(t));
        lemma_embed(t.times(t).plus(t.times(t)), M31::one_el());
        assert(double_x_s(x) == x2);
        lemma_mul_opposite(x, x.opposite());
        lemma_mul_opposite(x, x);
        QM31::law_mul_comm(x.opposite(), x);
        lemma_opposite_twice(x.times(x));
        QM31::law_canon_results(x, x);
        assert(x.opposite().times(x.opposite()) == x.times(x)) by {
            lemma_mul_opposite(x.opposite(), x);
        }
        assert(double_x_s(x.opposite()) == x2);
        lemma_line_mappings_last(n, x);
        lemma_line_mappings_last(n, x.opposite());
        assert(values[2 * i].canon() == line_at(d, n, x).times(s));
        assert(values[2 * i + 1].canon() == line_at(d, n, x.opposite()).times(s));
        lemma_fold_pair(
            d,
            line_mappings(n1, x2),
            t,
            alpha,
            s,
            values[2 * i],
            values[2 * i + 1],
        );
        QM31::law_canon_results(
            line_at(combine_pairs(d, alpha), n1, x2),
            s.plus(s),
        );
    }
}

/// Folding the values of a circle polynomial gives twice the values, on the line domain of the
/// half coset, of the line polynomial whose coefficients are the neighbours combined with the
/// challenge.
pub proof fn lemma_fold_circle_into_line(
    domain: CircleDomain,
    values: Seq<QM31>,
    d: Seq<QM31>,
    s: QM31,
    alpha: QM31,
)
    requires
        domain.wf(),
        all_nonzero(pair_ys(domain.half_coset)),
        circle_values(domain, values, d, s),
    ensures
        line_values(
            (LineDomain { coset: domain.half_coset }),
            fold_layer(values, pair_ys(domain.half_coset), alpha),
            combine_pairs(d, alpha),
            s.plus(s),
        ),
{
    reveal(line_values);
    reveal(circle_values);
    let line = LineDomain { coset: domain.half_coset };
    let n = domain.log_size_s();
    let n1 = (n - 1) as nat;
    lemma_pow2_double(n);
    let ys = pair_ys(domain.half_coset);
    let r = fold_layer(values, ys, alpha);
    assert forall|i: int| 0 <= i < r.len() implies (#[trigger] r[i]).canon() == line_at(
        combine_pairs(d, alpha),
        n1,
        embed(line.reversed_at(i)),
    ).times(s.plus(s)) by {
        lemma_reversed_pair(domain, i);
        let p = domain.reversed_at(2 * i);
        assert(ys[i] == p.y);
        let x = embed(p.x);
        lemma_embed(p.y, p.y);
        lemma_mappings_last(n, x, embed(p.y));
        lemma_mappings_last(n, x, embed(p.y.opposite()));
        assert(values[2 * i].canon() == poly_at(d, n, x, embed(p.y)).times(s));
        assert(values[2 * i + 1].canon() == poly_at(d, n, x, embed(p.y.opposite())).times(s));
        lemma_fold_pair(
            d,
            line_mappings(n1, x),
            p.y,
            alpha,
            s,
            values[2 * i],
            values[2 * i + 1],
        );
        QM31::law_canon_results(
            line_at(combine_pairs(d, alpha), n1, x),
            s.plus(s),
        );
    }
}

// ---------------------------------------------------------------------------------------------
// Evaluation of a polynomial by folding its values.

/// The values as secure field elements.
pub open spec fn embedded(values: Seq<M31>) -> Seq<QM31> {
    values.map_values(|a: M31| embed(a))
}

/// The factors at a point, from the lowest digit up.
pub open spec fn folding_alphas(p: CirclePoint<QM31>, n: nat) -> Seq<QM31> {
    Seq::new(n, |k: int| crate::poly::domain::mapping_at(p.x, p.y, k))
}

/// The challenges that fold a polynomial to its value at a point.
pub fn get_folding_alphas(point: CirclePoint<QM31>, n: usize) -> (r: Vec<QM31>)
    requires
        n >= 1,
    ensures
        r@ == folding_alphas(point, n as nat),
{
    let mut r: Vec<QM31> = Vec::new();
    r.push(point.y);
    let mut x = point.x;
    for k in 1..n
        invariant
            r@ == folding_alphas(point, k as nat),
            k >= 1,
            x == double_x_iter(point.x, (k - 1) as nat),
    {
        r.push(x);
        x = double_x(x);
        assert(r@ =~= folding_alphas(point, (k + 1) as nat));
    }
    assert(r@ =~= folding_alphas(point, n as nat));
    r
}

/// The half cosets of canonical domains can be folded all the way down.
pub proof fn lemma_canonic_foldable(log_size: nat)
    requires
        0 < log_size <= 30,
    ensures
        all_nonzero(pair_ys(canonic_domain(log_size).half_coset)),
        foldable(canonic_domain(log_size).half_coset, (log_size - 1) as nat),
{
    let d = canonic_domain(log_size);
    let h = d.half_coset;
    let l = (log_size - 1) as nat;
    lemma_canonic_domain_wf(log_size);
    lemma_canonic_domain_regular(log_size);
    assert(domain_layer(d, 0) =~= pair_ys(h));
    assert forall|i: int| 0 <= i < pair_ys(h).len() implies (#[trigger] pair_ys(h)[i]).canon()
        != M31::zero_el() by {
        assert(domain_layer(d, 0)[i] == pair_ys(h)[i]);
    }
    assert forall|m: nat| m < l implies all_nonzero(pair_xs(#[trigger] doubled_coset(h, m))) by {
        lemma_doubled_coset_at(h, m);
        let c = doubled_coset(h, m);
        assert(c.log_size == l - m);
        assert(domain_layer(d, m + 1) =~= pair_xs(c));
        assert forall|i: int| 0 <= i < pair_xs(c).len() implies (#[trigger] pair_xs(c)[i]).canon()
            != M31::zero_el() by {
            assert(domain_layer(d, m + 1)[i] == pair_xs(c)[i]);
        }
    }
}

pub proof fn lemma_doubled_coset_at(c: Coset, k: nat)
    requires
        c.wf(),
        k <= c.log_size,
    ensures
        doubled_coset(c, k) == c.repeated_double_s(k),
    decreases k,
{
    if k == 0 {
        lemma2_to64();
        assert(pow2(0) * c.initial_index.0 == c.initial_index.0);
        vstd::arithmetic::div_mod::lemma_small_mod(
            c.initial_index.0 as nat,
            crate::circle::circle_order(),
        );
        crate::circle::lemma_coset_canonical(c);
    } else {
        lemma_doubled_coset_at(c, (k - 1) as nat);
        crate::poly::twiddles::lemma_double_step(c, (k - 1) as nat);
    }
}

/// Embedding commutes with folding.
proof fn lemma_embed_fold(v: Seq<M31>, factors: Seq<M31>)
    requires
        v.len() == pow2(factors.len()),
    ensures
        embed(fold_s(v, factors)) == fold_s(embedded(v), embedded(factors)),
    decreases factors.len(),
{
    if factors.len() == 0 {
        lemma2_to64();
    } else {
        lemma_pow2_double(factors.len());
        let n = v.len() as int;
        let half = n / 2;
        let rest = factors.drop_first();
        lemma_embed_fold(v.subrange(0, half), rest);
        lemma_embed_fold(v.subrange(half, n), rest);
        assert(embedded(v).subrange(0, half) =~= embedded(v.subrange(0, half)));
        assert(embedded(v).subrange(half, n) =~= embedded(v.subrange(half, n)));
        assert(embedded(factors).drop_first() =~= embedded(rest));
        let a = fold_s(v.subrange(0, half), rest);
        let b = fold_s(v.subrange(half, n), rest);
        lemma_embed(b, factors[0]);
        lemma_embed(a, b.times(factors[0]));
    }
}

pub proof fn lemma_embed_double_x(x: M31, k: nat)
    ensures
        double_x_iter(embed(x), k) == embed(double_x_iter(x, k)),
    decreases k,
{
    if k > 0 {
        let t = double_x_iter(x, (k - 1) as nat);
        lemma_embed_double_x(x, (k - 1) as nat);
        lemma_embed(t, t);
        lemma_embed(t.times(t), t.times(t));
        lemma_embed(t.times(t).plus(t.times(t)), M31::one_el());
    }
}

/// The value of a base field polynomial, embedded.
pub proof fn lemma_embed_poly(c: Seq<M31>, n: nat, x: M31, y: M31)
    requires
        c.len() == pow2(n),
    ensures
        embed(poly_at(c, n, x, y)) == poly_at(embed_all(c), n, embed(x), embed(y)),
{
    lemma_embed_fold(c, mappings(n, x, y));
    assert(embedded(c) =~= embed_all(c));
    assert(embedded(mappings(n, x, y)) =~= mappings(n, embed(x), embed(y))) by {
        assert forall|k: int| 0 <= k < n implies embedded(mappings(n, x, y))[k] == mappings(
            n,
            embed(x),
            embed(y),
        )[k] by {
            if n - 1 - k > 0 {
                lemma_embed_double_x(x, (n - 2 - k) as nat);
            }
        }
    }
}

/// The values of an interpolated column are those of its polynomial over the secure field.
proof fn lemma_interpolated_values(evals: CircleEvaluation, c: Seq<M31>)
    requires
        evals.wf(),
        interpolates(evals, c),
    ensures
        circle_values(evals.domain, embedded(evals.values@), embed_all(c), QM31::one_el()),
{
    reveal(circle_values);
    let n = evals.domain.log_size_s();
    let v = embedded(evals.values@);
    assert forall|j: int| 0 <= j < v.len() implies (#[trigger] v[j]).canon() == poly_at(
        embed_all(c),
        n,
        embed(evals.domain.reversed_at(j).x),
        embed(evals.domain.reversed_at(j).y),
    ).times(QM31::one_el()) by {
        let p = evals.domain.reversed_at(j);
        lemma_embed_poly(c, n, p.x, p.y);
        assert(evals.values@[j].canon() == poly_at(c, n, p.x, p.y));
        lemma_embed(evals.values@[j], p.x);
        lemma_embed(poly_at(c, n, p.x, p.y), p.x);
        QM31::law_mul_one(embed(poly_at(c, n, p.x, p.y)));
        M31::law_canon_results(evals.values@[j], evals.values@[j]);
    }
}

/// The value left when a column is folded with the factors of a point.
pub open spec fn folded_value(evals: CircleEvaluation, point: CirclePoint<QM31>) -> QM31 {
    let n = evals.domain.log_size_s();
    let alphas = folding_alphas(point, n);
    fold_layers(
        canonic_domain(n).half_coset,
        fold_layer(
            embedded(evals.values@),
            pair_ys(evals.domain.half_coset),
            alphas[0],
        ),
        alphas.drop_first(),
    )[0]
}

/// Dividing a scaled value by the scale.
proof fn lemma_unscale<F: Field>(v: F, s: F, s_inv: F)
    requires
        v.canon() == v,
        s.times(s_inv) == F::one_el(),
    ensures
        v.times(s).times(s_inv) == v,
{
    F::law_mul_assoc(v, s, s_inv);
    F::law_mul_one(v);
}

pub proof fn lemma_fold_canonical<F: Field>(v: Seq<F>, factors: Seq<F>)
    requires
        factors.len() > 0,
    ensures
        fold_s(v, factors).canon() == fold_s(v, factors),
{
    let half = v.len() as int / 2;
    let rest = factors.drop_first();
    F::law_canon_results(
        fold_s(v.subrange(0, half), rest),
        fold_s(v.subrange(half, v.len() as int), rest).times(factors[0]),
    );
}

/// The folded value is the value of the interpolant, times the size of the domain.
pub proof fn lemma_folded_value(evals: CircleEvaluation, c: Seq<M31>, point: CirclePoint<QM31>)
    requires
        evals.wf(),
        evals.domain.log_size_s() <= 30,
        evals.domain == canonic_domain(evals.domain.log_size_s()),
        interpolates(evals, c),
    ensures
        folded_value(evals, point).canon() == poly_at_secure(
            c,
            evals.domain.log_size_s(),
            point,
        ).times(embed(two_pow(evals.domain.log_size_s()))),
{
    let n = evals.domain.log_size_s();
    let h = evals.domain.half_coset;
    let d = embed_all(c);
    let alphas = folding_alphas(point, n);
    lemma_canonic_foldable(n);
    lemma_interpolated_values(evals, c);
    lemma_circle_values_len(evals.domain, embedded(evals.values@), d, QM31::one_el());
    let one = QM31::one_el();
    lemma_fold_circle_into_line(evals.domain, embedded(evals.values@), d, one, alphas[0]);
    let line = LineDomain { coset: h };
    let v = fold_layer(embedded(evals.values@), pair_ys(h), alphas[0]);
    lemma_mappings_last(n, point.x, point.y);
    lemma_fold_last(d, line_mappings((n - 1) as nat, point.x), point.y);
    lemma_embed(two_pow(0), two_pow(0));
    assert(two_pow(1) == two_pow(0).plus(two_pow(0)));
    assert(alphas.drop_first() =~= line_alphas(point.x, (n - 1) as nat));
    lemma_fold_down(line, v, combine_pairs(d, alphas[0]), 1, point.x);
}

/// The repeated doubles of `x`.
pub open spec fn line_alphas(x: QM31, n: nat) -> Seq<QM31> {
    Seq::new(n, |k: int| double_x_iter(x, k as nat))
}

proof fn lemma_fold_down(line: LineDomain, values: Seq<QM31>, d: Seq<QM31>, k: nat, x: QM31)
    requires
        line.wf(),
        foldable(line.coset, line.coset.log_size as nat),
        line_values(line, values, d, embed(two_pow(k))),
    ensures
        fold_layers(
            line.coset,
            values,
            line_alphas(x, line.coset.log_size as nat),
        )[0].canon() == line_at(d, line.coset.log_size as nat, x).times(
            embed(two_pow(k + line.coset.log_size as nat)),
        ),
    decreases line.coset.log_size,
{
    let n = line.coset.log_size as nat;
    let alphas = line_alphas(x, n);
    lemma_line_values_len(line, values, d, embed(two_pow(k)));
    if n == 0 {
        reveal(line_values);
        lemma2_to64();
        assert(line_mappings(0, x) =~= line_mappings(0, embed(line.reversed_at(0))));
    } else {
        let n1 = (n - 1) as nat;
        assert(doubled_coset(line.coset, 0) == line.coset);
        lemma_fold_line(line, values, d, embed(two_pow(k)), x);
        lemma_embed(two_pow(k), two_pow(k));
        let next = fold_layer(values, pair_xs(line.coset), x);
        let d1 = combine_pairs(d, x);
        let line1 = line.double_s();
        assert(line1.wf()) by {
            lemma_doubled_at(line.coset, 1, 0);
            lemma2_to64();
        }
        assert(foldable(line1.coset, n1)) by {
            assert forall|m: nat| m < n1 implies all_nonzero(
                pair_xs(#[trigger] doubled_coset(line1.coset, m)),
            ) by {
                lemma_doubled_coset_first(line.coset, m);
                assert(all_nonzero(pair_xs(doubled_coset(line.coset, m + 1))));
            }
        }
        lemma_fold_down(line1, next, d1, k + 1, double_x_s(x));
        assert(alphas[0] == x);
        assert(alphas.drop_first() =~= line_alphas(double_x_s(x), n1)) by {
            assert forall|i: int| 0 <= i < n1 implies alphas.drop_first()[i] == line_alphas(
                double_x_s(x),
                n1,
            )[i] by {
                lemma_double_x_first(x, i as nat);
            }
        }
        lemma_pow2_double(n);
        lemma_line_mappings_last(n, x);
        lemma_fold_last(d, line_mappings(n1, double_x_s(x)), x);
        assert(k + 1 + n1 == k + n);
    }
}

proof fn lemma_fold_layers_step(coset: Coset, values: Seq<QM31>, alphas: Seq<QM31>, k: int)
    requires
        0 <= k < alphas.len(),
    ensures
        fold_layers(coset, values, alphas.skip(k)) == fold_layers(
            coset.double_s(),
            fold_layer(values, pair_xs(coset), alphas[k]),
            alphas.skip(k + 1),
        ),
{
    assert(alphas.skip(k).drop_first() =~= alphas.skip(k + 1));
}

/// Folds a column with the factors of a point, one after the other, until one value is left.
fn fold_to_value(evals: &CircleEvaluation, point: CirclePoint<QM31>) -> (r: QM31)
    requires
        evals.wf(),
        evals.domain.log_size_s() <= 30,
        all_nonzero(pair_ys(evals.domain.half_coset)),
    ensures
        r == folded_value(*evals, point),
{
    let log_size: u32 = evals.domain.log_size();
    let alphas = get_folding_alphas(point, log_size as usize);
    let n: usize = evals.values.len();
    let mut column = SecureColumnByCoords::new_empty();
    for i in 0..n
        invariant
            n == evals.values.len(),
            column.wf(),
            column.elements() == embedded(evals.values@).take(i as int),
    {
        column.push(QM31::from_base(evals.values[i]));
        assert(column.elements() =~= embedded(evals.values@).take(i + 1));
    }
    assert(column.elements() =~= embedded(evals.values@));
    assert(column.elements().len() == n);
    let secure = SecureEvaluation::new(evals.domain, column);
    let mut layer = fold_circle_into_line_cpu(&secure, alphas[0]);
    let ghost h = canonic_domain(log_size as nat).half_coset;
    let ghost all = folding_alphas(point, log_size as nat);
    assert(layer.domain.coset == h);
    assert(doubled_coset(h, 0) == h);
    assert(all.drop_first() =~= all.skip(1));
    proof {
        lemma_canonic_foldable(log_size as nat);
    }
    let ghost target = folded_value(*evals, point);
    assert(target == fold_layers(h, layer.values.elements(), all.skip(1))[0]);
    let mut k: usize = 1;
    while layer.len() > 1
        invariant
            1 <= k <= log_size,
            log_size <= 30,
            all.len() == log_size,
            alphas@ == all,
            layer.wf(),
            foldable(h, (log_size - 1) as nat),
            layer.domain.coset == doubled_coset(h, (k - 1) as nat),
            layer.domain.coset.log_size == log_size - k,
            target == fold_layers(
                layer.domain.coset,
                layer.values.elements(),
                all.skip(k as int),
            )[0],
        decreases log_size - k,
    {
        proof {
            lemma2_to64();
            if k == log_size {
                assert(layer.domain.size_s() == 1);
            }
        }
        assert(all_nonzero(pair_xs(doubled_coset(h, (k - 1) as nat))));
        proof {
            lemma_fold_layers_step(
                layer.domain.coset,
                layer.values.elements(),
                all,
                k as int,
            );
        }
        layer = fold_line_cpu(&layer, alphas[k]);
        k = k + 1;
    }
    proof {
        if k < log_size {
            lemma_pow2_double(layer.domain.coset.log_size as nat);
        }
        assert(all.skip(k as int).len() == 0);
        vstd::arithmetic::power2::lemma_pow2_pos(layer.domain.coset.log_size as nat);
    }
    layer.values.at(0)
}

proof fn lemma_eval_by_folding(
    evals: CircleEvaluation,
    c: Seq<M31>,
    point: CirclePoint<QM31>,
    s_inv: QM31,
)
    requires
        evals.wf(),
        evals.domain.log_size_s() <= 30,
        evals.domain == canonic_domain(evals.domain.log_size_s()),
        interpolates(evals, c),
        embed(two_pow(evals.domain.log_size_s())).times(s_inv) == QM31::one_el(),
    ensures
        folded_value(evals, point).times(s_inv) == poly_at_secure(
            c,
            evals.domain.log_size_s(),
            point,
        ),
{
    let n = evals.domain.log_size_s();
    lemma_folded_value(evals, c, point);
    lemma_fold_canonical(embed_all(c), mappings(n, point.x, point.y));
    lemma_unscale(poly_at_secure(c, n, point), embed(two_pow(n)), s_inv);
    QM31::law_canon_args(folded_value(evals, point), s_inv);
}

/// Evaluates a column at a point by folding its values with the factors of the point, one after
/// the other, and dividing by the size of the domain.
pub fn eval_at_point_by_folding(evals: &CircleEvaluation, point: CirclePoint<QM31>) -> (r: QM31)
    requires
        evals.wf(),
        evals.domain.log_size_s() <= 30,
        all_nonzero(pair_ys(evals.domain.half_coset)),
    ensures
        r == folded_value(*evals, point).times(
            inv_of(embed(two_pow(evals.domain.log_size_s()))),
        ),
        evals.domain == canonic_domain(evals.domain.log_size_s()) ==> forall|c: Seq<M31>|
            #[trigger] interpolates(*evals, c) ==> r == poly_at_secure(
                c,
                evals.domain.log_size_s(),
                point,
            ),
{
    let log_size: u32 = evals.domain.log_size();
    let v = fold_to_value(evals, point);
    proof {
        lemma_two_pow_nonzero(log_size as nat);
        lemma_pow2_bound(log_size as nat);
    }
    let size = QM31::from_base(M31(pow2_usize(log_size) as u32));
    let inv = size.inverse();
    proof {
        lemma_inv_of(size, inv);
        assert(size == embed(two_pow(log_size as nat)));
        if evals.domain == canonic_domain(log_size as nat) {
            assert forall|c: Seq<M31>| #[trigger] interpolates(*evals, c) implies v.times(inv)
                == poly_at_secure(c, log_size as nat, point) by {
                lemma_eval_by_folding(*evals, c, point, inv);
            }
        }
    }
    v.mul(inv)
}

/// Powers of two below the characteristic are not zero.
pub proof fn lemma_two_pow_nonzero(n: nat)
    requires
        n <= 30,
    ensures
        two_pow(n) == M31(pow2(n) as u32),
        embed(two_pow(n)).canon() != QM31::zero_el(),
        two_pow(n).canon() != M31::zero_el(),
{
    lemma_two_pow_value(n);
    lemma_pow2_bound(n);
    lemma_coordinates(embed(two_pow(n)), embed(two_pow(n)), two_pow(n));
    lemma2_to64();
    if n < 30 {
        vstd::arithmetic::power2::lemma_pow2_strictly_increases(n, 30);
    }
    vstd::arithmetic::div_mod::lemma_small_mod(pow2(n), crate::fields::prime::P as nat);
}

} // verus!
