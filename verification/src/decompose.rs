//! Splitting a polynomial into a part inside the FFT space of half the size and a remainder.

use vstd::arithmetic::power2::{lemma2_to64, lemma_pow2_pos, pow2};
use vstd::prelude::*;

use crate::fields::m31::M31;
use crate::fields::qm31::{embed, QM31};
use crate::fields::{
    inv_of, lemma_add_swap_middle, lemma_distrib_right, lemma_inv_exists, lemma_inv_of,
    lemma_mul_opposite, lemma_mul_zero, lemma_opposite_sum, lemma_opposite_twice, Field,
};
use crate::fri::{
    circle_values, combine_pairs, doubled_coset, fold_layer, foldable, lemma_canonic_foldable,
    lemma_doubled_coset_at, lemma_doubled_coset_first, lemma_embed, lemma_fold_circle_into_line,
    lemma_fold_line, lemma_circle_values_len, lemma_line_values_len, lemma_two_pow_nonzero,
    line_values, pair_xs, pair_ys, all_nonzero,
};
use crate::line::{line_at, line_mappings, LineDomain};
use crate::poly::domain::{
    canonic_domain, lemma_doubled_at, lemma_line_mapping, lemma_reversed_pair, mapping_at,
    CircleDomain,
};
use crate::poly::eval::lemma_scaled_is_times;
use crate::poly::fold::{fold_s, lemma_mappings_rest, mappings, poly_at, sum_s};
use crate::poly::ifft::two_pow;
use crate::secure_column::{SecureColumnByCoords, SecureEvaluation};
use crate::utils::{lemma_bit_rev_range, lemma_pow2_bound, lemma_pow2_double, pow2_usize};

verus! {

/// The sum over the first half minus the sum over the second half.
pub open spec fn half_difference<F: Field>(values: Seq<F>) -> F {
    let half = values.len() as int / 2;
    sum_s(values.subrange(0, half)).minus(sum_s(values.subrange(half, values.len() as int)))
}

/// The coefficient of the remainder.
pub open spec fn coefficient_s(values: Seq<QM31>, n: nat) -> QM31 {
    half_difference(values).scaled(inv_of(two_pow(n)))
}

/// The sum over the rows from `from` to `to`.
fn sum_rows(values: &SecureColumnByCoords, from: usize, to: usize) -> (r: QM31)
    requires
        values.wf(),
        from <= to <= values.len_s(),
    ensures
        r == sum_s(values.elements().subrange(from as int, to as int)),
{
    let mut acc = QM31::zero();
    let mut i: usize = from;
    while i < to
        invariant
            from <= i <= to,
            to <= values.len_s(),
            values.wf(),
            acc == sum_s(values.elements().subrange(from as int, i as int)),
        decreases to - i,
    {
        acc = acc.add(values.at(i));
        assert(values.elements().subrange(from as int, i + 1).drop_last()
            =~= values.elements().subrange(from as int, i as int));
        i = i + 1;
    }
    acc
}

/// The coefficient of the vanishing polynomial of the half coset in the polynomial with the
/// given values: the difference of the sums over the two halves, divided by the size.
pub fn decomposition_coefficient(eval: &SecureEvaluation) -> (r: QM31)
    requires
        eval.wf(),
        eval.domain.log_size_s() <= 30,
    ensures
        r == coefficient_s(eval.values.elements(), eval.domain.log_size_s()),
{
    let log_size: u32 = eval.domain.log_size();
    let domain_size: usize = pow2_usize(log_size);
    let half: usize = domain_size / 2;
    proof {
        lemma_two_pow_nonzero(log_size as nat);
        lemma_pow2_bound(log_size as nat);
    }
    let a_sum = sum_rows(&eval.values, 0, half);
    let b_sum = sum_rows(&eval.values, half, domain_size);
    let inv = M31(domain_size as u32).inverse();
    proof {
        lemma_inv_of(M31(domain_size as u32), inv);
    }
    a_sum.sub(b_sum).mul_m31(inv)
}

/// The values with the remainder taken off: the coefficient is subtracted on the first half and
/// added on the second.
pub open spec fn decomposed(values: Seq<QM31>, lambda: QM31) -> Seq<QM31> {
    Seq::new(
        values.len(),
        |i: int|
            if i < values.len() / 2 {
                values[i].minus(lambda)
            } else {
                values[i].plus(lambda)
            },
    )
}

/// Takes the remainder off a polynomial, and returns its coefficient too.
pub fn decompose(eval: &SecureEvaluation) -> (r: (SecureEvaluation, QM31))
    requires
        eval.wf(),
        eval.domain.log_size_s() <= 30,
    ensures
        r.1 == coefficient_s(eval.values.elements(), eval.domain.log_size_s()),
        r.0.wf(),
        r.0.domain == eval.domain,
        r.0.values.elements() == decomposed(eval.values.elements(), r.1),
{
    let lambda = decomposition_coefficient(eval);
    let n: usize = eval.values.len();
    let half: usize = n / 2;
    let mut g = SecureColumnByCoords::new_empty();
    for i in 0..n
        invariant
            eval.wf(),
            n == eval.values.len_s(),
            half == n / 2,
            g.wf(),
            g.elements() == decomposed(eval.values.elements(), lambda).take(i as int),
    {
        let x = eval.values.at(i);
        if i < half {
            g.push(x.sub(lambda));
        } else {
            g.push(x.add(lambda));
        }
        assert(g.elements() =~= decomposed(eval.values.elements(), lambda).take(i + 1));
    }
    assert(g.elements() =~= decomposed(eval.values.elements(), lambda));
    assert(g.elements().len() == n);
    (SecureEvaluation::new(eval.domain, g), lambda)
}

// ---------------------------------------------------------------------------------------------
// What the decomposition does to the polynomial.

/// Neighbours added up.
pub open spec fn pair_sums<F: Field>(v: Seq<F>) -> Seq<F> {
    Seq::new(v.len() / 2, |i: int| v[2 * i].plus(v[2 * i + 1]))
}

pub proof fn lemma_sum_pairs<F: Field>(v: Seq<F>)
    requires
        v.len() % 2 == 0,
    ensures
        sum_s(v) == sum_s(pair_sums(v)),
    decreases v.len(),
{
    if v.len() > 0 {
        let w = v.drop_last().drop_last();
        lemma_sum_pairs(w);
        assert(pair_sums(v).drop_last() =~= pair_sums(w));
        let (a, b) = (v[v.len() - 2], v[v.len() - 1]);
        assert(pair_sums(v).last() == a.plus(b));
        assert(sum_s(v) == sum_s(v.drop_last()).plus(b));
        assert(sum_s(v.drop_last()) == sum_s(w).plus(a));
        F::law_add_assoc(sum_s(w), a, b);
    } else {
        assert(pair_sums(v).len() == 0);
    }
}

proof fn lemma_half_difference_pairs<F: Field>(v: Seq<F>)
    requires
        v.len() % 4 == 0,
    ensures
        half_difference(v) == half_difference(pair_sums(v)),
{
    let n = v.len() as int;
    let half = n / 2;
    let p = pair_sums(v);
    lemma_sum_pairs(v.subrange(0, half));
    lemma_sum_pairs(v.subrange(half, n));
    assert(pair_sums(v.subrange(0, half)) =~= p.subrange(0, half / 2));
    assert(pair_sums(v.subrange(half, n)) =~= p.subrange(half / 2, half)) by {
        assert forall|i: int| 0 <= i < half / 2 implies pair_sums(v.subrange(half, n))[i]
            == p.subrange(half / 2, half)[i] by {
            assert(2 * (half / 2 + i) == half + 2 * i);
        }
    }
}

/// Folding with zero adds neighbours up.
proof fn lemma_fold_zero_pair<F: Field>(a: F, b: F, c: F)
    ensures
        a.plus(b).plus(F::zero_el().times(c)) == a.plus(b),
        a.plus(b.times(F::zero_el())) == a.canon(),
{
    lemma_mul_zero(c);
    lemma_mul_zero(b);
    F::law_add_zero(a.plus(b));
    F::law_add_zero(a);
    F::law_canon_results(a, b);
}

proof fn lemma_fold_layer_zero(values: Seq<QM31>, ts: Seq<M31>)
    requires
        values.len() == 2 * ts.len(),
    ensures
        fold_layer(values, ts, QM31::zero_el()) == pair_sums(values),
{
    assert forall|i: int| 0 <= i < ts.len() implies fold_layer(values, ts, QM31::zero_el())[i]
        == pair_sums(values)[i] by {
        let (a, b) = (values[2 * i], values[2 * i + 1]);
        lemma_fold_zero_pair(a, b, a.minus(b).scaled(inv_of(ts[i])));
    }
    assert(fold_layer(values, ts, QM31::zero_el()) =~= pair_sums(values));
}

/// `(e + o x) s - (e - o x) s = (o x) (s + s)`.
proof fn lemma_pair_difference<F: Field>(e: F, o: F, x: F, s: F, f0: F, f1: F)
    requires
        f0.canon() == e.plus(o.times(x)).times(s),
        f1.canon() == e.plus(o.times(x.opposite())).times(s),
    ensures
        f0.canon().minus(f1.canon()) == o.times(x).times(s.plus(s)),
{
    let a = e.times(s);
    let b = o.times(x).times(s);
    let nb = b.opposite();
    lemma_distrib_right(e, o.times(x), s);
    lemma_mul_opposite(o, x);
    lemma_distrib_right(e, o.times(x).opposite(), s);
    lemma_mul_opposite(o.times(x), s);
    F::law_sub(a.plus(b), a.plus(nb));
    lemma_opposite_sum(a, nb);
    lemma_opposite_twice(b);
    F::law_canon_results(o.times(x), s);
    lemma_add_swap_middle(a, b, a.opposite(), b);
    F::law_add_opposite(a);
    F::law_add_comm(F::zero_el(), b.plus(b));
    F::law_add_zero(b.plus(b));
    F::law_canon_results(b, b);
    F::law_distrib(o.times(x), s, s);
}

/// The sum of one element.
pub proof fn lemma_sum_one<F: Field>(v: Seq<F>)
    requires
        v.len() == 1,
    ensures
        sum_s(v) == v[0].canon(),
{
    assert(v.drop_last().len() == 0);
    assert(sum_s(v.drop_last()) == F::zero_el());
    F::law_add_comm(F::zero_el(), v[0]);
    F::law_add_zero(v[0]);
}

/// The coordinate in the middle layer of a line domain.
spec fn last_x(coset: crate::circle::Coset) -> M31 {
    doubled_coset(coset, (coset.log_size - 1) as nat).at_s(0).x
}

/// The difference of the two values on a domain of two points.
proof fn lemma_difference_of_two<F: Field>(values: Seq<F>, d: Seq<F>, x: F, s: F)
    requires
        values.len() == 2,
        d.len() == 2,
        values[0].canon() == line_at(d, 1, x).times(s),
        values[1].canon() == line_at(d, 1, x.opposite()).times(s),
    ensures
        half_difference(values) == d[1].times(x).times(s.plus(s)),
{
    lemma_sum_one(values.subrange(0, 1));
    lemma_sum_one(values.subrange(1, 2));
    lemma_line_of_two(d, x);
    lemma_line_of_two(d, x.opposite());
    lemma_pair_difference(d[0], d[1], x, s, values[0], values[1]);
}

proof fn lemma_line_difference_base(line: LineDomain, values: Seq<QM31>, d: Seq<QM31>, k: nat)
    requires
        line.wf(),
        line.coset.log_size == 1,
        line_values(line, values, d, embed(two_pow(k))),
    ensures
        half_difference(values) == d[1].times(embed(last_x(line.coset))).times(
            embed(two_pow(k + 1)),
        ),
{
    reveal(line_values);
    lemma2_to64();
    lemma_embed(two_pow(k), two_pow(k));
    crate::line::lemma_line_pair(line, 0);
    let t = line.reversed_at(0);
    lemma_bit_rev_range(0, 0);
    assert(doubled_coset(line.coset, 0) == line.coset);
    assert(t == last_x(line.coset));
    lemma_embed(t, t);
    assert(values[0].canon() == line_at(d, 1, embed(t)).times(embed(two_pow(k))));
    assert(values[1].canon() == line_at(d, 1, embed(t.opposite())).times(embed(two_pow(k))));
    lemma_difference_of_two(values, d, embed(t), embed(two_pow(k)));
}

/// One step down: neighbours added up are the values of the even coefficients, doubled.
proof fn lemma_line_step(line: LineDomain, values: Seq<QM31>, d: Seq<QM31>, k: nat)
    requires
        line.wf(),
        line.coset.log_size >= 2,
        foldable(line.coset, line.coset.log_size as nat),
        line_values(line, values, d, embed(two_pow(k))),
    ensures
        line.double_s().wf(),
        line.double_s().coset.log_size == line.coset.log_size - 1,
        foldable(line.double_s().coset, (line.coset.log_size - 1) as nat),
        line_values(
            line.double_s(),
            pair_sums(values),
            combine_pairs(d, QM31::zero_el()),
            embed(two_pow(k + 1)),
        ),
        last_x(line.double_s().coset) == last_x(line.coset),
{
    let n = line.coset.log_size as nat;
    let n1 = (n - 1) as nat;
    lemma_line_values_len(line, values, d, embed(two_pow(k)));
    lemma_pow2_double(n);
    lemma_embed(two_pow(k), two_pow(k));
    assert(doubled_coset(line.coset, 0) == line.coset);
    lemma_fold_line(line, values, d, embed(two_pow(k)), QM31::zero_el());
    lemma_fold_layer_zero(values, pair_xs(line.coset));
    let line1 = line.double_s();
    assert(line1.wf()) by {
        lemma2_to64();
        lemma_doubled_at(line.coset, 1, 0);
    }
    assert forall|m: nat| m < n1 implies all_nonzero(
        pair_xs(#[trigger] doubled_coset(line1.coset, m)),
    ) by {
        lemma_doubled_coset_first(line.coset, m);
        assert(all_nonzero(pair_xs(doubled_coset(line.coset, m + 1))));
    }
    lemma_doubled_coset_first(line.coset, (n1 - 1) as nat);
}

/// The middle coefficient survives a step down.
proof fn lemma_middle_kept<F: Field>(d: Seq<F>, n: nat, x: F)
    requires
        n >= 2,
        d.len() == pow2(n),
    ensures
        combine_pairs(d, F::zero_el())[pow2((n - 2) as nat) as int].times(x) == d[pow2(
            (n - 1) as nat,
        ) as int].times(x),
{
    lemma_pow2_double(n);
    lemma_pow2_double((n - 1) as nat);
    let h = pow2((n - 2) as nat) as int;
    lemma_fold_zero_pair(d[2 * h], d[2 * h + 1], F::zero_el());
    F::law_canon_args(d[2 * h], x);
}

proof fn lemma_line_difference(line: LineDomain, values: Seq<QM31>, d: Seq<QM31>, k: nat)
    requires
        line.wf(),
        line.coset.log_size >= 1,
        foldable(line.coset, line.coset.log_size as nat),
        line_values(line, values, d, embed(two_pow(k))),
    ensures
        half_difference(values) == d[pow2((line.coset.log_size - 1) as nat) as int].times(
            embed(last_x(line.coset)),
        ).times(embed(two_pow(k + line.coset.log_size as nat))),
    decreases line.coset.log_size,
{
    let n = line.coset.log_size as nat;
    let n1 = (n - 1) as nat;
    lemma_line_values_len(line, values, d, embed(two_pow(k)));
    if n == 1 {
        lemma2_to64();
        lemma_line_difference_base(line, values, d, k);
    } else {
        lemma_line_step(line, values, d, k);
        lemma_pow2_double(n);
        lemma_pow2_double(n1);
        lemma_half_difference_pairs(values);
        lemma_line_difference(
            line.double_s(),
            pair_sums(values),
            combine_pairs(d, QM31::zero_el()),
            k + 1,
        );
        lemma_middle_kept(d, n, embed(last_x(line.coset)));
        assert(k + 1 + n1 == k + n);
    }
}

proof fn lemma_line_of_two<F: Field>(d: Seq<F>, x: F)
    requires
        d.len() == 2,
    ensures
        line_at(d, 1, x) == d[0].plus(d[1].times(x)),
{
    let f = line_mappings(1, x);
    assert(f[0] == x) by {
        assert(crate::circle::double_x_iter(x, 0) == x);
    }
    assert(f.drop_first().len() == 0);
    assert(fold_s(d.subrange(0, 1), f.drop_first()) == d.subrange(0, 1)[0]);
    assert(fold_s(d.subrange(1, 2), f.drop_first()) == d.subrange(1, 2)[0]);
}

/// The size of the factor of the highest digit, the same all over a domain.
pub open spec fn top_factor(domain: CircleDomain) -> M31 {
    let p = domain.reversed_at(0);
    mapping_at(p.x, p.y, domain.log_size_s() - 1)
}

proof fn lemma_circle_difference(domain: CircleDomain, values: Seq<QM31>, c: Seq<QM31>)
    requires
        domain.wf(),
        domain.log_size_s() <= 30,
        domain == canonic_domain(domain.log_size_s()),
        circle_values(domain, values, c, QM31::one_el()),
    ensures
        half_difference(values) == c[pow2((domain.log_size_s() - 1) as nat) as int].times(
            embed(top_factor(domain)),
        ).times(embed(two_pow(domain.log_size_s()))),
{
    let n = domain.log_size_s();
    let h = domain.half_coset;
    let l = h.log_size as nat;
    let one = QM31::one_el();
    lemma_circle_values_len(domain, values, c, one);
    lemma_canonic_foldable(n);
    lemma_pow2_double(n);
    lemma_embed(two_pow(0), two_pow(0));
    assert(two_pow(1) == two_pow(0).plus(two_pow(0)));
    lemma_reversed_pair(domain, 0);
    if l == 0 {
        reveal(circle_values);
        lemma2_to64();
        let p = domain.reversed_at(0);
        let (x, y) = (embed(p.x), embed(p.y));
        lemma_embed(p.y, p.y);
        assert(mappings(1, x, y) =~= line_mappings(1, y));
        assert(mappings(1, x, y.opposite()) =~= line_mappings(1, y.opposite()));
        assert(values[0].canon() == poly_at(c, 1, x, y).times(one));
        assert(values[1].canon() == poly_at(c, 1, x, y.opposite()).times(one));
        lemma_difference_of_two(values, c, y, one);
    } else {
        let z = QM31::zero_el();
        lemma_pow2_double(l);
        lemma_fold_circle_into_line(domain, values, c, one, z);
        lemma_fold_layer_zero(values, pair_ys(h));
        lemma_half_difference_pairs(values);
        let line = LineDomain { coset: h };
        let d1 = combine_pairs(c, z);
        lemma_line_difference(line, pair_sums(values), d1, 1);
        let q = pow2((l - 1) as nat) as int;
        lemma_fold_zero_pair(c[2 * q], c[2 * q + 1], z);
        assert(d1[q] == c[pow2(l) as int].canon());
        QM31::law_canon_args(c[pow2(l) as int], embed(last_x(h)));
        lemma_doubled_coset_at(h, (l - 1) as nat);
        lemma_line_mapping(domain, 0, l);
        lemma_pow2_pos(l);
        lemma_pow2_pos(l + 1);
        assert(0int / (pow2(l) as int) == 0) by (nonlinear_arith)
            requires
                pow2(l) > 0,
        ;
        assert(0int / (pow2(l + 1) as int) == 0) by (nonlinear_arith)
            requires
                pow2(l + 1) > 0,
        ;
        assert(top_factor(domain) == last_x(h));
    }
}

/// The factor of the highest digit, with the sign that the half of the place tells.
proof fn lemma_top_factor(domain: CircleDomain, j: int)
    requires
        domain.wf(),
        0 <= j < domain.size_s(),
    ensures
        ({
            let p = domain.reversed_at(j);
            mapping_at(p.x, p.y, domain.log_size_s() - 1) == if j < domain.size_s() / 2 {
                top_factor(domain)
            } else {
                top_factor(domain).opposite()
            }
        }),
{
    let n = domain.log_size_s();
    let l = domain.half_coset.log_size as nat;
    lemma_pow2_double(n);
    if l == 0 {
        lemma2_to64();
        lemma_reversed_pair(domain, 0);
    } else {
        lemma_line_mapping(domain, 0, l);
        lemma_line_mapping(domain, j, l);
        lemma_pow2_pos(l);
        let big = pow2(l + 1) as int;
        let m = pow2(l) as int;
        vstd::arithmetic::div_mod::lemma_basic_div(j, big);
        vstd::arithmetic::div_mod::lemma_basic_div(0, big);
        vstd::arithmetic::div_mod::lemma_basic_div(0, m);
        if j < m {
            vstd::arithmetic::div_mod::lemma_basic_div(j, m);
        } else {
            vstd::arithmetic::div_mod::lemma_fundamental_div_mod_converse(j, m, 1, j - m);
        }
    }
}

/// Setting the first entry to zero takes it off the fold.
proof fn lemma_fold_first<F: Field>(v: Seq<F>, factors: Seq<F>)
    requires
        v.len() == pow2(factors.len()),
        v[0].canon() == v[0],
    ensures
        fold_s(v, factors) == fold_s(v.update(0, F::zero_el()), factors).plus(v[0]),
    decreases factors.len(),
{
    let w = v.update(0, F::zero_el());
    if factors.len() == 0 {
        lemma2_to64();
        F::law_add_comm(F::zero_el(), v[0]);
        F::law_add_zero(v[0]);
    } else {
        lemma_pow2_double(factors.len());
        let n = v.len() as int;
        let half = n / 2;
        let rest = factors.drop_first();
        lemma_fold_first(v.subrange(0, half), rest);
        assert(w.subrange(0, half) =~= v.subrange(0, half).update(0, F::zero_el()));
        assert(w.subrange(half, n) =~= v.subrange(half, n));
        let a = fold_s(w.subrange(0, half), rest);
        let b = fold_s(v.subrange(half, n), rest).times(factors[0]);
        F::law_add_assoc(a, v[0], b);
        F::law_add_comm(v[0], b);
        F::law_add_assoc(a, b, v[0]);
    }
}

/// Taking the coefficient of the highest digit alone off a polynomial.
proof fn lemma_without_top<F: Field>(c: Seq<F>, factors: Seq<F>)
    requires
        factors.len() > 0,
        c.len() == pow2(factors.len()),
        c[c.len() as int / 2].canon() == c[c.len() as int / 2],
    ensures
        fold_s(c, factors) == fold_s(c.update(c.len() as int / 2, F::zero_el()), factors).plus(
            c[c.len() as int / 2].times(factors[0]),
        ),
{
    lemma_pow2_double(factors.len());
    let n = c.len() as int;
    let half = n / 2;
    let rest = factors.drop_first();
    let w = c.update(half, F::zero_el());
    let up = c.subrange(half, n);
    lemma_fold_first(up, rest);
    assert(w.subrange(0, half) =~= c.subrange(0, half));
    assert(w.subrange(half, n) =~= up.update(0, F::zero_el()));
    let a = fold_s(c.subrange(0, half), rest);
    let b = fold_s(w.subrange(half, n), rest);
    let f = factors[0];
    lemma_distrib_right(b, c[half], f);
    F::law_add_assoc(a, b.times(f), c[half].times(f));
}

/// Adding and taking off the same.
proof fn lemma_take_off<F: Field>(v: F, g: F, u: F, t: F)
    requires
        g.canon() == g,
    ensures
        v.canon() == g.plus(u.times(t)) ==> v.minus(u.times(t)) == g,
        v.canon() == g.plus(u.times(t.opposite())) ==> v.plus(u.times(t)) == g,
{
    let w = u.times(t);
    lemma_mul_opposite(u, t);
    F::law_canon_args(v, w.opposite());
    F::law_canon_args(v, w);
    F::law_sub(v, w);
    F::law_add_assoc(g, w, w.opposite());
    F::law_add_assoc(g, w.opposite(), w);
    F::law_add_opposite(w);
    F::law_add_comm(w, w.opposite());
    F::law_add_zero(g);
}

/// The decomposition coefficient is the coefficient of the factor of the highest digit, times
/// the size of that factor; it is zero for a polynomial inside the FFT space of half the size.
pub proof fn lemma_coefficient(domain: CircleDomain, values: Seq<QM31>, c: Seq<QM31>)
    requires
        domain.wf(),
        domain.log_size_s() <= 30,
        domain == canonic_domain(domain.log_size_s()),
        circle_values(domain, values, c, QM31::one_el()),
    ensures
        coefficient_s(values, domain.log_size_s()) == c[domain.size_s() as int / 2].times(
            embed(top_factor(domain)),
        ),
        c[domain.size_s() as int / 2] == QM31::zero_el() ==> coefficient_s(
            values,
            domain.log_size_s(),
        ) == QM31::zero_el(),
{
    let n = domain.log_size_s();
    lemma_circle_values_len(domain, values, c, QM31::one_el());
    lemma_pow2_double(n);
    lemma_circle_difference(domain, values, c);
    lemma_two_pow_nonzero(n);
    let t = two_pow(n);
    lemma_inv_exists(t);
    lemma_embed(t, inv_of(t));
    lemma_scaled_is_times(half_difference(values), inv_of(t));
    let v = c[domain.size_s() as int / 2].times(embed(top_factor(domain)));
    lemma_unscaled(v, embed(t), embed(inv_of(t)));
    QM31::law_canon_results(c[domain.size_s() as int / 2], embed(top_factor(domain)));
    lemma_mul_zero(embed(top_factor(domain)));
}

proof fn lemma_unscaled<F: Field>(v: F, s: F, s_inv: F)
    requires
        s.times(s_inv) == F::one_el(),
    ensures
        v.times(s).times(s_inv) == v.canon(),
{
    F::law_mul_assoc(v, s, s_inv);
    F::law_mul_one(v);
}

/// The decomposed values are those of the polynomial without the coefficient of the factor of
/// the highest digit.
pub proof fn lemma_decomposed(domain: CircleDomain, values: Seq<QM31>, c: Seq<QM31>)
    requires
        domain.wf(),
        domain.log_size_s() <= 30,
        domain == canonic_domain(domain.log_size_s()),
        circle_values(domain, values, c, QM31::one_el()),
        c[domain.size_s() as int / 2].canon() == c[domain.size_s() as int / 2],
    ensures
        circle_values(
            domain,
            decomposed(values, coefficient_s(values, domain.log_size_s())),
            c.update(domain.size_s() as int / 2, QM31::zero_el()),
            QM31::one_el(),
        ),
{
    let n = domain.log_size_s();
    let half = domain.size_s() as int / 2;
    let lambda = coefficient_s(values, n);
    let g = decomposed(values, lambda);
    let cz = c.update(half, QM31::zero_el());
    lemma_coefficient(domain, values, c);
    lemma_circle_values_len(domain, values, c, QM31::one_el());
    assert forall|j: int| 0 <= j < g.len() implies (#[trigger] g[j]).canon() == poly_at(
        cz,
        n,
        embed(domain.reversed_at(j).x),
        embed(domain.reversed_at(j).y),
    ).times(QM31::one_el()) by {
        lemma_decomposed_value(domain, values, c, lambda, j);
    }
    lemma_pow2_double(n);
    reveal(circle_values);
}

proof fn lemma_decomposed_value(
    domain: CircleDomain,
    values: Seq<QM31>,
    c: Seq<QM31>,
    lambda: QM31,
    j: int,
)
    requires
        domain.wf(),
        circle_values(domain, values, c, QM31::one_el()),
        c[domain.size_s() as int / 2].canon() == c[domain.size_s() as int / 2],
        lambda == c[domain.size_s() as int / 2].times(embed(top_factor(domain))),
        0 <= j < values.len(),
    ensures
        decomposed(values, lambda)[j].canon() == poly_at(
            c.update(domain.size_s() as int / 2, QM31::zero_el()),
            domain.log_size_s(),
            embed(domain.reversed_at(j).x),
            embed(domain.reversed_at(j).y),
        ).times(QM31::one_el()),
{
    let n = domain.log_size_s();
    let half = domain.size_s() as int / 2;
    lemma_circle_values_len(domain, values, c, QM31::one_el());
    let p = domain.reversed_at(j);
    let (x, y) = (embed(p.x), embed(p.y));
    let f = mappings(n, x, y);
    assert(values[j].canon() == fold_s(c, f).times(QM31::one_el())) by {
        reveal(circle_values);
    }
    lemma_mappings_rest(n, x, y);
    lemma_top_factor(domain, j);
    lemma_embed_mapping(p.x, p.y, n - 1);
    lemma_embed(top_factor(domain), top_factor(domain));
    lemma_decomposed_at(c, f, values[j], embed(top_factor(domain)), lambda, j < half);
}

proof fn lemma_decomposed_at<F: Field>(
    c: Seq<F>,
    factors: Seq<F>,
    v: F,
    top: F,
    lambda: F,
    first: bool,
)
    requires
        factors.len() > 0,
        c.len() == pow2(factors.len()),
        c[c.len() as int / 2].canon() == c[c.len() as int / 2],
        v.canon() == fold_s(c, factors).times(F::one_el()),
        factors[0] == if first {
            top
        } else {
            top.opposite()
        },
        lambda == c[c.len() as int / 2].times(top),
    ensures
        first ==> v.minus(lambda).canon() == fold_s(
            c.update(c.len() as int / 2, F::zero_el()),
            factors,
        ).times(F::one_el()),
        !first ==> v.plus(lambda).canon() == fold_s(
            c.update(c.len() as int / 2, F::zero_el()),
            factors,
        ).times(F::one_el()),
{
    let half = c.len() as int / 2;
    let cz = c.update(half, F::zero_el());
    let rest = fold_s(cz, factors);
    lemma_without_top(c, factors);
    F::law_mul_one(fold_s(c, factors));
    F::law_mul_one(rest);
    crate::fri::lemma_fold_canonical(c, factors);
    crate::fri::lemma_fold_canonical(cz, factors);
    lemma_take_off(v, rest, c[half], top);
    F::law_canon_results(v, lambda);
}

proof fn lemma_embed_mapping(x: M31, y: M31, i: int)
    ensures
        mapping_at(embed(x), embed(y), i) == embed(mapping_at(x, y, i)),
{
    if i > 0 {
        crate::fri::lemma_embed_double_x(x, (i - 1) as nat);
    }
}

} // verus!
