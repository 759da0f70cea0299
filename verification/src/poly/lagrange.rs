//! The barycentric weights are the coefficients with which folding combines the values of a
//! column, so that barycentric evaluation gives the value of the interpolant.

use vstd::arithmetic::power2::{lemma2_to64, pow2};
use vstd::prelude::*;

use super::barycentric::{
    canonic_vanishing, minus_two, weight_denominator, weight_s, weight_scale, weights_exist,
    weights_s,
};
use super::circle_poly::CircleEvaluation;
use super::domain::{
    canonic_domain, lemma_canonic_domain_wf, lemma_doubled_at, lemma_reversed_pair, CircleDomain,
};
use super::eval::{dot_s, lemma_scaled_is_times, scaled_terms};
use super::extension::interpolates;
use super::fold::{lemma_sum_scaled, mappings, poly_at_secure, sum_s};
use super::ifft::two_pow;
use crate::circle::{double_x_iter, double_x_s, norm_of, CirclePoint, Coset};
use crate::constraints::{double_derivative, embed_point, four_times, no_pole, point_vanishing_s};
use crate::decompose::{lemma_sum_pairs, pair_sums};
use crate::fields::m31::M31;
use crate::fields::qm31::{embed, QM31};
use crate::fields::{
    inv_of, lemma_add_swap_middle, lemma_distrib_right, lemma_distrib_sub, lemma_distrib_sub_right,
    lemma_integral, lemma_inv_exists, lemma_inv_of, lemma_mul_opposite, lemma_mul_zero,
    lemma_opposite_sum, lemma_opposite_twice, Field,
};
use crate::fri::{
    all_nonzero, doubled_coset, embedded, fold_layer, fold_layers, fold_pair, foldable,
    folded_value, folding_alphas, lemma_canonic_foldable, lemma_doubled_coset_first, lemma_embed,
    lemma_embed_double_x, lemma_fold_canonical, lemma_folded_value, lemma_two_pow_nonzero,
    line_alphas, pair_xs, pair_ys,
};
use crate::line::{lemma_double_x_first, lemma_line_pair, LineDomain};
use crate::utils::{bit_rev, lemma_bit_rev_range, lemma_pow2_double};

verus! {

/// `2^m`.
pub open spec fn twos<F: Field>(m: nat) -> F
    decreases m,
{
    if m == 0 {
        F::one_el()
    } else {
        twos::<F>((m - 1) as nat).plus(twos::<F>((m - 1) as nat))
    }
}

/// The product over the `m` lowest doubles of the factors `1 + x / a`.
pub open spec fn ratio_product<F: Field>(x: F, a: F, m: nat) -> F
    decreases m,
{
    if m == 0 {
        F::one_el()
    } else {
        F::one_el().plus(x.times(inv_of(a))).times(
            ratio_product(double_x_s(x), double_x_s(a), (m - 1) as nat),
        )
    }
}

/// None of the `m` lowest doubles of `a` is zero.
pub open spec fn doubles_nonzero<F: Field>(a: F, m: nat) -> bool {
    forall|k: nat| k < m ==> (#[trigger] double_x_iter(a, k)).canon() != F::zero_el()
}

proof fn lemma_doubles_nonzero_rest<F: Field>(a: F, m: nat)
    requires
        m > 0,
        doubles_nonzero(a, m),
    ensures
        a.canon() != F::zero_el(),
        doubles_nonzero(double_x_s(a), (m - 1) as nat),
{
    assert(double_x_iter(a, 0) == a);
    assert forall|k: nat| k < m - 1 implies (#[trigger] double_x_iter(double_x_s(a), k)).canon()
        != F::zero_el() by {
        lemma_double_x_first(a, k);
        assert(double_x_iter(a, k + 1).canon() != F::zero_el());
    }
}

/// `(c + u) - (c + v) = u - v`.
proof fn lemma_sub_common<F: Field>(c: F, u: F, v: F)
    ensures
        c.plus(u).minus(c.plus(v)) == u.minus(v),
{
    F::law_sub(c.plus(u), c.plus(v));
    lemma_opposite_sum(c, v);
    lemma_add_swap_middle(c, u, c.opposite(), v.opposite());
    F::law_add_opposite(c);
    F::law_add_comm(F::zero_el(), u.plus(v.opposite()));
    F::law_add_zero(u.plus(v.opposite()));
    F::law_canon_results(u, v.opposite());
    F::law_sub(u, v);
}

/// `(u + u') - (v + v') = (u - v) + (u' - v')`.
proof fn lemma_sub_sum<F: Field>(u: F, u2: F, v: F, v2: F)
    ensures
        u.plus(u2).minus(v.plus(v2)) == u.minus(v).plus(u2.minus(v2)),
{
    F::law_sub(u.plus(u2), v.plus(v2));
    lemma_opposite_sum(v, v2);
    lemma_add_swap_middle(u, u2, v.opposite(), v2.opposite());
    F::law_sub(u, v);
    F::law_sub(u2, v2);
}

/// `(x + a) (x - a) = x^2 - a^2`.
proof fn lemma_square_difference<F: Field>(x: F, a: F)
    ensures
        x.plus(a).times(x.minus(a)) == x.times(x).minus(a.times(a)),
{
    // x (x - a) + a (x - a) = (xx - xa) + (ax - aa)
    lemma_distrib_right(x, a, x.minus(a));
    lemma_distrib_sub(x, x, a);
    lemma_distrib_sub(a, x, a);
    F::law_mul_comm(a, x);
    let (xx, xa, aa) = (x.times(x), x.times(a), a.times(a));
    F::law_sub(xx, xa);
    F::law_add_comm(xx, xa.opposite());
    F::law_sub(xa, aa);
    lemma_add_swap_middle(xa.opposite(), xx, xa, aa.opposite());
    F::law_add_opposite(xa);
    F::law_add_comm(xa, xa.opposite());
    F::law_add_comm(F::zero_el(), xx.plus(aa.opposite()));
    F::law_add_zero(xx.plus(aa.opposite()));
    F::law_canon_results(xx, aa.opposite());
    F::law_sub(xx, aa);
}

/// The difference of the doubles is twice `(x + a) (x - a)`.
pub proof fn lemma_double_difference<F: Field>(x: F, a: F)
    ensures
        double_x_s(x).minus(double_x_s(a)) == x.plus(a).times(x.minus(a)).plus(
            x.plus(a).times(x.minus(a)),
        ),
{
    let (xx, aa) = (x.times(x), a.times(a));
    let n1 = F::one_el().opposite();
    F::law_sub(xx.plus(xx), F::one_el());
    F::law_sub(aa.plus(aa), F::one_el());
    F::law_add_comm(xx.plus(xx), n1);
    F::law_add_comm(aa.plus(aa), n1);
    lemma_sub_common(n1, xx.plus(xx), aa.plus(aa));
    lemma_sub_sum(xx, xx, aa, aa);
    lemma_square_difference(x, a);
}

/// `(1 + x / a) a = x + a`.
proof fn lemma_ratio_times<F: Field>(x: F, a: F)
    requires
        a.canon() != F::zero_el(),
    ensures
        F::one_el().plus(x.times(inv_of(a))).times(a) == x.plus(a),
        a.times(F::one_el().plus(x.times(inv_of(a)))) == x.plus(a),
{
    let i = inv_of(a);
    lemma_inv_exists(a);
    lemma_distrib_right(F::one_el(), x.times(i), a);
    F::law_mul_comm(F::one_el(), a);
    F::law_mul_one(a);
    F::law_mul_assoc(x, i, a);
    F::law_mul_comm(i, a);
    F::law_mul_one(x);
    crate::fields::lemma_canon_both(a, x);
    F::law_add_comm(a, x);
    F::law_mul_comm(a, F::one_el().plus(x.times(i)));
}

/// `(p a) (b q) = (p b) (a q)`, and other orders of four factors.
pub proof fn lemma_mul_swap_middle<F: Field>(a: F, b: F, c: F, d: F)
    ensures
        a.times(b).times(c.times(d)) == a.times(c).times(b.times(d)),
{
    F::law_mul_assoc(a, b, c.times(d));
    F::law_mul_assoc(b, c, d);
    F::law_mul_comm(b, c);
    F::law_mul_assoc(c, b, d);
    F::law_mul_assoc(a, c, b.times(d));
}

/// The product of the ratios and of the derivative telescopes.
proof fn lemma_ratio_product<F: Field>(x: F, a: F, m: nat)
    requires
        doubles_nonzero(a, m),
    ensures
        ratio_product(x, a, m).times(double_derivative(a, m)).times(x.minus(a)) == twos::<F>(
            m,
        ).times(double_x_iter(x, m).minus(double_x_iter(a, m))),
    decreases m,
{
    let one = F::one_el();
    if m == 0 {
        F::law_mul_one(one);
        F::law_canon_results(one, one);
        assert(double_x_iter(x, 0) == x && double_x_iter(a, 0) == a);
    } else {
        let m1 = (m - 1) as nat;
        let (x2, a2) = (double_x_s(x), double_x_s(a));
        lemma_doubles_nonzero_rest(a, m);
        lemma_ratio_product(x2, a2, m1);
        let r = one.plus(x.times(inv_of(a)));
        let r1 = ratio_product(x2, a2, m1);
        let d1 = double_derivative(a2, m1);
        let f = four_times(a);
        // r f = 4 (x + a)
        lemma_ratio_times(x, a);
        let s = x.plus(a);
        F::law_distrib(r, a, a);
        F::law_distrib(r, a.plus(a), a.plus(a));
        assert(r.times(f) == s.plus(s).plus(s.plus(s)));
        // 4 (x + a) (x - a) = 2 (difference of the doubles)
        let e = x.minus(a);
        let de = x2.minus(a2);
        lemma_double_difference(x, a);
        lemma_distrib_right(s, s, e);
        lemma_distrib_right(s.plus(s), s.plus(s), e);
        assert(r.times(f).times(e) == de.plus(de));
        // (r r1) (f d1) e = (r1 d1) (de + de)
        lemma_mul_swap_middle(r, r1, f, d1);
        let rf = r.times(f);
        let rd = r1.times(d1);
        F::law_mul_comm(rf, rd);
        F::law_mul_assoc(rd, rf, e);
        F::law_distrib(rd, de, de);
        lemma_double_x_first(x, m1);
        lemma_double_x_first(a, m1);
        let t = double_x_iter(x, m).minus(double_x_iter(a, m));
        lemma_distrib_right(twos::<F>(m1), twos::<F>(m1), t);
    }
}

/// On the circle, `(b + y) h.y = -(1 + h.x) (x - a)` for the difference `h` of `(x, y)` and
/// `(a, b)`.
proof fn lemma_chord<F: Field>(p: CirclePoint<F>, q: CirclePoint<F>)
    requires
        norm_of(p) == F::one_el(),
        norm_of(q) == F::one_el(),
    ensures
        ({
            let h = p.join(q.reflected());
            q.y.plus(p.y).times(h.y) == F::one_el().plus(h.x).times(p.x.minus(q.x)).opposite()
        }),
{
    let (x, y, a, b) = (p.x, p.y, q.x, q.y);
    let one = F::one_el();
    let h = p.join(q.reflected());
    let (xa, yb, xb, ya) = (x.times(a), y.times(b), x.times(b), y.times(a));
    lemma_mul_opposite(y, b);
    lemma_mul_opposite(x, b);
    F::law_sub(xa, yb.opposite());
    lemma_opposite_twice(yb);
    F::law_canon_results(y, b);
    assert(h.x == xa.plus(yb));
    assert(h.y == xb.opposite().plus(ya));
    let xbb = xb.times(b);
    let xby = xb.times(y);
    let yab = ya.times(b);
    let yay = ya.times(y);
    // the left side is (yab + yay) - (xbb + xby)
    lemma_distrib_right(b, y, h.y);
    F::law_distrib(b, xb.opposite(), ya);
    F::law_distrib(y, xb.opposite(), ya);
    lemma_mul_opposite(b, xb);
    lemma_mul_opposite(y, xb);
    F::law_mul_comm(b, xb);
    F::law_mul_comm(y, xb);
    F::law_mul_comm(b, ya);
    F::law_mul_comm(y, ya);
    assert(b.plus(y).times(h.y) == xbb.opposite().plus(yab).plus(xby.opposite().plus(yay)));
    lemma_add_swap_middle(xbb.opposite(), yab, xby.opposite(), yay);
    lemma_opposite_sum(xbb, xby);
    let m = xbb.plus(xby);
    let n = yab.plus(yay);
    assert(b.plus(y).times(h.y) == m.opposite().plus(n));
    // the right side is -((c + m) - (c + n))
    let xaa = xa.times(a);
    let xax = xa.times(x);
    // x = xaa + xbb
    F::law_mul_one(x);
    F::law_distrib(x, a.times(a), b.times(b));
    F::law_mul_assoc(x, a, a);
    F::law_mul_assoc(x, b, b);
    assert(x.canon() == xaa.plus(xbb));
    // a = xax + yay
    F::law_mul_one(a);
    F::law_distrib(a, x.times(x), y.times(y));
    F::law_mul_assoc(a, x, x);
    F::law_mul_comm(a, x);
    F::law_mul_assoc(a, y, y);
    F::law_mul_comm(a, y);
    assert(a.canon() == xax.plus(yay));
    let k = one.plus(h.x);
    // k x = x + (xax + xby)
    lemma_distrib_right(one, h.x, x);
    F::law_mul_comm(one, x);
    lemma_distrib_right(xa, yb, x);
    F::law_mul_assoc(y, b, x);
    F::law_mul_comm(b, x);
    F::law_mul_comm(y, xb);
    assert(yb.times(x) == xby);
    assert(k.times(x) == x.canon().plus(xax.plus(xby)));
    lemma_add_swap_middle(xaa, xbb, xax, xby);
    let c = xaa.plus(xax);
    assert(k.times(x) == c.plus(m));
    // k a = a + (xaa + yab)
    lemma_distrib_right(one, h.x, a);
    F::law_mul_comm(one, a);
    lemma_distrib_right(xa, yb, a);
    F::law_mul_assoc(y, b, a);
    F::law_mul_comm(b, a);
    F::law_mul_assoc(y, a, b);
    assert(yb.times(a) == yab);
    assert(k.times(a) == a.canon().plus(xaa.plus(yab)));
    lemma_add_swap_middle(xax, yay, xaa, yab);
    F::law_add_comm(xax, xaa);
    F::law_add_comm(yay, yab);
    assert(k.times(a) == c.plus(n));
    lemma_distrib_sub(k, x, a);
    lemma_sub_common(c, m, n);
    assert(k.times(x.minus(a)) == m.minus(n));
    F::law_sub(m, n);
    lemma_opposite_sum(m, n.opposite());
    lemma_opposite_twice(n);
    F::law_canon_results(yab, yay);
}

/// The product of the ratios at a domain point times the denominator of its weight is the size
/// of the domain times the value of the vanishing polynomial.
proof fn lemma_weight_identity<F: Field>(
    p: CirclePoint<F>,
    q: CirclePoint<F>,
    m: nat,
    minus_2: F,
)
    requires
        norm_of(p) == F::one_el(),
        norm_of(q) == F::one_el(),
        q.y.canon() != F::zero_el(),
        doubles_nonzero(q.x, m),
        double_x_iter(q.x, m).canon() == F::zero_el(),
        no_pole(q, p),
        minus_2 == F::one_el().plus(F::one_el()).opposite(),
    ensures
        F::one_el().plus(p.y.times(inv_of(q.y))).times(ratio_product(p.x, q.x, m)).times(
            q.y.times(minus_2).times(double_derivative(q.x, m)).times(point_vanishing_s(q, p)),
        ) == twos::<F>(m + 1).times(double_x_iter(p.x, m)),
{
    let one = F::one_el();
    let h = p.join(q.reflected());
    let k = one.plus(h.x);
    let g = one.plus(p.y.times(inv_of(q.y)));
    let r = ratio_product(p.x, q.x, m);
    let d = double_derivative(q.x, m);
    let v = point_vanishing_s(q, p);
    let e = p.x.minus(q.x);
    let b = q.y;
    lemma_ratio_times(p.y, b);
    let s = p.y.plus(b);
    // s v = -(x - a)
    lemma_chord(p, q);
    F::law_add_comm(p.y, b);
    F::law_canon_results(one, h.x);
    lemma_inv_exists(k);
    let ki = inv_of(k);
    F::law_mul_assoc(s, h.y, ki);
    assert(s.times(v) == k.times(e).opposite().times(ki));
    lemma_mul_opposite(k.times(e), ki);
    F::law_mul_comm(k, e);
    F::law_mul_assoc(e, k, ki);
    F::law_mul_one(e);
    F::law_canon_results(p.x, q.x);
    assert(s.times(v) == e.opposite());
    // (g r) (((b m2) d) v) = ((g b) v) (m2 (r d))
    let bm = b.times(minus_2);
    F::law_mul_assoc(bm, d, v);
    lemma_mul_swap_middle(g, r, bm, d.times(v));
    F::law_mul_assoc(r, d, v);
    let rd = r.times(d);
    F::law_mul_assoc(g, b, minus_2);
    let whole = g.times(r).times(bm.times(d).times(v));
    assert(whole == g.times(bm).times(rd.times(v)));
    assert(g.times(bm) == s.times(minus_2));
    F::law_mul_comm(rd, v);
    lemma_mul_swap_middle(s, minus_2, v, rd);
    assert(whole == e.opposite().times(minus_2.times(rd)));
    // (-e) ((-2) (r d)) = 2 (r d) e
    let two = one.plus(one);
    lemma_mul_opposite(two, rd);
    lemma_mul_opposite(e, two.times(rd));
    lemma_mul_opposite(e, two.times(rd).opposite());
    lemma_opposite_twice(e.times(two.times(rd)));
    F::law_canon_results(e, two.times(rd));
    assert(whole == e.times(two.times(rd)));
    lemma_distrib_right(one, one, rd);
    F::law_mul_comm(one, rd);
    F::law_mul_one(rd);
    F::law_canon_results(r, d);
    F::law_distrib(e, rd, rd);
    F::law_mul_comm(e, rd);
    assert(whole == rd.times(e).plus(rd.times(e)));
    lemma_ratio_product(p.x, q.x, m);
    let z = double_x_iter(q.x, m);
    let w = double_x_iter(p.x, m);
    // w - 0 = w
    F::law_sub(w, z);
    F::law_canon_args(z, z);
    F::law_add_comm(w, z.opposite());
    lemma_zero_opposite::<F>();
    F::law_add_comm(F::zero_el(), w);
    F::law_add_zero(w);
    assert(w.minus(z) == w.canon());
    let t = twos::<F>(m);
    F::law_mul_comm(t, w.canon());
    F::law_canon_args(w, t);
    F::law_mul_comm(w, t);
    assert(whole == t.times(w).plus(t.times(w)));
    lemma_distrib_right(t, t, w);
}

proof fn lemma_zero_opposite<F: Field>()
    ensures
        F::zero_el().opposite() == F::zero_el(),
{
    let z = F::zero_el();
    F::law_add_opposite(z);
    F::law_add_comm(z, z.opposite());
    F::law_add_zero(z.opposite());
    F::law_canon_results(z, z);
}

// ---------------------------------------------------------------------------------------------
// Folding as a weighted sum.

/// The weight with which folding on a line domain takes the value at place `j`.
pub open spec fn fold_weight(coset: Coset, alphas: Seq<QM31>, j: int) -> QM31
    decreases alphas.len(),
{
    if alphas.len() == 0 {
        QM31::one_el()
    } else {
        let t = LineDomain { coset }.reversed_at(j);
        QM31::one_el().plus(alphas[0].times(embed(inv_of(t)))).times(
            fold_weight(coset.double_s(), alphas.drop_first(), j / 2),
        )
    }
}

/// The weighted values.
pub open spec fn weighted(coset: Coset, v: Seq<QM31>, alphas: Seq<QM31>) -> Seq<QM31> {
    Seq::new(v.len(), |j: int| v[j].times(fold_weight(coset, alphas, j)))
}

/// One fold step distributes the weight of the result over the two values.
proof fn lemma_pair_weights<F: Field>(f0: F, f1: F, i: F, alpha: F, l: F)
    ensures
        f0.plus(f1).plus(alpha.times(f0.minus(f1).times(i))).times(l) == f0.times(
            F::one_el().plus(alpha.times(i)).times(l),
        ).plus(f1.times(F::one_el().plus(alpha.times(i.opposite())).times(l))),
{
    let one = F::one_el();
    let k = alpha.times(i);
    let nk = k.opposite();
    // alpha (f0 - f1) i = f0 k + f1 (-k)
    let e = f0.minus(f1);
    F::law_mul_comm(e, i);
    F::law_mul_assoc(alpha, i, e);
    F::law_mul_comm(k, e);
    lemma_distrib_sub_right(f0, f1, k);
    F::law_sub(f0.times(k), f1.times(k));
    lemma_mul_opposite(f1, k);
    lemma_mul_opposite(alpha, i);
    let w = f0.times(k).plus(f1.times(nk));
    assert(alpha.times(e.times(i)) == w);
    // f0 + f0 k = f0 (1 + k)
    lemma_add_swap_middle(f0, f1, f0.times(k), f1.times(nk));
    F::law_mul_one(f0);
    F::law_mul_one(f1);
    F::law_canon_args(f0, f0.times(k));
    F::law_canon_args(f1, f1.times(nk));
    F::law_distrib(f0, one, k);
    F::law_distrib(f1, one, nk);
    let (u0, u1) = (one.plus(k), one.plus(nk));
    assert(f0.plus(f1).plus(w) == f0.times(u0).plus(f1.times(u1)));
    lemma_distrib_right(f0.times(u0), f1.times(u1), l);
    F::law_mul_assoc(f0, u0, l);
    F::law_mul_assoc(f1, u1, l);
}

/// The inverse of the opposite.
proof fn lemma_inv_opposite<F: Field>(t: F)
    requires
        t.canon() != F::zero_el(),
    ensures
        inv_of(t.opposite()) == inv_of(t).opposite(),
{
    let i = inv_of(t);
    lemma_inv_exists(t);
    lemma_mul_opposite(t.opposite(), i);
    lemma_mul_opposite(t, i);
    lemma_opposite_twice(t.times(i));
    F::law_canon_results(t, i);
    F::law_canon_results(i, i);
    lemma_inv_of(t.opposite(), i.opposite());
}

/// A pair of embedded values, folded and weighted.
proof fn lemma_pair_weights_at(f0: QM31, f1: QM31, t: M31, alpha: QM31, l: QM31)
    requires
        t.canon() != M31::zero_el(),
    ensures
        fold_pair(f0, f1, inv_of(t), alpha).times(l) == f0.times(
            QM31::one_el().plus(alpha.times(embed(inv_of(t)))).times(l),
        ).plus(
            f1.times(
                QM31::one_el().plus(alpha.times(embed(inv_of(t.opposite())))).times(l),
            ),
        ),
{
    lemma_scaled_is_times(f0.minus(f1), inv_of(t));
    lemma_inv_opposite(t);
    lemma_embed(inv_of(t), inv_of(t));
    lemma_pair_weights(f0, f1, embed(inv_of(t)), alpha, l);
}

/// Folding all the way down is a weighted sum.
proof fn lemma_folded_sum(coset: Coset, v: Seq<QM31>, alphas: Seq<QM31>)
    requires
        coset.wf(),
        coset.log_size == alphas.len(),
        v.len() == coset.size_s(),
        foldable(coset, alphas.len()),
    ensures
        fold_layers(coset, v, alphas)[0].canon() == sum_s(weighted(coset, v, alphas)),
    decreases alphas.len(),
{
    let n = alphas.len();
    if n == 0 {
        lemma2_to64();
        crate::decompose::lemma_sum_one(weighted(coset, v, alphas));
        QM31::law_mul_one(v[0]);
        QM31::law_canon_results(v[0], v[0]);
    } else {
        let c2 = coset.double_s();
        let rest = alphas.drop_first();
        let ts = pair_xs(coset);
        let v2 = fold_layer(v, ts, alphas[0]);
        lemma_pow2_double(n);
        assert(doubled_coset(coset, 0) == coset);
        assert(all_nonzero(pair_xs(doubled_coset(coset, 0))));
        lemma_doubled_wf(coset);
        assert forall|m: nat| m < n - 1 implies all_nonzero(
            pair_xs(#[trigger] doubled_coset(c2, m)),
        ) by {
            lemma_doubled_coset_first(coset, m);
            assert(all_nonzero(pair_xs(doubled_coset(coset, m + 1))));
        }
        lemma_folded_sum(c2, v2, rest);
        lemma_sum_pairs(weighted(coset, v, alphas));
        assert(pair_sums(weighted(coset, v, alphas)) =~= weighted(c2, v2, rest)) by {
            assert forall|i: int| 0 <= i < v2.len() implies pair_sums(
                weighted(coset, v, alphas),
            )[i] == weighted(c2, v2, rest)[i] by {
                lemma_weighted_pair(coset, v, alphas, i);
            }
        }
    }
}

proof fn lemma_doubled_wf(coset: Coset)
    requires
        coset.wf(),
        coset.log_size >= 1,
    ensures
        coset.double_s().wf(),
        coset.double_s().log_size == coset.log_size - 1,
{
    lemma_doubled_at(coset, 1, 0);
    lemma2_to64();
}

proof fn lemma_weighted_pair(coset: Coset, v: Seq<QM31>, alphas: Seq<QM31>, i: int)
    requires
        coset.wf(),
        alphas.len() >= 1,
        coset.log_size == alphas.len(),
        v.len() == coset.size_s(),
        all_nonzero(pair_xs(coset)),
        0 <= i < v.len() / 2,
    ensures
        weighted(coset, v, alphas)[2 * i].plus(weighted(coset, v, alphas)[2 * i + 1])
            == fold_layer(v, pair_xs(coset), alphas[0])[i].times(
            fold_weight(coset.double_s(), alphas.drop_first(), i),
        ),
{
    let line = LineDomain { coset };
    lemma_pow2_double(alphas.len());
    lemma_line_pair(line, i);
    let t = line.reversed_at(2 * i);
    assert(pair_xs(coset)[i] == t);
    assert((2 * i) / 2 == i && (2 * i + 1) / 2 == i);
    lemma_pair_weights_at(
        v[2 * i],
        v[2 * i + 1],
        t,
        alphas[0],
        fold_weight(coset.double_s(), alphas.drop_first(), i),
    );
}

/// The weights of folding with the doubles of `x` are the products of ratios.
proof fn lemma_fold_weight(coset: Coset, x: QM31, j: int)
    requires
        coset.wf(),
        foldable(coset, coset.log_size as nat),
        0 <= j < coset.size_s(),
    ensures
        fold_weight(coset, line_alphas(x, coset.log_size as nat), j) == ratio_product(
            x,
            embed((LineDomain { coset }).reversed_at(j)),
            coset.log_size as nat,
        ),
    decreases coset.log_size,
{
    let n = coset.log_size as nat;
    let alphas = line_alphas(x, n);
    if n > 0 {
        let n1 = (n - 1) as nat;
        let line = LineDomain { coset };
        let i = j / 2;
        lemma_pow2_double(n);
        lemma_doubled_wf(coset);
        let c2 = coset.double_s();
        assert(doubled_coset(coset, 0) == coset);
        assert(all_nonzero(pair_xs(doubled_coset(coset, 0))));
        assert forall|m: nat| m < n1 implies all_nonzero(
            pair_xs(#[trigger] doubled_coset(c2, m)),
        ) by {
            lemma_doubled_coset_first(coset, m);
            assert(all_nonzero(pair_xs(doubled_coset(coset, m + 1))));
        }
        lemma_fold_weight(c2, double_x_s(x), i);
        assert(alphas.drop_first() =~= line_alphas(double_x_s(x), n1)) by {
            assert forall|k: int| 0 <= k < n1 implies alphas.drop_first()[k] == line_alphas(
                double_x_s(x),
                n1,
            )[k] by {
                lemma_double_x_first(x, k as nat);
            }
        }
        assert(alphas[0] == x);
        lemma_line_pair(line, i);
        let t0 = line.reversed_at(2 * i);
        let t = line.reversed_at(j);
        assert(t == t0 || t == t0.opposite());
        assert(pair_xs(coset)[i] == t0);
        lemma_double_opposite(t0);
        assert(double_x_s(t) == (LineDomain { coset: c2 }).reversed_at(i));
        lemma_embed_double(t);
        M31::law_canon_results(t0, t0);
        assert(t.canon() != M31::zero_el()) by {
            lemma_opposite_nonzero(t0);
        }
        lemma_embed_inverse(t);
    }
}

proof fn lemma_opposite_nonzero<F: Field>(t: F)
    requires
        t.canon() != F::zero_el(),
    ensures
        t.opposite().canon() != F::zero_el(),
{
    F::law_canon_results(t, t);
    if t.opposite() == F::zero_el() {
        lemma_opposite_twice(t);
        lemma_zero_opposite::<F>();
    }
}

proof fn lemma_double_opposite<F: Field>(t: F)
    ensures
        double_x_s(t.opposite()) == double_x_s(t),
{
    lemma_mul_opposite(t.opposite(), t);
    lemma_mul_opposite(t, t);
    lemma_opposite_twice(t.times(t));
    F::law_canon_results(t, t);
}

proof fn lemma_embed_double(t: M31)
    ensures
        double_x_s(embed(t)) == embed(double_x_s(t)),
{
    lemma_embed_double_x(t, 1);
    assert(double_x_iter(t, 1) == double_x_s(double_x_iter(t, 0)));
    assert(double_x_iter(embed(t), 1) == double_x_s(double_x_iter(embed(t), 0)));
}

/// Embedding keeps inverses.
pub proof fn lemma_embed_inverse(t: M31)
    requires
        t.canon() != M31::zero_el(),
    ensures
        inv_of(embed(t)) == embed(inv_of(t)),
        embed(t).canon() != QM31::zero_el(),
{
    lemma_inv_exists(t);
    lemma_embed(t, inv_of(t));
    lemma_embed(inv_of(t), t);
    lemma_inv_of(embed(t), embed(inv_of(t)));
}

// ---------------------------------------------------------------------------------------------
// The weights of a canonical domain.

/// The weight with which folding on a circle domain takes the value at place `j`.
pub open spec fn circle_weight(domain: CircleDomain, p: CirclePoint<QM31>, j: int) -> QM31 {
    let l = domain.half_coset.log_size as nat;
    QM31::one_el().plus(p.y.times(embed(inv_of(domain.reversed_at(j).y)))).times(
        fold_weight(domain.half_coset, line_alphas(p.x, l), j / 2),
    )
}

/// The values of a column with their folding weights.
pub open spec fn circle_weighted(evals: CircleEvaluation, p: CirclePoint<QM31>) -> Seq<QM31> {
    Seq::new(
        evals.values@.len(),
        |j: int| embed(evals.values@[j]).times(circle_weight(evals.domain, p, j)),
    )
}

/// The value folded at a point is the sum of the weighted values.
proof fn lemma_folded_circle_sum(evals: CircleEvaluation, p: CirclePoint<QM31>)
    requires
        evals.wf(),
        evals.domain.log_size_s() <= 30,
        evals.domain == canonic_domain(evals.domain.log_size_s()),
    ensures
        folded_value(evals, p).canon() == sum_s(circle_weighted(evals, p)),
{
    let n = evals.domain.log_size_s();
    let h = evals.domain.half_coset;
    let l = (n - 1) as nat;
    let v = embedded(evals.values@);
    let alphas = folding_alphas(p, n);
    lemma_canonic_foldable(n);
    lemma_pow2_double(n);
    let v2 = fold_layer(v, pair_ys(h), alphas[0]);
    let rest = alphas.drop_first();
    assert(rest =~= line_alphas(p.x, l));
    lemma_folded_sum(h, v2, rest);
    lemma_sum_pairs(circle_weighted(evals, p));
    assert(pair_sums(circle_weighted(evals, p)) =~= weighted(h, v2, rest)) by {
        assert forall|i: int| 0 <= i < v2.len() implies pair_sums(circle_weighted(evals, p))[i]
            == weighted(h, v2, rest)[i] by {
            lemma_reversed_pair(evals.domain, i);
            let t = evals.domain.reversed_at(2 * i).y;
            assert(pair_ys(h)[i] == t);
            assert((2 * i) / 2 == i && (2 * i + 1) / 2 == i);
            lemma_pair_weights_at(v[2 * i], v[2 * i + 1], t, p.y, fold_weight(h, rest, i));
        }
    }
}

/// None of the doubles of the coordinates of a foldable domain is zero.
proof fn lemma_foldable_doubles(coset: Coset, j: int)
    requires
        coset.wf(),
        foldable(coset, coset.log_size as nat),
        0 <= j < coset.size_s(),
    ensures
        doubles_nonzero((LineDomain { coset }).reversed_at(j), coset.log_size as nat),
    decreases coset.log_size,
{
    let n = coset.log_size as nat;
    let line = LineDomain { coset };
    let t = line.reversed_at(j);
    if n > 0 {
        let i = j / 2;
        let n1 = (n - 1) as nat;
        lemma_pow2_double(n);
        lemma_doubled_wf(coset);
        let c2 = coset.double_s();
        assert(doubled_coset(coset, 0) == coset);
        assert(all_nonzero(pair_xs(doubled_coset(coset, 0))));
        assert forall|m: nat| m < n1 implies all_nonzero(
            pair_xs(#[trigger] doubled_coset(c2, m)),
        ) by {
            lemma_doubled_coset_first(coset, m);
            assert(all_nonzero(pair_xs(doubled_coset(coset, m + 1))));
        }
        lemma_foldable_doubles(c2, i);
        lemma_line_pair(line, i);
        let t0 = line.reversed_at(2 * i);
        assert(pair_xs(coset)[i] == t0);
        lemma_opposite_nonzero(t0);
        lemma_double_opposite(t0);
        assert(t == t0 || t == t0.opposite());
        assert forall|k: nat| k < n implies (#[trigger] double_x_iter(t, k)).canon()
            != M31::zero_el() by {
            if k > 0 {
                lemma_double_x_first(t, (k - 1) as nat);
                assert(double_x_iter(double_x_s(t), (k - 1) as nat).canon() != M31::zero_el());
            }
        }
    }
}

/// Facts about a point of a canonical domain, as one over the secure field.
proof fn lemma_canonic_point(n: nat, j: int)
    requires
        0 < n <= 30,
        0 <= j < pow2(n),
    ensures
        ({
            let q = embed_point(canonic_domain(n).reversed_at(j));
            &&& norm_of(q) == QM31::one_el()
            &&& q.y.canon() != QM31::zero_el()
            &&& doubles_nonzero(q.x, (n - 1) as nat)
            &&& double_x_iter(q.x, (n - 1) as nat).canon() == QM31::zero_el()
            &&& inv_of(q.y) == embed(inv_of(canonic_domain(n).reversed_at(j).y))
            &&& canonic_domain(n).reversed_at(j).x == (LineDomain {
                coset: canonic_domain(n).half_coset,
            }).reversed_at(j / 2)
        }),
{
    let d = canonic_domain(n);
    let h = d.half_coset;
    let l = (n - 1) as nat;
    let i = j / 2;
    lemma_canonic_domain_wf(n);
    lemma_canonic_foldable(n);
    lemma_pow2_double(n);
    lemma_reversed_pair(d, i);
    assert(j == 2 * i || j == 2 * i + 1);
    let p = d.reversed_at(j);
    let k = bit_rev(i, l);
    lemma_bit_rev_range(i, l);
    let g = h.at_s(k);
    let idx = h.index_s(k);
    assert(pair_ys(h)[i] == g.y);
    lemma_opposite_nonzero(g.y);
    lemma_embed_inverse(p.y);
    // on the circle
    crate::circle::lemma_gen_point_on_circle(idx);
    assert(norm_of(p) == M31::one_el()) by {
        lemma_mul_opposite(g.y.opposite(), g.y);
        lemma_mul_opposite(g.y, g.y);
        lemma_opposite_twice(g.y.times(g.y));
        M31::law_canon_results(g.y, g.y);
    }
    lemma_embed(p.x, p.x);
    lemma_embed(p.y, p.y);
    lemma_embed(p.x.times(p.x), p.y.times(p.y));
    // doubles
    lemma_foldable_doubles(h, i);
    let x = p.x;
    assert forall|m: nat| m < l implies (#[trigger] double_x_iter(embed(x), m)).canon()
        != QM31::zero_el() by {
        lemma_embed_double_x(x, m);
        assert(double_x_iter(x, m).canon() != M31::zero_el());
        lemma_embed_inverse(double_x_iter(x, m));
    }
    lemma_last_double(n, k);
    lemma_embed_double_x(x, l);
    lemma_embed(M31::zero_el(), M31::zero_el());
    M31::law_canon_results(x, x);
}

/// The last double of a coordinate of a canonical domain is zero.
proof fn lemma_last_double(n: nat, k: int)
    requires
        0 < n <= 30,
        0 <= k,
    ensures
        double_x_iter(canonic_domain(n).half_coset.at_s(k).x, (n - 1) as nat) == M31::zero_el(),
{
    let idx = canonic_domain(n).half_coset.index_s(k);
    lemma_last_index(n, k);
    crate::circle::lemma_gen_point_double_x(idx, (n - 1) as nat);
    crate::circle::lemma_gen_point_period(0x2000_0000, k as nat);
    crate::circle::lemma_gen_point_landmarks();
}

/// The index of the last double of a point of a canonical half coset: a quarter turn, and whole
/// turns.
proof fn lemma_last_index(n: nat, k: int)
    requires
        0 < n <= 30,
        0 <= k,
    ensures
        pow2((n - 1) as nat) * canonic_domain(n).half_coset.index_s(k) == 0x2000_0000
            + 0x8000_0000 * k,
{
    let h = canonic_domain(n).half_coset;
    let l = (n - 1) as nat;
    lemma_canonic_domain_wf(n);
    let idx = h.index_s(k);
    let e = (30 - n) as nat;
    let pe = pow2(e) as int;
    let pl = pow2(l) as int;
    lemma2_to64();
    vstd::arithmetic::power2::lemma_pow2_adds(e, 2);
    vstd::arithmetic::power2::lemma_pow2_adds(l, e);
    assert(l + e == 29);
    assert(pl * pe == 0x2000_0000);
    crate::circle::lemma_step_small(n + 1);
    assert(31 - l == e + 2);
    assert(crate::circle::subgroup_step(l) == pe * 4);
    assert(h.initial_index.0 as int == pe);
    assert(k * (pe * 4) >= 0) by (nonlinear_arith)
        requires
            k >= 0,
            pe >= 0,
    ;
    assert(idx as int == pe + k * (pe * 4));
    assert(pl * (pe + k * (pe * 4)) == 0x2000_0000 + 0x8000_0000 * k) by (nonlinear_arith)
        requires
            pl * pe == 0x2000_0000,
    ;
    assert((pow2(l) * idx) as int == 0x2000_0000 + 0x8000_0000 * k);
}

/// The vanishing polynomial of a canonical coset does not turn the point.
proof fn lemma_canonic_vanishing(n: nat, p: CirclePoint<QM31>)
    requires
        0 < n <= 30,
    ensures
        canonic_vanishing(n, p) == double_x_iter(p.x.canon(), (n - 1) as nat),
{
    let c = crate::circle::coset_s(crate::circle::subgroup_step(n + 1) as int, n);
    crate::circle::lemma_step_small(n);
    crate::circle::lemma_step_small(n + 1);
    lemma2_to64();
    lemma_pow2_double((31 - n) as nat);
    vstd::arithmetic::power2::lemma_pow2_strictly_increases((31 - n) as nat, 31);
    vstd::arithmetic::div_mod::lemma_small_mod(
        crate::circle::subgroup_step(n),
        crate::circle::circle_order(),
    );
    let a = crate::circle::subgroup_step(n + 1);
    assert((31 - n) - 1 == 31 - (n + 1));
    assert(c.step_size.0 / 2 == a);
    assert(c.initial_index.0 == a);
    let g = crate::circle::gen_point(a);
    crate::circle::lemma_gen_point_on_circle(a);
    lemma_embed(g.x, g.x);
    lemma_embed(g.y, g.y);
    lemma_embed(g.x.times(g.x), g.y.times(g.y));
    lemma_turn_back(p, embed_point(g));
}

/// Turning forth and back.
proof fn lemma_turn_back<F: Field>(p: CirclePoint<F>, g: CirclePoint<F>)
    requires
        norm_of(g) == F::one_el(),
    ensures
        p.join(g.reflected()).join(g) == p.canonical_point(),
{
    crate::circle::lemma_join_assoc(p, g.reflected(), g);
    let (x, y) = (g.x, g.y);
    lemma_mul_opposite(y, y);
    F::law_sub(x.times(x), y.times(y).opposite());
    lemma_opposite_twice(y.times(y));
    F::law_canon_results(y, y);
    lemma_mul_opposite(y, x);
    F::law_mul_comm(x, y);
    F::law_add_opposite(y.times(x));
    assert(g.reflected().join(g) == CirclePoint::<F>::neutral());
    crate::circle::lemma_join_neutral(p);
}

proof fn lemma_double_canon<F: Field>(x: F, m: nat)
    ensures
        double_x_iter(x.canon(), m).canon() == double_x_iter(x, m).canon(),
        m > 0 ==> double_x_iter(x.canon(), m) == double_x_iter(x, m),
    decreases m,
{
    F::law_canon_results(x, x);
    if m > 0 {
        let m1 = (m - 1) as nat;
        lemma_double_canon(x, m1);
        if m1 == 0 {
            crate::fields::lemma_canon_both(x, x);
            F::law_canon_results(x, x);
            crate::fields::lemma_canon_both(x.canon(), x.canon());
            assert(double_x_iter(x, 0) == x);
            assert(double_x_iter(x.canon(), 0) == x.canon());
        }
    }
}

/// `w s_inv = v / d` where `w d = s v`.
proof fn lemma_divide<F: Field>(w: F, d: F, s: F, s_inv: F, v: F, v2: F)
    requires
        d.canon() != F::zero_el(),
        s.times(s_inv) == F::one_el(),
        w.times(d) == s.times(v),
        v2.canon() == v.canon(),
    ensures
        w.times(s_inv) == v2.times(inv_of(d)),
{
    let i = inv_of(d);
    lemma_inv_exists(d);
    // w s_inv = (w d) (i s_inv) = (s v) (i s_inv) = v i
    F::law_mul_one(w);
    F::law_mul_assoc(w, d, i);
    F::law_canon_args(w, s_inv);
    assert(w.times(s_inv) == w.times(d).times(i).times(s_inv));
    let sv = s.times(v);
    F::law_mul_assoc(sv, i, s_inv);
    F::law_mul_comm(i, s_inv);
    lemma_mul_swap_middle(s, v, s_inv, i);
    F::law_mul_comm(F::one_el(), v.times(i));
    F::law_mul_one(v.times(i));
    F::law_canon_results(v, i);
    F::law_canon_args(v, i);
    F::law_canon_args(v2, i);
}

proof fn lemma_twos(n: nat)
    ensures
        twos::<QM31>(n) == embed(two_pow(n)),
    decreases n,
{
    if n == 0 {
        lemma_embed(M31::one_el(), M31::one_el());
    } else {
        lemma_twos((n - 1) as nat);
        lemma_embed(two_pow((n - 1) as nat), two_pow((n - 1) as nat));
    }
}

proof fn lemma_minus_two()
    ensures
        minus_two() == QM31::one_el().plus(QM31::one_el()).opposite(),
{
    let one = M31::one_el();
    lemma_embed(one, one);
    lemma_embed(one.plus(one), one);
    assert(one.plus(one).opposite() == M31(2147483645));
}

/// The barycentric weight is the folding weight divided by the size of the domain.
proof fn lemma_weight(n: nat, p: CirclePoint<QM31>, j: int, s_inv: QM31)
    requires
        0 < n <= 30,
        0 <= j < pow2(n),
        norm_of(p) == QM31::one_el(),
        weights_exist(n, p),
        embed(two_pow(n)).times(s_inv) == QM31::one_el(),
    ensures
        circle_weight(canonic_domain(n), p, j).times(s_inv) == weight_s(n, p, j),
{
    let d = canonic_domain(n);
    let q = embed_point(d.reversed_at(j));
    let l = (n - 1) as nat;
    lemma_canonic_domain_wf(n);
    lemma_canonic_point(n, j);
    lemma_canonic_foldable(n);
    lemma_pow2_double(n);
    lemma_fold_weight(d.half_coset, p.x, j / 2);
    lemma_minus_two();
    lemma_weight_identity(p, q, l, minus_two());
    lemma_twos(n);
    lemma_canonic_vanishing(n, p);
    lemma_double_canon(p.x, l);
    let den = weight_denominator(q, n, p);
    QM31::law_canon_results(weight_scale(q, n), point_vanishing_s(q, p));
    lemma_divide(
        circle_weight(d, p, j),
        den,
        embed(two_pow(n)),
        s_inv,
        double_x_iter(p.x, l),
        canonic_vanishing(n, p),
    );
}

/// Barycentric evaluation gives the value of the interpolant.
pub proof fn lemma_barycentric(evals: CircleEvaluation, c: Seq<M31>, p: CirclePoint<QM31>)
    requires
        evals.wf(),
        evals.domain.log_size_s() <= 30,
        evals.domain == canonic_domain(evals.domain.log_size_s()),
        interpolates(evals, c),
        norm_of(p) == QM31::one_el(),
        weights_exist(evals.domain.log_size_s(), p),
    ensures
        dot_s(evals.values@, weights_s(evals.domain.log_size_s(), p)) == poly_at_secure(
            c,
            evals.domain.log_size_s(),
            p,
        ),
{
    let n = evals.domain.log_size_s();
    let s = embed(two_pow(n));
    lemma_two_pow_nonzero(n);
    lemma_inv_exists(s);
    let s_inv = inv_of(s);
    let terms = circle_weighted(evals, p);
    let w = weights_s(n, p);
    let scaled = terms.map_values(|b: QM31| b.times(s_inv));
    assert(scaled_terms(evals.values@, w) =~= scaled) by {
        assert forall|j: int| 0 <= j < evals.values.len() implies scaled_terms(
            evals.values@,
            w,
        )[j] == scaled[j] by {
            lemma_weight(n, p, j, s_inv);
            lemma_scaled_is_times(w[j], evals.values@[j]);
            let e = embed(evals.values@[j]);
            let cw = circle_weight(evals.domain, p, j);
            QM31::law_mul_comm(w[j], e);
            QM31::law_mul_assoc(e, cw, s_inv);
        }
    }
    lemma_sum_scaled(terms, s_inv);
    lemma_folded_circle_sum(evals, p);
    lemma_folded_value(evals, c, p);
    let v = poly_at_secure(c, n, p);
    QM31::law_mul_assoc(v, s, s_inv);
    QM31::law_mul_one(v);
    lemma_fold_canonical(super::fold::embed_all(c), mappings(n, p.x, p.y));
}

/// `y` times the derivative of the `m`-fold double is `2^m` times the `y` coordinate of the
/// `m`-fold double of the point.
proof fn lemma_derivative_sine<F: Field>(p: CirclePoint<F>, m: nat)
    requires
        norm_of(p) == F::one_el(),
        p.y.canon() == p.y,
    ensures
        p.y.times(double_derivative(p.x, m)) == twos::<F>(m).times(p.doubled(m).y),
    decreases m,
{
    if m == 0 {
        F::law_mul_one(p.y);
        F::law_mul_comm(F::one_el(), p.y);
    } else {
        let m1 = (m - 1) as nat;
        let p2 = p.join(p);
        let (x, y) = (p.x, p.y);
        crate::circle::lemma_double_x(p);
        crate::circle::lemma_norm_join(p, p);
        F::law_mul_one(F::one_el());
        F::law_canon_results(x.times(y), y.times(x));
        F::law_canon_results(F::one_el(), F::one_el());
        lemma_derivative_sine(p2, m1);
        lemma_doubled_first(p, m1);
        let d = double_derivative(p2.x, m1);
        // y (4 x) = 2 (x y + y x)
        F::law_distrib(y, x, x);
        F::law_distrib(y, x.plus(x), x.plus(x));
        F::law_mul_comm(x, y);
        let f = four_times(x);
        assert(y.times(f) == p2.y.plus(p2.y));
        F::law_mul_assoc(y, f, d);
        lemma_distrib_right(p2.y, p2.y, d);
        lemma_distrib_right(twos::<F>(m1), twos::<F>(m1), p.doubled(m).y);
    }
}

/// Doubling first and then `m` times more.
pub proof fn lemma_doubled_first<F: Field>(p: CirclePoint<F>, m: nat)
    ensures
        p.join(p).doubled(m) == p.doubled(m + 1),
    decreases m,
{
    if m > 0 {
        lemma_doubled_first(p, (m - 1) as nat);
        assert(p.doubled(m + 1) == p.doubled(m).join(p.doubled(m)));
    } else {
        assert(p.doubled(1) == p.doubled(0).join(p.doubled(0)));
    }
}

proof fn lemma_embed_derivative(x: M31, m: nat)
    ensures
        double_derivative(embed(x), m) == embed(double_derivative(x, m)),
    decreases m,
{
    lemma_embed(x, x);
    if m > 0 {
        lemma_embed_double(x);
        lemma_embed_derivative(double_x_s(x), (m - 1) as nat);
        lemma_embed(x.plus(x), x.plus(x));
        lemma_embed(four_times(x), double_derivative(double_x_s(x), (m - 1) as nat));
    }
}

/// The scales at a canonical domain agree up to sign: each is `2^n` with the sign that the parity
/// of the place tells.
pub proof fn lemma_weight_scale(n: nat, j: int)
    requires
        0 < n <= 30,
        0 <= j < pow2(n),
    ensures
        ({
            let q = embed_point(canonic_domain(n).reversed_at(j));
            let t = embed(two_pow(n));
            weight_scale(q, n) == if j % 2 == 0 {
                t
            } else {
                t.opposite()
            }
        }),
        embed(two_pow(n)).canon() != QM31::zero_el(),
        embed(two_pow(n)).opposite().canon() != QM31::zero_el(),
{
    let d = canonic_domain(n);
    let h = d.half_coset;
    let l = (n - 1) as nat;
    let i = j / 2;
    lemma_two_pow_nonzero(n);
    lemma_opposite_nonzero(embed(two_pow(n)));
    lemma_canonic_domain_wf(n);
    lemma_pow2_double(n);
    lemma_reversed_pair(d, i);
    assert(j == 2 * i || j == 2 * i + 1);
    let k = bit_rev(i, l);
    lemma_bit_rev_range(i, l);
    let g = h.at_s(k);
    let idx = h.index_s(k);
    crate::circle::lemma_gen_point_on_circle(idx);
    crate::circle::lemma_gen_point_canonical(idx);
    lemma_derivative_sine(g, l);
    lemma_last_doubled(n, k);
    let c = double_derivative(g.x, l);
    let e = M31(2147483646);
    assert(g.doubled(l).y == e);
    lemma_twos_base(l);
    // y c = -2^l
    let t = two_pow(l);
    assert(e == M31::one_el().opposite());
    lemma_mul_opposite(t, M31::one_el());
    M31::law_mul_one(t);
    lemma_two_pow_canonical(l);
    assert(g.y.times(c) == t.opposite());
    let q = embed_point(d.reversed_at(j));
    lemma_embed_derivative(g.x, l);
    lemma_scale_sign(g.y, c, t);
    lemma_mul_opposite(g.y, c);
    lemma_mul_opposite(embed(g.y), minus_two());
    lemma_mul_opposite(embed(g.y).times(minus_two()), embed(c));
    lemma_embed(g.y, g.y);
}

proof fn lemma_two_pow_canonical(l: nat)
    ensures
        two_pow(l).canon() == two_pow(l),
{
    M31::law_canon_results(M31::one_el(), M31::one_el());
    if l > 0 {
        M31::law_canon_results(two_pow((l - 1) as nat), two_pow((l - 1) as nat));
    }
}

/// `y (-2) c = 2 t` where `y c = -t`.
proof fn lemma_scale_sign(y: M31, c: M31, t: M31)
    requires
        y.times(c) == t.opposite(),
        t.canon() == t,
    ensures
        embed(y).times(minus_two()).times(embed(c)) == embed(t.plus(t)),
{
    lemma_minus_two();
    lemma_embed(y, c);
    lemma_embed(t, t);
    let one = QM31::one_el();
    let m2 = minus_two();
    QM31::law_mul_comm(embed(y), m2);
    QM31::law_mul_assoc(m2, embed(y), embed(c));
    lemma_minus_two_times(embed(t));
    lemma_embed(t.canon(), t);
}

proof fn lemma_minus_two_times<F: Field>(t: F)
    ensures
        F::one_el().plus(F::one_el()).opposite().times(t.opposite()) == t.plus(t),
{
    let one = F::one_el();
    let two = one.plus(one);
    lemma_mul_opposite(two, t);
    lemma_mul_opposite(two.opposite(), t);
    lemma_opposite_twice(two.times(t));
    F::law_canon_results(two, t);
    lemma_distrib_right(one, one, t);
    F::law_mul_comm(one, t);
    F::law_mul_one(t);
    crate::fields::lemma_canon_both(t, t);
}

proof fn lemma_twos_base(n: nat)
    ensures
        twos::<M31>(n) == two_pow(n),
    decreases n,
{
    if n > 0 {
        lemma_twos_base((n - 1) as nat);
    }
}

/// The last double of a point of a canonical half coset.
proof fn lemma_last_doubled(n: nat, k: int)
    requires
        0 < n <= 30,
        0 <= k,
    ensures
        canonic_domain(n).half_coset.at_s(k).doubled((n - 1) as nat).y == M31(2147483646),
{
    let idx = canonic_domain(n).half_coset.index_s(k);
    lemma_last_index(n, k);
    crate::circle::lemma_gen_point_doubled(idx, (n - 1) as nat);
    crate::circle::lemma_gen_point_period(0x2000_0000, k as nat);
    crate::circle::lemma_gen_point_landmarks();
}

/// Off the domain, on the circle, the weights exist: a point where the vanishing polynomial is not
/// zero is neither a point of the domain nor the antipode of one.
pub proof fn lemma_weights_exist(n: nat, p: CirclePoint<QM31>)
    requires
        0 < n <= 30,
        norm_of(p) == QM31::one_el(),
        canonic_vanishing(n, p).canon() != QM31::zero_el(),
    ensures
        weights_exist(n, p),
{
    let l = (n - 1) as nat;
    lemma_canonic_vanishing(n, p);
    lemma_double_canon(p.x, l);
    assert forall|j: int|
        #![trigger canonic_domain(n).reversed_at(j)]
        0 <= j < pow2(n) implies {
        let q = embed_point(canonic_domain(n).reversed_at(j));
        no_pole(q, p) && weight_denominator(q, n, p) != QM31::zero_el()
    } by {
        let q = embed_point(canonic_domain(n).reversed_at(j));
        lemma_canonic_point(n, j);
        lemma_weight_scale(n, j);
        lemma_off_domain(p, q, l);
        let v = point_vanishing_s(q, p);
        lemma_product_not_zero(weight_scale(q, n), v);
    }
}

proof fn lemma_product_not_zero<F: Field>(a: F, b: F)
    requires
        a.canon() != F::zero_el(),
        b.canon() != F::zero_el(),
    ensures
        a.times(b) != F::zero_el(),
{
    if a.times(b) == F::zero_el() {
        lemma_integral(a, b);
    }
}

/// A point whose `x` coordinate does not double to zero is neither a given zero of that double nor
/// its antipode.
proof fn lemma_off_domain<F: Field>(p: CirclePoint<F>, q: CirclePoint<F>, m: nat)
    requires
        norm_of(p) == F::one_el(),
        norm_of(q) == F::one_el(),
        double_x_iter(q.x, m).canon() == F::zero_el(),
        double_x_iter(p.x, m).canon() != F::zero_el(),
    ensures
        no_pole(q, p),
        point_vanishing_s(q, p).canon() != F::zero_el(),
{
    let h = p.join(q.reflected());
    let one = F::one_el();
    let k = one.plus(h.x);
    F::law_canon_results(one, h.x);
    F::law_canon_results(one, one);
    lemma_turn_back(p, q);
    assert(h.join(q) == p.canonical_point());
    lemma_norm_reflected(q);
    crate::circle::lemma_norm_join(p, q.reflected());
    F::law_mul_one(one);
    assert(norm_of(h) == one);
    lemma_double_canon(p.x, m);
    if k == F::zero_el() {
        // h = (-1, 0), so p = -q
        crate::fields::lemma_opposite_unique(one, h.x);
        F::law_canon_results(p.x.times(q.x), p.y.times(q.y.opposite()));
        assert(h.x == one.opposite());
        lemma_square_of_minus_one::<F>();
        lemma_unit_norm(h);
        assert(h.y.canon() == F::zero_el());
        lemma_join_minus_one(h, q);
        assert(p.x.canon() == q.x.opposite());
        lemma_double_of_opposite(q.x, m);
    }
    lemma_inv_exists(k);
    let ki = inv_of(k);
    if point_vanishing_s(q, p).canon() == F::zero_el() {
        F::law_canon_results(h.y, ki);
        lemma_integral(h.y, ki);
        if ki.canon() == F::zero_el() {
            lemma_mul_zero(k);
            F::law_nontrivial();
        }
        assert(h.y.canon() == F::zero_el());
        // (1 + h.x) (x - a) = 0
        lemma_chord(p, q);
        F::law_canon_args(h.y, q.y.plus(p.y));
        F::law_mul_comm(h.y, q.y.plus(p.y));
        lemma_mul_zero(q.y.plus(p.y));
        let e = p.x.minus(q.x);
        let ke = k.times(e);
        lemma_opposite_twice(ke);
        lemma_zero_opposite::<F>();
        F::law_canon_results(k, e);
        assert(ke == F::zero_el());
        lemma_integral(k, e);
        F::law_canon_results(p.x, q.x);
        assert(e == F::zero_el());
        lemma_equal_from_difference(p.x, q.x);
        lemma_double_canon(q.x, m);
    }
}

proof fn lemma_equal_from_difference<F: Field>(a: F, b: F)
    requires
        a.minus(b) == F::zero_el(),
    ensures
        a.canon() == b.canon(),
{
    F::law_sub(a, b);
    F::law_add_comm(a, b.opposite());
    crate::fields::lemma_opposite_unique(b.opposite(), a);
    lemma_opposite_twice(b);
}

proof fn lemma_norm_reflected<F: Field>(q: CirclePoint<F>)
    ensures
        norm_of(q.reflected()) == norm_of(q),
{
    lemma_mul_opposite(q.y.opposite(), q.y);
    lemma_mul_opposite(q.y, q.y);
    lemma_opposite_twice(q.y.times(q.y));
    F::law_canon_results(q.y, q.y);
}

proof fn lemma_square_of_minus_one<F: Field>()
    ensures
        F::one_el().opposite().times(F::one_el().opposite()) == F::one_el(),
{
    let one = F::one_el();
    lemma_mul_opposite(one.opposite(), one);
    lemma_mul_opposite(one, one);
    F::law_mul_one(one);
    F::law_canon_results(one, one);
    lemma_opposite_twice(one);
}

/// A point of the circle with `x^2 = 1` has `y = 0`.
proof fn lemma_unit_norm<F: Field>(h: CirclePoint<F>)
    requires
        norm_of(h) == F::one_el(),
        h.x.times(h.x) == F::one_el(),
    ensures
        h.y.canon() == F::zero_el(),
{
    let one = F::one_el();
    let yy = h.y.times(h.y);
    F::law_add_zero(one);
    F::law_canon_results(one, one);
    crate::fields::lemma_add_cancel(one, yy, F::zero_el());
    F::law_canon_results(h.y, h.y);
    lemma_integral(h.y, h.y);
}

/// Half a turn takes `q` to its antipode.
proof fn lemma_join_minus_one<F: Field>(h: CirclePoint<F>, q: CirclePoint<F>)
    requires
        h.x == F::one_el().opposite(),
        h.y.canon() == F::zero_el(),
    ensures
        h.join(q).x == q.x.opposite(),
{
    F::law_canon_args(h.y, q.y);
    lemma_mul_zero(q.y);
    crate::fields::lemma_neg_one_times(q.x);
    let m = q.x.opposite();
    F::law_sub(m, F::zero_el());
    lemma_zero_opposite::<F>();
    F::law_add_zero(m);
    F::law_canon_results(q.x, q.x);
}

proof fn lemma_double_of_opposite<F: Field>(a: F, m: nat)
    requires
        double_x_iter(a, m).canon() == F::zero_el(),
    ensures
        double_x_iter(a.opposite(), m).canon() == F::zero_el(),
{
    if m == 0 {
        F::law_canon_args(a, a);
        lemma_zero_opposite::<F>();
        F::law_canon_results(a, a);
    } else {
        lemma_double_x_first(a, (m - 1) as nat);
        lemma_double_x_first(a.opposite(), (m - 1) as nat);
        lemma_double_opposite(a);
    }
}

} // verus!
