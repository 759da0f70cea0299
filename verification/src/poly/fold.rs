//! Evaluation of a polynomial in the circle FFT basis.
//!
//! The coefficient at index `i` belongs to the product of the factors that the binary digits of
//! `i` select: `y` for the lowest digit, then `x`, and the repeated doubles of `x` above it.

use vstd::arithmetic::power2::{lemma2_to64, pow2};
use vstd::prelude::*;

use super::domain::mapping_at;
use crate::circle::CirclePoint;
use crate::fields::m31::M31;
use crate::fields::qm31::{embed, QM31};
use crate::fields::{lemma_add_swap_middle, lemma_distrib_right, lemma_mul_zero, Field};
use crate::utils::lemma_pow2_double;

verus! {

/// Folds a sequence of length `2^k` with `k` factors: the lower half plus the first factor times
/// the upper half, each half folded with the other factors.
pub open spec fn fold_s<F: Field>(v: Seq<F>, factors: Seq<F>) -> F
    decreases factors.len(),
{
    if factors.len() == 0 {
        v[0]
    } else {
        let half = v.len() as int / 2;
        let rest = factors.drop_first();
        fold_s(v.subrange(0, half), rest).plus(
            fold_s(v.subrange(half, v.len() as int), rest).times(factors[0]),
        )
    }
}

/// The factors at `(x, y)`, from the one of the highest digit to the one of the lowest.
pub open spec fn mappings<F: Field>(n: nat, x: F, y: F) -> Seq<F> {
    Seq::new(n, |k: int| mapping_at(x, y, n - 1 - k))
}

/// The value at `(x, y)` of the polynomial with the given `2^n` coefficients.
pub open spec fn poly_at<F: Field>(coeffs: Seq<F>, n: nat, x: F, y: F) -> F {
    fold_s(coeffs, mappings(n, x, y))
}

/// Base field elements as secure field elements.
pub open spec fn embed_all(v: Seq<M31>) -> Seq<QM31> {
    v.map_values(|a: M31| embed(a))
}

/// The value at a point over the secure field of a polynomial over the base field.
pub open spec fn poly_at_secure(coeffs: Seq<M31>, n: nat, p: CirclePoint<QM31>) -> QM31 {
    poly_at(embed_all(coeffs), n, p.x, p.y)
}

pub proof fn lemma_mappings_rest<F: Field>(n: nat, x: F, y: F)
    requires
        n > 0,
    ensures
        mappings(n, x, y).len() == n,
        mappings(n, x, y)[0] == mapping_at(x, y, n - 1),
        mappings(n, x, y).drop_first() == mappings((n - 1) as nat, x, y),
{
    assert(mappings(n, x, y).drop_first() =~= mappings((n - 1) as nat, x, y));
}

/// `u + w * c`, entry by entry.
pub open spec fn combine<F: Field>(u: Seq<F>, w: Seq<F>, c: F) -> Seq<F> {
    Seq::new(u.len(), |l: int| u[l].plus(w[l].times(c)))
}

/// Folding is linear.
pub proof fn lemma_fold_linear<F: Field>(u: Seq<F>, w: Seq<F>, c: F, factors: Seq<F>)
    requires
        u.len() == w.len(),
        u.len() == pow2(factors.len()),
    ensures
        fold_s(combine(u, w, c), factors) == fold_s(u, factors).plus(
            fold_s(w, factors).times(c),
        ),
    decreases factors.len(),
{
    if factors.len() == 0 {
        lemma2_to64();
    } else {
        lemma_pow2_double(factors.len());
        let half = u.len() as int / 2;
        let n = u.len() as int;
        let rest = factors.drop_first();
        let f = factors[0];
        let v = combine(u, w, c);
        let (u0, u1) = (u.subrange(0, half), u.subrange(half, n));
        let (w0, w1) = (w.subrange(0, half), w.subrange(half, n));
        assert(v.subrange(0, half) =~= combine(u0, w0, c));
        assert(v.subrange(half, n) =~= combine(u1, w1, c));
        lemma_fold_linear(u0, w0, c, rest);
        lemma_fold_linear(u1, w1, c, rest);
        let (a0, a1) = (fold_s(u0, rest), fold_s(u1, rest));
        let (b0, b1) = (fold_s(w0, rest), fold_s(w1, rest));
        // (a0 + b0 c) + (a1 + b1 c) f = (a0 + a1 f) + (b0 + b1 f) c
        lemma_distrib_right(a1, b1.times(c), f);
        F::law_mul_assoc(b1, c, f);
        F::law_mul_comm(c, f);
        F::law_mul_assoc(b1, f, c);
        lemma_add_swap_middle(a0, b0.times(c), a1.times(f), b1.times(f).times(c));
        lemma_distrib_right(b0, b1.times(f), c);
    }
}

/// Folding zeros gives zero.
pub proof fn lemma_fold_zero<F: Field>(v: Seq<F>, factors: Seq<F>)
    requires
        v.len() == pow2(factors.len()),
        forall|i: int| 0 <= i < v.len() ==> v[i] == F::zero_el(),
    ensures
        fold_s(v, factors) == F::zero_el(),
    decreases factors.len(),
{
    if factors.len() == 0 {
        lemma2_to64();
    } else {
        lemma_pow2_double(factors.len());
        let half = v.len() as int / 2;
        let rest = factors.drop_first();
        lemma_fold_zero(v.subrange(0, half), rest);
        lemma_fold_zero(v.subrange(half, v.len() as int), rest);
        lemma_mul_zero(factors[0]);
        F::law_add_zero(F::zero_el());
        F::law_canon_results(F::zero_el(), F::zero_el());
    }
}

/// Coefficients padded with zeros.
pub open spec fn padded<F: Field>(c: Seq<F>, n: nat) -> Seq<F> {
    Seq::new(n, |i: int| if i < c.len() { c[i] } else { F::zero_el() })
}

/// Padding with zeros does not change the value of a polynomial, up to representation.
pub proof fn lemma_poly_at_padded<F: Field>(c: Seq<F>, k: nat, n: nat, x: F, y: F)
    requires
        c.len() == pow2(k),
        k <= n,
    ensures
        poly_at(padded(c, pow2(n)), n, x, y).canon() == poly_at(c, k, x, y).canon(),
        k < n ==> poly_at(padded(c, pow2(n)), n, x, y) == poly_at(c, k, x, y).canon(),
    decreases n - k,
{
    let v = padded(c, pow2(n));
    if k == n {
        assert(v =~= c);
    } else {
        let n1 = (n - 1) as nat;
        lemma_pow2_double(n);
        crate::utils::lemma_pow2_le(k, n1);
        lemma_mappings_rest(n, x, y);
        let half = v.len() as int / 2;
        let rest = mappings(n1, x, y);
        assert(v.subrange(0, half) =~= padded(c, pow2(n1)));
        lemma_fold_zero(v.subrange(half, v.len() as int), rest);
        let f = mapping_at(x, y, n - 1);
        lemma_mul_zero(f);
        let lo = fold_s(padded(c, pow2(n1)), rest);
        F::law_add_zero(lo);
        lemma_poly_at_padded(c, k, n1, x, y);
        F::law_canon_results(lo, lo);
    }
}

// ---------------------------------------------------------------------------------------------
// The basis column.

/// The products of factors, in the order of the coefficients that they belong to.
pub open spec fn basis_s<F: Field>(factors: Seq<F>) -> Seq<F>
    decreases factors.len(),
{
    if factors.len() == 0 {
        seq![F::one_el()]
    } else {
        let low = basis_s(factors.drop_first());
        low + low.map_values(|b: F| b.times(factors[0]))
    }
}

pub proof fn lemma_basis_len<F: Field>(factors: Seq<F>)
    ensures
        basis_s(factors).len() == pow2(factors.len()),
    decreases factors.len(),
{
    if factors.len() == 0 {
        lemma2_to64();
    } else {
        lemma_pow2_double(factors.len());
        lemma_basis_len(factors.drop_first());
    }
}

/// The sum of a sequence, starting from zero.
pub open spec fn sum_s<F: Field>(v: Seq<F>) -> F
    decreases v.len(),
{
    if v.len() == 0 {
        F::zero_el()
    } else {
        sum_s(v.drop_last()).plus(v.last())
    }
}

pub proof fn lemma_sum_canonical<F: Field>(v: Seq<F>)
    ensures
        sum_s(v).canon() == sum_s(v),
{
    F::law_canon_results(F::zero_el(), F::zero_el());
    if v.len() > 0 {
        F::law_canon_results(sum_s(v.drop_last()), v.last());
    }
}

/// The sum over a concatenation.
pub proof fn lemma_sum_concat<F: Field>(a: Seq<F>, b: Seq<F>)
    ensures
        sum_s(a + b) == sum_s(a).plus(sum_s(b)),
    decreases b.len(),
{
    if b.len() == 0 {
        assert(a + b =~= a);
        F::law_add_zero(sum_s(a));
        lemma_sum_canonical(a);
    } else {
        assert((a + b).drop_last() =~= a + b.drop_last());
        lemma_sum_concat(a, b.drop_last());
        F::law_add_assoc(sum_s(a), sum_s(b.drop_last()), b.last());
    }
}

/// The sum of scaled terms.
pub proof fn lemma_sum_scaled<F: Field>(v: Seq<F>, c: F)
    ensures
        sum_s(v.map_values(|b: F| b.times(c))) == sum_s(v).times(c),
    decreases v.len(),
{
    let w = v.map_values(|b: F| b.times(c));
    if v.len() == 0 {
        lemma_mul_zero(c);
        assert(w.len() == 0);
    } else {
        assert(w.drop_last() =~= v.drop_last().map_values(|b: F| b.times(c)));
        lemma_sum_scaled(v.drop_last(), c);
        lemma_distrib_right(sum_s(v.drop_last()), v.last(), c);
    }
}

/// The products of coefficients and basis elements.
pub open spec fn products<F: Field>(v: Seq<F>, basis: Seq<F>) -> Seq<F> {
    Seq::new(v.len(), |i: int| basis[i].times(v[i]))
}

/// Folding is the inner product with the basis.
pub proof fn lemma_fold_is_dot<F: Field>(v: Seq<F>, factors: Seq<F>)
    requires
        v.len() == pow2(factors.len()),
    ensures
        sum_s(products(v, basis_s(factors))) == fold_s(v, factors).canon(),
        factors.len() > 0 ==> sum_s(products(v, basis_s(factors))) == fold_s(v, factors),
    decreases factors.len(),
{
    let basis = basis_s(factors);
    let terms = products(v, basis);
    lemma_basis_len(factors);
    if factors.len() == 0 {
        lemma2_to64();
        assert(sum_s(terms.drop_last()) == F::zero_el());
        assert(terms.last() == F::one_el().times(v[0]));
        F::law_mul_comm(F::one_el(), v[0]);
        F::law_mul_one(v[0]);
        F::law_add_comm(F::zero_el(), v[0].canon());
        F::law_add_zero(v[0].canon());
        F::law_canon_results(v[0], v[0]);
    } else {
        lemma_pow2_double(factors.len());
        let rest = factors.drop_first();
        let f = factors[0];
        let low = basis_s(rest);
        lemma_basis_len(rest);
        let half = v.len() as int / 2;
        let v0 = v.subrange(0, half);
        let v1 = v.subrange(half, v.len() as int);
        let t0 = products(v0, low);
        let t1 = products(v1, low);
        lemma_fold_is_dot(v0, rest);
        lemma_fold_is_dot(v1, rest);
        let t1f = t1.map_values(|b: F| b.times(f));
        assert(terms =~= t0 + t1f) by {
            assert forall|i: int| 0 <= i < terms.len() implies terms[i] == (t0 + t1f)[i] by {
                if i >= half {
                    let k = i - half;
                    assert(basis[i] == low[k].times(f));
                    F::law_mul_assoc(low[k], f, v[i]);
                    F::law_mul_comm(f, v[i]);
                    F::law_mul_assoc(low[k], v[i], f);
                }
            }
        }
        lemma_sum_concat(t0, t1f);
        lemma_sum_scaled(t1, f);
        let (a, b) = (fold_s(v0, rest), fold_s(v1, rest));
        F::law_canon_args(b, f);
        F::law_canon_args(a, b.times(f));
        F::law_canon_results(a, b.times(f));
    }
}

} // verus!
