//! Evaluation of polynomials at points over the secure field.

use vstd::arithmetic::power2::{lemma2_to64, pow2};
use vstd::prelude::*;

use super::circle_poly::CircleCoefficients;
use super::domain::mapping_at;
use super::fold::{
    basis_s, embed_all, fold_s, lemma_basis_len, lemma_fold_is_dot, lemma_mappings_rest,
    lemma_sum_concat, mappings, poly_at_secure, products, sum_s,
};
use crate::circle::{double_x, double_x_iter, CirclePoint};
use crate::fields::cm31::CM31;
use crate::fields::m31::M31;
use crate::fields::qm31::{embed, lemma_coordinates, u_squared, QM31};
use crate::fields::{lemma_add_swap_middle, lemma_mul_zero, Field};
use crate::utils::{lemma_pow2_bound, lemma_pow2_double};

verus! {

/// Folds base field values with secure field factors.
pub fn fold(values: &[M31], factors: &[QM31]) -> (r: QM31)
    requires
        factors.len() <= 31,
        values.len() == pow2(factors.len() as nat),
    ensures
        r == fold_s(embed_all(values@), factors@),
    decreases factors.len(),
{
    if factors.len() == 0 {
        proof {
            lemma2_to64();
        }
        QM31::from_base(values[0])
    } else {
        let n = values.len();
        let half = n / 2;
        proof {
            lemma_pow2_double(factors.len() as nat);
            let e = embed_all(values@);
            assert(e.subrange(0, half as int) =~= embed_all(values@.subrange(0, half as int)));
            assert(e.subrange(half as int, n as int) =~= embed_all(
                values@.subrange(half as int, n as int),
            ));
            assert(factors@.subrange(1, factors.len() as int) =~= factors@.drop_first());
        }
        let rest = vstd::slice::slice_subrange(factors, 1, factors.len());
        let lhs = fold(vstd::slice::slice_subrange(values, 0, half), rest);
        let rhs = fold(vstd::slice::slice_subrange(values, half, n), rest);
        lhs.add(rhs.mul(factors[0]))
    }
}

/// The factors at a point, from the one of the highest digit to the one of the lowest.
fn point_mappings(log_size: u32, point: CirclePoint<QM31>) -> (r: Vec<QM31>)
    requires
        0 < log_size <= 31,
    ensures
        r@ == mappings(log_size as nat, point.x, point.y),
{
    let mut ascending: Vec<QM31> = vec![point.y];
    let mut x = point.x;
    for i in 1..log_size
        invariant
            ascending.len() == i,
            x == double_x_iter(point.x, (i - 1) as nat),
            forall|k: int|
                0 <= k < i ==> #[trigger] ascending@[k] == mapping_at(point.x, point.y, k),
    {
        ascending.push(x);
        x = double_x(x);
    }
    let n = ascending.len();
    let mut r: Vec<QM31> = Vec::with_capacity(n);
    for k in 0..n
        invariant
            n == log_size,
            n == ascending.len(),
            r.len() == k,
            forall|i: int|
                0 <= i < n ==> #[trigger] ascending@[i] == mapping_at(point.x, point.y, i),
            forall|i: int|
                0 <= i < k ==> #[trigger] r@[i] == mapping_at(point.x, point.y, n - 1 - i),
    {
        r.push(ascending[n - 1 - k]);
    }
    assert(r@ =~= mappings(log_size as nat, point.x, point.y));
    r
}

/// The value of a polynomial at a point.
pub fn eval_at_point(poly: &CircleCoefficients, point: CirclePoint<QM31>) -> (r: QM31)
    requires
        poly.wf(),
    ensures
        r == poly_at_secure(poly.coeffs@, poly.log_size as nat, point),
{
    if poly.log_size == 0 {
        proof {
            lemma2_to64();
        }
        return QM31::from_base(poly.coeffs[0]);
    }
    let factors = point_mappings(poly.log_size, point);
    fold(poly.coeffs.as_slice(), factors.as_slice())
}

/// The column of basis values at a point, one for each coefficient.
pub fn eval_basis_at_point(log_size: u32, point: CirclePoint<QM31>) -> (r: Vec<QM31>)
    requires
        log_size <= 31,
    ensures
        r@ == basis_s(mappings(log_size as nat, point.x, point.y)),
        r.len() == pow2(log_size as nat),
{
    proof {
        lemma_basis_len(mappings(log_size as nat, point.x, point.y));
    }
    if log_size == 0 {
        let r: Vec<QM31> = vec![QM31::one()];
        assert(r@ =~= seq![QM31::one_el()]);
        return r;
    }
    let factors = point_mappings(log_size, point);
    let mut basis: Vec<QM31> = vec![QM31::one()];
    let mut k: u32 = 0;
    proof {
        assert(basis@ =~= basis_s(mappings(0, point.x, point.y)));
    }
    while k < log_size
        invariant
            k <= log_size <= 31,
            factors@ == mappings(log_size as nat, point.x, point.y),
            basis@ == basis_s(mappings(k as nat, point.x, point.y)),
        decreases log_size - k,
    {
        // The high half is the low half scaled by the factor.
        let m = factors[(log_size - 1 - k) as usize];
        let len = basis.len();
        let ghost low = basis@;
        proof {
            lemma_basis_len(mappings(k as nat, point.x, point.y));
            lemma_pow2_bound(k as nat);
            lemma_mappings_rest((k + 1) as nat, point.x, point.y);
        }
        for i in 0..len
            invariant
                len == low.len(),
                basis@ == low + low.take(i as int).map_values(|b: QM31| b.times(m)),
        {
            let b = basis[i].mul(m);
            basis.push(b);
            proof {
                assert(low.take(i + 1).map_values(|b: QM31| b.times(m)) =~= low.take(
                    i as int,
                ).map_values(|b: QM31| b.times(m)).push(low[i as int].times(m)));
            }
        }
        proof {
            assert(low.take(len as int) =~= low);
        }
        k = k + 1;
    }
    basis
}

/// Scaling by a base field element is multiplying by it as a secure field element.
pub proof fn lemma_scaled_is_times(b: QM31, c: M31)
    ensures
        b.scaled(c) == b.times(embed(c)),
{
    lemma_coordinates(b, embed(c), c);
    lemma_scaled_cm31(b.0, c);
    lemma_scaled_cm31(b.1, c);
    let k = CM31(c, M31(0));
    lemma_mul_zero(b.1);
    lemma_mul_zero(b.0);
    lemma_mul_zero(u_squared());
    CM31::law_add_zero(b.0.times(k));
    CM31::law_canon_results(b.0, k);
    CM31::law_canon_results(b.1, k);
    CM31::law_add_comm(CM31::zero_el(), b.1.times(k));
    CM31::law_add_zero(b.1.times(k));
}

pub proof fn lemma_scaled_cm31(b: CM31, c: M31)
    ensures
        b.scaled(c) == b.times(CM31(c, M31(0))),
{
    lemma_mul_zero(b.0);
    lemma_mul_zero(b.1);
    let x = b.0.times(c);
    M31::law_sub(x, M31(0));
    assert(M31(0).opposite() == M31(0));
    M31::law_add_zero(x);
    M31::law_canon_results(b.0, c);
    M31::law_canon_results(b.1, c);
    M31::law_add_comm(M31(0), b.1.times(c));
    M31::law_add_zero(b.1.times(c));
}

/// The terms `coeffs[i] * basis[i]`.
pub open spec fn scaled_terms(coeffs: Seq<M31>, basis: Seq<QM31>) -> Seq<QM31> {
    Seq::new(coeffs.len(), |i: int| basis[i].scaled(coeffs[i]))
}

/// The inner product of base field values with secure field weights.
pub open spec fn dot_s(coeffs: Seq<M31>, basis: Seq<QM31>) -> QM31 {
    sum_s(scaled_terms(coeffs, basis))
}

/// The inner product of the coefficients with the basis at a point is the value at the point.
pub proof fn lemma_dot_is_value(coeffs: Seq<M31>, n: nat, p: CirclePoint<QM31>)
    requires
        coeffs.len() == pow2(n),
    ensures
        dot_s(coeffs, basis_s(mappings(n, p.x, p.y))) == poly_at_secure(coeffs, n, p).canon(),
        n > 0 ==> dot_s(coeffs, basis_s(mappings(n, p.x, p.y))) == poly_at_secure(coeffs, n, p),
{
    let f = mappings(n, p.x, p.y);
    let basis = basis_s(f);
    let e = embed_all(coeffs);
    assert(scaled_terms(coeffs, basis) =~= products(e, basis)) by {
        assert forall|i: int| 0 <= i < coeffs.len() implies scaled_terms(coeffs, basis)[i]
            == products(e, basis)[i] by {
            lemma_scaled_is_times(basis[i], coeffs[i]);
        }
    }
    lemma_fold_is_dot(e, f);
}

/// Four partial sums after one more term has been added to each.
proof fn lemma_four_sums<F: Field>(terms: Seq<F>, i: int, a0: F, a1: F, a2: F, a3: F)
    requires
        0 <= i,
        i + 4 <= terms.len(),
        forall|k: int| 0 <= k < terms.len() ==> (#[trigger] terms[k]).canon() == terms[k],
        a0.plus(a1).plus(a2).plus(a3) == sum_s(terms.take(i)),
    ensures
        a0.plus(terms[i]).plus(a1.plus(terms[i + 1])).plus(a2.plus(terms[i + 2])).plus(
            a3.plus(terms[i + 3]),
        ) == sum_s(terms.take(i + 4)),
{
    let (t0, t1, t2, t3) = (terms[i], terms[i + 1], terms[i + 2], terms[i + 3]);
    lemma_add_swap_middle(a0, t0, a1, t1);
    lemma_add_swap_middle(a0.plus(a1), t0.plus(t1), a2, t2);
    lemma_add_swap_middle(a0.plus(a1).plus(a2), t0.plus(t1).plus(t2), a3, t3);
    let t = terms.subrange(i, i + 4);
    assert(terms.take(i + 4) =~= terms.take(i) + t);
    lemma_sum_concat(terms.take(i), t);
    reveal_with_fuel(sum_s, 5);
    let z = F::zero_el();
    F::law_add_comm(z, t0);
    F::law_add_zero(t0);
    let u3 = t.drop_last();
    let u2 = u3.drop_last();
    let u1 = u2.drop_last();
    assert(sum_s(u1.drop_last()) == z);
    assert(sum_s(u1) == z.plus(t0));
    assert(sum_s(u2) == sum_s(u1).plus(t1));
    assert(sum_s(u3) == sum_s(u2).plus(t2));
}

pub proof fn lemma_scaled_canonical(b: QM31, c: M31)
    ensures
        b.scaled(c).canon() == b.scaled(c),
{
    lemma_scaled_is_times(b, c);
    QM31::law_canon_results(b, embed(c));
}

/// The value of a polynomial from the basis column at a point, in four interleaved sums.
pub fn eval_at_point_with_basis(poly: &CircleCoefficients, basis: &Vec<QM31>) -> (r: QM31)
    requires
        poly.coeffs.len() == basis.len(),
    ensures
        r == dot_s(poly.coeffs@, basis@),
{
    let n = basis.len();
    let ghost terms = scaled_terms(poly.coeffs@, basis@);
    let mut a0 = QM31::zero();
    let mut a1 = QM31::zero();
    let mut a2 = QM31::zero();
    let mut a3 = QM31::zero();
    let mut i: usize = 0;
    proof {
        let z = QM31::zero_el();
        QM31::law_add_zero(z);
        QM31::law_canon_results(z, z);
        assert(terms.take(0).len() == 0);
        assert forall|k: int| 0 <= k < terms.len() implies (#[trigger] terms[k]).canon()
            == terms[k] by {
            lemma_scaled_canonical(basis@[k], poly.coeffs@[k]);
        }
    }
    while n - i >= 4
        invariant
            i <= n,
            n == basis.len(),
            n == poly.coeffs.len(),
            terms == scaled_terms(poly.coeffs@, basis@),
            forall|k: int| 0 <= k < terms.len() ==> (#[trigger] terms[k]).canon() == terms[k],
            a0.plus(a1).plus(a2).plus(a3) == sum_s(terms.take(i as int)),
        decreases n - i,
    {
        let t0 = basis[i].mul_m31(poly.coeffs[i]);
        let t1 = basis[i + 1].mul_m31(poly.coeffs[i + 1]);
        let t2 = basis[i + 2].mul_m31(poly.coeffs[i + 2]);
        let t3 = basis[i + 3].mul_m31(poly.coeffs[i + 3]);
        proof {
            lemma_four_sums(terms, i as int, a0, a1, a2, a3);
        }
        a0 = a0.add(t0);
        a1 = a1.add(t1);
        a2 = a2.add(t2);
        a3 = a3.add(t3);
        i = i + 4;
    }
    let mut sum = a0.add(a1).add(a2).add(a3);
    while i < n
        invariant
            i <= n,
            n == basis.len(),
            n == poly.coeffs.len(),
            terms == scaled_terms(poly.coeffs@, basis@),
            sum == sum_s(terms.take(i as int)),
        decreases n - i,
    {
        proof {
            assert(terms.take(i + 1).drop_last() =~= terms.take(i as int));
            assert(terms.take(i + 1).last() == terms[i as int]);
        }
        sum = sum.add(basis[i].mul_m31(poly.coeffs[i]));
        i = i + 1;
    }
    assert(terms.take(n as int) =~= terms);
    sum
}

/// Rows of the basis that are streamed together.
pub const BAND: usize = 16384;

/// The partial inner product over rows `start .. end`, coordinate by coordinate.
fn band_sum(coeffs: &Vec<M31>, coords: &[Vec<M31>; 4], start: usize, end: usize, Ghost(basis): Ghost<
    Seq<QM31>,
>) -> (r: [M31; 4])
    requires
        start <= end <= coeffs.len(),
        basis.len() == coeffs.len(),
        forall|k: int| 0 <= k < 4 ==> (#[trigger] coords@[k]).len() == basis.len(),
        forall|i: int| #![trigger basis[i]]
            0 <= i < basis.len() ==> basis[i] == QM31(
                CM31(coords@[0]@[i], coords@[1]@[i]),
                CM31(coords@[2]@[i], coords@[3]@[i]),
            ),
    ensures
        QM31(CM31(r@[0], r@[1]), CM31(r@[2], r@[3])) == sum_s(
            scaled_terms(coeffs@, basis).subrange(start as int, end as int),
        ),
{
    let ghost terms = scaled_terms(coeffs@, basis);
    let mut s0 = M31(0);
    let mut s1 = M31(0);
    let mut s2 = M31(0);
    let mut s3 = M31(0);
    let mut i: usize = start;
    while i < end
        invariant
            start <= i <= end,
            end <= coeffs.len(),
            basis.len() == coeffs.len(),
            terms == scaled_terms(coeffs@, basis),
            forall|k: int| 0 <= k < 4 ==> (#[trigger] coords@[k]).len() == basis.len(),
            forall|i: int| #![trigger basis[i]]
                0 <= i < basis.len() ==> basis[i] == QM31(
                    CM31(coords@[0]@[i], coords@[1]@[i]),
                    CM31(coords@[2]@[i], coords@[3]@[i]),
                ),
            QM31(CM31(s0, s1), CM31(s2, s3)) == sum_s(terms.subrange(start as int, i as int)),
        decreases end - i,
    {
        let c = coeffs[i];
        proof {
            let part = terms.subrange(start as int, i + 1);
            assert(part.drop_last() =~= terms.subrange(start as int, i as int));
            assert(part.last() == basis[i as int].scaled(c));
            lemma_coordinates(sum_s(part.drop_last()), part.last(), c);
            lemma_coordinates(basis[i as int], part.last(), c);
            assert(coords@[0].len() == basis.len() && coords@[1].len() == basis.len()
                && coords@[2].len() == basis.len() && coords@[3].len() == basis.len());
        }
        s0 = s0.add(coords[0][i].mul(c));
        s1 = s1.add(coords[1][i].mul(c));
        s2 = s2.add(coords[2][i].mul(c));
        s3 = s3.add(coords[3][i].mul(c));
        i = i + 1;
    }
    [s0, s1, s2, s3]
}

/// The four coordinate columns of a secure column.
fn coordinate_columns(basis: &Vec<QM31>) -> (r: [Vec<M31>; 4])
    ensures
        forall|k: int| 0 <= k < 4 ==> (#[trigger] r@[k]).len() == basis.len(),
        forall|i: int| #![trigger basis@[i]]
            0 <= i < basis.len() ==> basis@[i] == QM31(
                CM31(r@[0]@[i], r@[1]@[i]),
                CM31(r@[2]@[i], r@[3]@[i]),
            ),
{
    let n = basis.len();
    let mut c0: Vec<M31> = Vec::with_capacity(n);
    let mut c1: Vec<M31> = Vec::with_capacity(n);
    let mut c2: Vec<M31> = Vec::with_capacity(n);
    let mut c3: Vec<M31> = Vec::with_capacity(n);
    for i in 0..n
        invariant
            n == basis.len(),
            c0.len() == i,
            c1.len() == i,
            c2.len() == i,
            c3.len() == i,
            forall|k: int| #![trigger basis@[k]]
                0 <= k < i ==> basis@[k] == QM31(
                    CM31(c0@[k], c1@[k]),
                    CM31(c2@[k], c3@[k]),
                ),
    {
        let b = basis[i];
        c0.push(b.0.0);
        c1.push(b.0.1);
        c2.push(b.1.0);
        c3.push(b.1.1);
    }
    [c0, c1, c2, c3]
}

/// The values of many polynomials from one shared basis column.
///
/// From a certain size on the basis is split into its coordinates once and streamed in bands;
/// the values are the same.
pub fn eval_many_at_point_with_basis(polys: &Vec<&CircleCoefficients>, basis: &Vec<QM31>) -> (r: Vec<
    QM31,
>)
    requires
        forall|p: int| 0 <= p < polys.len() ==> (#[trigger] polys@[p]).coeffs.len() == basis.len(),
    ensures
        r.len() == polys.len(),
        forall|p: int|
            0 <= p < r.len() ==> #[trigger] r@[p] == dot_s(polys@[p].coeffs@, basis@),
{
    let n = basis.len();
    let count = polys.len();
    let mut r: Vec<QM31> = Vec::with_capacity(count);
    if count < 2 || n < 4096 || n % 16 != 0 {
        for p in 0..count
            invariant
                count == polys.len(),
                r.len() == p,
                forall|p: int|
                    0 <= p < polys.len() ==> (#[trigger] polys@[p]).coeffs.len() == basis.len(),
                forall|k: int|
                    0 <= k < p ==> #[trigger] r@[k] == dot_s(polys@[k].coeffs@, basis@),
        {
            r.push(eval_at_point_with_basis(polys[p], basis));
        }
        return r;
    }
    let coords = coordinate_columns(basis);
    for p in 0..count
        invariant
            count == polys.len(),
            n == basis.len(),
            r.len() == p,
            forall|p: int|
                0 <= p < polys.len() ==> (#[trigger] polys@[p]).coeffs.len() == basis.len(),
            forall|k: int| 0 <= k < 4 ==> (#[trigger] coords@[k]).len() == basis.len(),
            forall|i: int| #![trigger basis@[i]]
                0 <= i < basis.len() ==> basis@[i] == QM31(
                    CM31(coords@[0]@[i], coords@[1]@[i]),
                    CM31(coords@[2]@[i], coords@[3]@[i]),
                ),
            forall|k: int| 0 <= k < p ==> #[trigger] r@[k] == dot_s(polys@[k].coeffs@, basis@),
    {
        let poly = polys[p];
        let ghost terms = scaled_terms(poly.coeffs@, basis@);
        let mut acc = QM31::zero();
        let mut start: usize = 0;
        proof {
            assert(terms.take(0).len() == 0);
        }
        while start < n
            invariant
                start <= n,
                n == basis.len(),
                poly.coeffs.len() == n,
                terms == scaled_terms(poly.coeffs@, basis@),
                forall|k: int| 0 <= k < 4 ==> (#[trigger] coords@[k]).len() == basis.len(),
                forall|i: int| #![trigger basis@[i]]
                    0 <= i < basis.len() ==> basis@[i] == QM31(
                        CM31(coords@[0]@[i], coords@[1]@[i]),
                        CM31(coords@[2]@[i], coords@[3]@[i]),
                    ),
                acc == sum_s(terms.take(start as int)),
            decreases n - start,
        {
            let end: usize = if n - start > BAND {
                start + BAND
            } else {
                n
            };
            let part = band_sum(&poly.coeffs, &coords, start, end, Ghost(basis@));
            proof {
                let mid = terms.subrange(start as int, end as int);
                lemma_sum_concat(terms.take(start as int), mid);
                assert(terms.take(end as int) =~= terms.take(start as int) + mid);
            }
            acc = acc.add(QM31::from_m31_array(part));
            start = end;
        }
        assert(terms.take(n as int) =~= terms);
        r.push(acc);
    }
    r
}

} // verus!
