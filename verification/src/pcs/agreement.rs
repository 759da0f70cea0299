//! The two ways of sampling a column agree.

use vstd::arithmetic::power2::{lemma2_to64, pow2};
use vstd::prelude::*;

use super::samples::{
    coefficient_value, evaluation_value, folded_at, lemma_coefficient_value,
    lemma_evaluation_value, poly_at_place,
};
use crate::circle::{norm_of, CirclePoint};
use crate::fields::m31::M31;
use crate::fields::qm31::QM31;
use crate::fields::Field;
use crate::fri::{lemma_embed, lemma_fold_canonical};
use crate::poly::barycentric::weights_exist;
use crate::poly::circle_poly::Poly;
use crate::poly::domain::canonic_domain;
use crate::poly::extension::{evaluates, interpolates};
use crate::poly::fold::{
    embed_all, fold_s, lemma_poly_at_padded, mappings, padded, poly_at, poly_at_secure,
};
use crate::utils::lemma_pow2_double;

verus! {

/// Canonical representatives, entry by entry.
pub open spec fn canonical<F: Field>(v: Seq<F>) -> Seq<F> {
    v.map_values(|a: F| a.canon())
}

/// Folding sees only the elements, not their representatives.
pub proof fn lemma_fold_of_canonical<F: Field>(v: Seq<F>, factors: Seq<F>)
    requires
        v.len() == pow2(factors.len()),
    ensures
        fold_s(canonical(v), factors).canon() == fold_s(v, factors).canon(),
        factors.len() > 0 ==> fold_s(canonical(v), factors) == fold_s(v, factors),
    decreases factors.len(),
{
    let u = canonical(v);
    if factors.len() == 0 {
        lemma2_to64();
        F::law_canon_results(v[0], v[0]);
    } else {
        let half = v.len() as int / 2;
        let rest = factors.drop_first();
        lemma_pow2_double(factors.len());
        let (a, b) = (v.subrange(0, half), v.subrange(half, v.len() as int));
        assert(u.subrange(0, half) =~= canonical(a));
        assert(u.subrange(half, u.len() as int) =~= canonical(b));
        lemma_fold_of_canonical(a, rest);
        lemma_fold_of_canonical(b, rest);
        let f = factors[0];
        let (x, y) = (fold_s(a, rest), fold_s(b, rest));
        let (x2, y2) = (fold_s(canonical(a), rest), fold_s(canonical(b), rest));
        F::law_canon_args(y, f);
        F::law_canon_args(y2, f);
        assert(y.times(f) == y2.times(f));
        F::law_canon_args(x, y.times(f));
        F::law_canon_args(x2, y.times(f));
    }
}

/// Columns sampled by their coefficients and by their extensions have the same values: whether a
/// scheme keeps coefficients does not change what it opens.
pub proof fn lemma_samples_agree(
    polys: Seq<Vec<&Poly>>,
    points: Seq<Vec<Vec<CirclePoint<QM31>>>>,
    lifting_log_size: nat,
    place: (usize, usize, usize),
)
    requires
        ({
            let poly = poly_at_place(polys, place);
            let n = poly.evals.domain.log_size_s();
            let p = folded_at(polys, points, lifting_log_size, place);
            &&& poly.coeffs is Some
            &&& poly.coeffs->0.wf()
            &&& poly.evals.wf()
            &&& poly.coeffs->0.log_size <= n <= 30
            &&& poly.evals.domain == canonic_domain(n)
            &&& evaluates(poly.coeffs->0.coeffs@, poly.coeffs->0.log_size as nat, poly.evals)
            &&& norm_of(p) == QM31::one_el()
            &&& weights_exist(n, p)
        }),
    ensures
        coefficient_value(polys, points, lifting_log_size, place) == evaluation_value(
            polys,
            points,
            lifting_log_size,
            place,
        ),
{
    let poly = poly_at_place(polys, place);
    let evals = poly.evals;
    let n = evals.domain.log_size_s();
    let k = poly.coeffs->0.log_size as nat;
    let c = poly.coeffs->0.coeffs@;
    let p = folded_at(polys, points, lifting_log_size, place);
    let full = padded(c, pow2(n));
    let cc = canonical(full);
    // The padded coefficients interpolate the extension.
    assert forall|i: int| 0 <= i < cc.len() implies (#[trigger] cc[i]).canon() == cc[i] by {
        M31::law_canon_results(full[i], full[i]);
    }
    assert forall|j: int| 0 <= j < evals.values.len() implies poly_at(
        cc,
        n,
        evals.domain.reversed_at(j).x,
        evals.domain.reversed_at(j).y,
    ) == #[trigger] evals.values@[j].canon() by {
        let q = evals.domain.reversed_at(j);
        lemma_fold_of_canonical(full, mappings(n, q.x, q.y));
        lemma_fold_canonical(full, mappings(n, q.x, q.y));
        lemma_poly_at_padded(c, k, n, q.x, q.y);
        let v = poly_at(c, k, q.x, q.y);
        M31::law_canon_results(v, v);
        assert(evals.values@[j] == v.canon());
    }
    assert(interpolates(evals, cc));
    lemma_evaluation_value(polys, points, lifting_log_size, place, cc);
    lemma_coefficient_value(polys, points, lifting_log_size, place);
    // Both are the value at the point.
    let e = embed_all(full);
    assert(embed_all(cc) =~= canonical(e)) by {
        assert forall|i: int| 0 <= i < cc.len() implies embed_all(cc)[i] == canonical(e)[i] by {
            lemma_embed(full[i], full[i]);
        }
    }
    assert(e =~= padded(embed_all(c), pow2(n))) by {
        lemma_embed(M31(0), M31(0));
    }
    lemma_fold_of_canonical(e, mappings(n, p.x, p.y));
    lemma_fold_canonical(e, mappings(n, p.x, p.y));
    lemma_poly_at_padded(embed_all(c), k, n, p.x, p.y);
    let v = poly_at_secure(c, k, p);
    QM31::law_canon_results(v, v);
}

} // verus!
