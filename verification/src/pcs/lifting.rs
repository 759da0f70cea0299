//! A sample is the value of a column as it was committed: lifted to the size of its tree.

use vstd::arithmetic::power2::pow2;
use vstd::prelude::*;

use super::agreement::{canonical, lemma_fold_of_canonical};
use super::samples::{
    coefficient_value, evaluation_value, folded_at, is_place, lemma_evaluation_value, point_at,
    poly_at_place, value_at,
};
use super::scheme::{lifting_of, openable, refers_to, OpenedValues};
use super::whole_proof::{lemma_doubled_on_circle, points_on_circle};
use crate::circle::{norm_of, CirclePoint};
use crate::fields::m31::M31;
use crate::fields::qm31::QM31;
use crate::fields::Field;
use crate::fri::{lemma_embed, lemma_fold_canonical};
use crate::poly::barycentric::weights_exist;
use crate::poly::circle_poly::{CircleEvaluation, EvalsOrCoeffs, Poly};
use crate::poly::domain::{canonic_domain, lemma_canonic_domain_wf};
use crate::poly::extension::{committed, evaluates, extended, interpolates};
use crate::poly::fold::{
    embed_all, lemma_poly_at_padded, mappings, padded, poly_at, poly_at_secure,
};
use crate::poly::lifted::{
    lemma_embed_widened, lemma_lifted_point, lemma_widened_by_value, lemma_widened_len, widened_by,
};
use crate::poly::unique::{lemma_canonic_domain_regular, lemma_values_determine_polynomial};
use crate::utils::{lemma_lifted_row, lemma_log_of, lifted_row};
use crate::vcs::hasher::MerkleHasherLifted;
use crate::vcs::merkle::lifted_value;

verus! {

/// `c` are the coefficients of a column lifted to `2^height` rows: in every row of the domain of
/// that size the polynomial takes the value that the leaf of the row holds of the column.
pub open spec fn is_lifted_column(values: Seq<M31>, height: nat, c: Seq<M31>) -> bool {
    &&& c.len() == pow2(height)
    &&& forall|i: int|
        #![trigger lifted_value(values, i, height)]
        0 <= i < pow2(height) ==> poly_at(
            c,
            height,
            canonic_domain(height).reversed_at(i).x,
            canonic_domain(height).reversed_at(i).y,
        ).canon() == lifted_value(values, i, height).canon()
}

/// `b` are the coefficients of a column on the canonical domain of its size.
spec fn is_column(evals: CircleEvaluation, b: Seq<M31>) -> bool {
    let n = evals.domain.log_size_s();
    &&& evals.wf()
    &&& 1 <= n <= 30
    &&& evals.domain == canonic_domain(n)
    &&& interpolates(evals, b)
}

/// The polynomial of a column, at doubled points, is that of the lifted column.
proof fn lemma_widened_is_lifted(evals: CircleEvaluation, b: Seq<M31>, height: nat)
    requires
        is_column(evals, b),
        evals.domain.log_size_s() <= height <= 30,
    ensures
        is_lifted_column(
            evals.values@,
            height,
            widened_by(b, (height - evals.domain.log_size_s()) as nat),
        ),
{
    let n = evals.domain.log_size_s();
    let r = (height - n) as nat;
    let w = widened_by(b, r);
    let large = canonic_domain(height);
    lemma_canonic_domain_wf(height);
    lemma_canonic_domain_wf(n);
    lemma_widened_len(b, n, r);
    lemma_log_of(evals.values@.len(), n);
    assert forall|i: int|
        #![trigger lifted_value(evals.values@, i, height)]
        0 <= i < pow2(height) implies poly_at(
        w,
        height,
        large.reversed_at(i).x,
        large.reversed_at(i).y,
    ).canon() == lifted_value(evals.values@, i, height).canon() by {
        let p = large.reversed_at(i);
        let j = lifted_row(i, r);
        lemma_lifted_row(i, height, n);
        lemma_lifted_point(n, r, i);
        lemma_domain_on_circle(height, i);
        lemma_widened_by_value(b, n, r, p);
        assert(lifted_value(evals.values@, i, height) == evals.values@[j]);
        let q = evals.domain.reversed_at(j);
        assert(poly_at(b, n, q.x, q.y) == evals.values@[j].canon());
        M31::law_canon_results(evals.values@[j], evals.values@[j]);
    }
}

/// A committed column can be lifted: there is a polynomial that takes in every row of the lifted
/// domain the value that the leaf of the row holds.
pub proof fn lemma_lifted_column_exists(poly: Poly, height: nat, b: Seq<M31>, k: nat) -> (c: Seq<
    M31,
>)
    requires
        samples_lifted(poly, height, b, k),
    ensures
        is_lifted_column(poly.evals.values@, height, c),
{
    let n = poly.evals.domain.log_size_s();
    let full = canonical(padded(b, pow2(n)));
    lemma_extension_is_column(b, k, poly.evals);
    lemma_widened_is_lifted(poly.evals, full, height);
    widened_by(full, (height - n) as nat)
}

/// A lifted column has one polynomial: that of the column, at doubled points.
proof fn lemma_lifted_is_widened(evals: CircleEvaluation, b: Seq<M31>, height: nat, c: Seq<M31>)
    requires
        is_column(evals, b),
        evals.domain.log_size_s() <= height <= 30,
        is_lifted_column(evals.values@, height, c),
    ensures
        forall|k: int|
            0 <= k < c.len() ==> (#[trigger] c[k]).canon() == widened_by(
                b,
                (height - evals.domain.log_size_s()) as nat,
            )[k].canon(),
{
    let n = evals.domain.log_size_s();
    let r = (height - n) as nat;
    let w = widened_by(b, r);
    let large = canonic_domain(height);
    lemma_canonic_domain_wf(height);
    lemma_canonic_domain_wf(n);
    lemma_canonic_domain_regular(height);
    lemma_widened_len(b, n, r);
    lemma_widened_is_lifted(evals, b, height);
    assert forall|i: int| 0 <= i < large.size_s() implies #[trigger] poly_at(
        c,
        height,
        large.reversed_at(i).x,
        large.reversed_at(i).y,
    ).canon() == poly_at(w, height, large.reversed_at(i).x, large.reversed_at(i).y).canon() by {
        let v = lifted_value(evals.values@, i, height);
        M31::law_canon_results(v, v);
    }
    lemma_values_determine_polynomial(large, c, w);
}

/// The points of a canonical domain lie on the circle.
proof fn lemma_domain_on_circle(n: nat, i: int)
    requires
        1 <= n <= 30,
        0 <= i < pow2(n),
    ensures
        norm_of(canonic_domain(n).reversed_at(i)) == M31::one_el(),
{
    let d = canonic_domain(n);
    let h = d.half_coset;
    lemma_canonic_domain_wf(n);
    let k = crate::utils::bit_rev(i, n);
    crate::utils::lemma_bit_rev_range(i, n);
    if k < h.size_s() {
        crate::circle::lemma_gen_point_on_circle(h.index_s(k));
    } else {
        let p = h.at_s(k - h.size_s());
        crate::circle::lemma_gen_point_on_circle(h.index_s(k - h.size_s()));
        let y = p.y;
        crate::poly::ifft::lemma_opposite_product(y, y);
    }
}

/// The polynomials of equal coefficients are equal at secure points.
proof fn lemma_same_secure_value(a: Seq<M31>, b: Seq<M31>, n: nat, p: CirclePoint<QM31>)
    requires
        n > 0,
        a.len() == pow2(n),
        b.len() == pow2(n),
        forall|k: int| 0 <= k < a.len() ==> (#[trigger] a[k]).canon() == b[k].canon(),
    ensures
        poly_at_secure(a, n, p) == poly_at_secure(b, n, p),
{
    let (x, y) = (embed_all(a), embed_all(b));
    let f = mappings(n, p.x, p.y);
    lemma_fold_of_canonical(x, f);
    lemma_fold_of_canonical(y, f);
    assert(canonical(x) =~= canonical(y)) by {
        assert forall|k: int| 0 <= k < a.len() implies canonical(x)[k] == canonical(y)[k] by {
            lemma_embed(a[k], a[k]);
            lemma_embed(b[k], b[k]);
            assert(a[k].canon() == b[k].canon());
        }
    }
}

/// The value of a column at a doubled point is the value of the lifted column at the point.
proof fn lemma_lifted_value_at(
    evals: CircleEvaluation,
    b: Seq<M31>,
    height: nat,
    c: Seq<M31>,
    p: CirclePoint<QM31>,
)
    requires
        is_column(evals, b),
        evals.domain.log_size_s() <= height <= 30,
        is_lifted_column(evals.values@, height, c),
        norm_of(p) == QM31::one_el(),
    ensures
        poly_at_secure(c, height, p) == poly_at_secure(
            b,
            evals.domain.log_size_s(),
            p.doubled((height - evals.domain.log_size_s()) as nat),
        ),
{
    let n = evals.domain.log_size_s();
    let r = (height - n) as nat;
    lemma_widened_len(b, n, r);
    lemma_lifted_is_widened(evals, b, height, c);
    lemma_same_secure_value(c, widened_by(b, r), height, p);
    lemma_embed_widened(b, r);
    lemma_widened_by_value(embed_all(b), n, r, p);
}

/// The coefficients of a column's extension, on all of its domain.
proof fn lemma_extension_is_column(c: Seq<M31>, k: nat, evals: CircleEvaluation)
    requires
        c.len() == pow2(k),
        k <= evals.domain.log_size_s() <= 30,
        evals.domain == canonic_domain(evals.domain.log_size_s()),
        evaluates(c, k, evals),
    ensures
        is_column(evals, canonical(padded(c, pow2(evals.domain.log_size_s())))),
{
    let n = evals.domain.log_size_s();
    let full = padded(c, pow2(n));
    let cc = canonical(full);
    assert forall|i: int| 0 <= i < cc.len() implies (#[trigger] cc[i]).canon() == cc[i] by {
        M31::law_canon_results(full[i], full[i]);
    }
    assert forall|j: int| 0 <= j < evals.values.len() implies poly_at(
        cc,
        n,
        evals.domain.reversed_at(j).x,
        evals.domain.reversed_at(j).y,
    ) == #[trigger] evals.values@[j].canon() by {
        let q = evals.domain.reversed_at(j);
        lemma_fold_of_canonical(full, mappings(n, q.x, q.y));
        lemma_fold_canonical(full, mappings(n, q.x, q.y));
        lemma_poly_at_padded(c, k, n, q.x, q.y);
        let v = poly_at(c, k, q.x, q.y);
        M31::law_canon_results(v, v);
        assert(evals.values@[j] == v.canon());
    }
    assert(interpolates(evals, cc));
}

/// A column of a tree lifted to a height, sampled at a point of the circle.
pub open spec fn samples_lifted(poly: Poly, height: nat, b: Seq<M31>, k: nat) -> bool {
    let n = poly.evals.domain.log_size_s();
    &&& b.len() == pow2(k)
    &&& k <= n <= height <= 30
    &&& poly.evals.domain == canonic_domain(n)
    &&& evaluates(b, k, poly.evals)
}

/// A sample from evaluations is the value at the sampled point of the column as it was committed:
/// lifted to the height of the tree, row by row as the leaves hold it.
pub proof fn lemma_evaluation_of_lifted_column(
    polys: Seq<Vec<&Poly>>,
    points: Seq<Vec<Vec<CirclePoint<QM31>>>>,
    height: nat,
    place: (usize, usize, usize),
    b: Seq<M31>,
    k: nat,
    c: Seq<M31>,
)
    requires
        samples_lifted(*poly_at_place(polys, place), height, b, k),
        norm_of(point_at(points, place)) == QM31::one_el(),
        weights_exist(
            poly_at_place(polys, place).evals.domain.log_size_s(),
            folded_at(polys, points, height, place),
        ),
        is_lifted_column(poly_at_place(polys, place).evals.values@, height, c),
    ensures
        evaluation_value(polys, points, height, place) == poly_at_secure(
            c,
            height,
            point_at(points, place),
        ),
{
    let evals = poly_at_place(polys, place).evals;
    let n = evals.domain.log_size_s();
    let p = point_at(points, place);
    let full = canonical(padded(b, pow2(n)));
    lemma_extension_is_column(b, k, evals);
    lemma_lifted_value_at(evals, full, height, c, p);
    lemma_doubled_on_circle(p, (height - n) as nat);
    lemma_evaluation_value(polys, points, height, place, full);
}

/// A sample from coefficients is the value at the sampled point of the column as it was committed:
/// lifted to the height of the tree, row by row as the leaves hold it.
pub proof fn lemma_coefficients_of_lifted_column(
    polys: Seq<Vec<&Poly>>,
    points: Seq<Vec<Vec<CirclePoint<QM31>>>>,
    height: nat,
    place: (usize, usize, usize),
    c: Seq<M31>,
)
    requires
        ({
            let poly = poly_at_place(polys, place);
            &&& poly.coeffs is Some
            &&& poly.coeffs->0.wf()
            &&& samples_lifted(
                *poly,
                height,
                poly.coeffs->0.coeffs@,
                poly.coeffs->0.log_size as nat,
            )
        }),
        norm_of(point_at(points, place)) == QM31::one_el(),
        is_lifted_column(poly_at_place(polys, place).evals.values@, height, c),
    ensures
        coefficient_value(polys, points, height, place) == poly_at_secure(
            c,
            height,
            point_at(points, place),
        ),
{
    let poly = poly_at_place(polys, place);
    let evals = poly.evals;
    let n = evals.domain.log_size_s();
    let p = point_at(points, place);
    let (b, k) = (poly.coeffs->0.coeffs@, poly.coeffs->0.log_size as nat);
    let full = padded(b, pow2(n));
    lemma_extension_is_column(b, k, evals);
    lemma_lifted_value_at(evals, canonical(full), height, c, p);
    super::samples::lemma_coefficient_value(polys, points, height, place);
    let q = p.doubled((height - n) as nat);
    let e = embed_all(full);
    assert(embed_all(canonical(full)) =~= canonical(e)) by {
        assert forall|i: int| 0 <= i < full.len() implies embed_all(canonical(full))[i]
            == canonical(e)[i] by {
            lemma_embed(full[i], full[i]);
        }
    }
    assert(e =~= padded(embed_all(b), pow2(n))) by {
        lemma_embed(M31(0), M31(0));
    }
    lemma_fold_of_canonical(e, mappings(n, q.x, q.y));
    lemma_fold_canonical(e, mappings(n, q.x, q.y));
    lemma_poly_at_padded(embed_all(b), k, n, q.x, q.y);
}

impl<'a, H: MerkleHasherLifted> OpenedValues<'a, H> {
    /// What an opening gives for a column is the value at the sampled point of the polynomial whose
    /// value in every row of the lifted domain is what the leaf of that row holds of the column.
    pub proof fn lemma_opens_lifted_columns(
        self,
        columns: Seq<Seq<EvalsOrCoeffs>>,
        points: Seq<Vec<Vec<CirclePoint<QM31>>>>,
        place: (usize, usize, usize),
        c: Seq<M31>,
    )
        requires
            self.scheme.wf(),
            self.scheme.committed_to(columns),
            self.scheme.can_open(points),
            points_on_circle(points),
            self.opened(self.scheme, points),
            is_place(points, place),
            is_lifted_column(
                self.scheme.trees@[place.0 as int].polynomials@[place.1 as int].evals.values@,
                lifting_of(self.scheme.trees@),
                c,
            ),
        ensures
            value_at(self.samples@, place) == poly_at_secure(
                c,
                lifting_of(self.scheme.trees@),
                point_at(points, place),
            ),
    {
        let scheme = self.scheme;
        let height = lifting_of(scheme.trees@);
        let (t, j) = (place.0 as int, place.1 as int);
        let polys = choose|polys: Seq<Vec<&Poly>>| #[trigger]
            refers_to(scheme.trees@, polys) && self.holds_values_of(polys, points);
        let by_coeffs = scheme.store_polynomials_coefficients;
        assert(openable(scheme.trees@, polys, points, by_coeffs));
        assert(polys[t].len() == points[t].len());
        assert(scheme.trees@.last().wf());
        assert(polys[t]@.len() == scheme.trees@[t].polynomials@.len());
        assert(*polys[t]@[j] == scheme.trees@[t].polynomials@[j]);
        let poly = poly_at_place(polys, place);
        assert(super::samples::poly_fits(*polys[t]@[j], height, by_coeffs));
        let cs = columns[t];
        assert(scheme.columns_fit(cs) && scheme.is_tree_of(cs, scheme.trees@[t]));
        let log_blowup = scheme.config.fri_config.log_blowup_factor as nat;
        assert(cs[j].fits(scheme.twiddles.root_coset, log_blowup));
        assert(committed(cs[j], log_blowup, by_coeffs, *poly));
        let b = lemma_committed_coefficients(cs[j], *scheme.twiddles, log_blowup, by_coeffs, *poly);
        let k = cs[j].log_size_s();
        if by_coeffs {
            lemma_coefficients_of_lifted_column(polys, points, height, place, c);
        } else {
            lemma_evaluation_of_lifted_column(polys, points, height, place, b, k, c);
        }
    }
}

/// The coefficients of a committed column.
proof fn lemma_committed_coefficients(
    column: EvalsOrCoeffs,
    twiddles: crate::poly::twiddles::TwiddleTree,
    log_blowup: nat,
    store: bool,
    poly: Poly,
) -> (b: Seq<M31>)
    requires
        column.fits(twiddles.root_coset, log_blowup),
        committed(column, log_blowup, store, poly),
    ensures
        ({
            let n = poly.evals.domain.log_size_s();
            let k = column.log_size_s();
            &&& b.len() == pow2(k)
            &&& k <= n <= 30
            &&& poly.evals.domain == canonic_domain(n)
            &&& evaluates(b, k, poly.evals)
            &&& store ==> poly.coeffs is Some && poly.coeffs->0.wf() && poly.coeffs->0.coeffs@ == b
                && poly.coeffs->0.log_size == k
        }),
{
    reveal(EvalsOrCoeffs::fits);
    reveal(committed);
    let n = column.log_size_s();
    let b = choose|b: Seq<M31>| #[trigger]
        column.has_coeffs(b) && extended(b, n, log_blowup, store, poly);
    lemma_canonic_domain_wf(n + log_blowup);
    b
}

} // verus!
