//! Keeping coefficients changes how samples are computed, and never the proof.

use vstd::prelude::*;
use vstd::relations::{sorted_by, total_ordering};

use super::agreement::lemma_samples_agree;
use super::channel::{Channel, Step};
use super::openings::{opens, ordered, CommitmentSchemeProof, FriOutcome, GroundValues};
use super::samples::{
    coefficient_value, evaluation_value, folded_at, is_place, point_at, poly_at_place, same_shape,
    samples_for, tree_samples_for, value_at, weights_defined, PointSample,
};
use super::scheme::{
    column_values_s, flat_values_s, lifting_of, openable, refers_to, tree_values_s,
    CommitmentSchemeProver, OpenedValues,
};
use super::tree::{largest_log, lemma_root_determined, values_of, CommitmentTreeProver};
use crate::circle::{lemma_norm_join, norm_of, CirclePoint};
use crate::fields::m31::M31;
use crate::fields::qm31::QM31;
use crate::fields::Field;
use crate::poly::circle_poly::{EvalsOrCoeffs, Poly};
use crate::poly::domain::{canonic_domain, lemma_canonic_domain_wf};
use crate::poly::extension::{committed, evaluates, extended};
use crate::poly::fold::poly_at;
use crate::poly::twiddles::TwiddleTree;
use crate::poly::unique::{lemma_interpolant_unique, lemma_served_domain_regular};
use crate::vcs::hasher::MerkleHasherLifted;
use crate::vcs::prover::MerkleDecommitmentLifted;

verus! {

// ---------------------------------------------------------------------------------------------
// Trees.

/// The same evaluations on the same domain.
pub open spec fn same_extension(a: Poly, b: Poly) -> bool {
    a.evals.domain == b.evals.domain && a.evals.values@ == b.evals.values@
}

/// Trees of the same columns: with the same hashes and the same salts.
pub open spec fn same_tree<H: MerkleHasherLifted>(
    a: CommitmentTreeProver<H>,
    b: CommitmentTreeProver<H>,
) -> bool {
    &&& a.polynomials@.len() == b.polynomials@.len()
    &&& forall|c: int|
        0 <= c < a.polynomials@.len() ==> same_extension(
            #[trigger] a.polynomials@[c],
            #[trigger] b.polynomials@[c],
        )
    &&& a.commitment.height() == b.commitment.height()
    &&& a.commitment.leaves() == b.commitment.leaves()
    &&& a.commitment.root_s() == b.commitment.root_s()
    &&& a.commitment.salt_seed == b.commitment.salt_seed
}

/// A column has one extension, whether its coefficients are kept or not.
pub proof fn lemma_same_extension(
    twiddles: TwiddleTree,
    column: EvalsOrCoeffs,
    log_blowup: nat,
    keep_a: bool,
    a: Poly,
    keep_b: bool,
    b: Poly,
)
    requires
        twiddles.wf(),
        column.fits(twiddles.root_coset, log_blowup),
        committed(column, log_blowup, keep_a, a),
        committed(column, log_blowup, keep_b, b),
    ensures
        same_extension(a, b),
{
    reveal(EvalsOrCoeffs::fits);
    reveal(committed);
    let n = column.log_size_s();
    let c = choose|c: Seq<M31>| #[trigger]
        column.has_coeffs(c) && extended(c, n, log_blowup, keep_a, a);
    let d = choose|d: Seq<M31>| #[trigger]
        column.has_coeffs(d) && extended(d, n, log_blowup, keep_b, b);
    match column {
        EvalsOrCoeffs::Evals(evals) => {
            lemma_served_domain_regular(twiddles, evals.domain);
            lemma_interpolant_unique(evals, c, d);
        },
        EvalsOrCoeffs::Coeffs(_) => {},
    }
    assert(c == d);
    lemma_one_evaluation(c, n, a, b);
}

/// A polynomial has one evaluation on a domain.
proof fn lemma_one_evaluation(c: Seq<M31>, n: nat, a: Poly, b: Poly)
    requires
        a.evals.domain == b.evals.domain,
        evaluates(c, n, a.evals),
        evaluates(c, n, b.evals),
    ensures
        same_extension(a, b),
{
    assert forall|j: int| 0 <= j < a.evals.values@.len() implies a.evals.values@[j]
        == b.evals.values@[j] by {
        assert(a.evals.values@[j] == poly_at(
            c,
            n,
            a.evals.domain.reversed_at(j).x,
            a.evals.domain.reversed_at(j).y,
        ).canon());
    }
    assert(a.evals.values@ =~= b.evals.values@);
}

proof fn lemma_same_largest(a: Seq<Poly>, b: Seq<Poly>, n: int)
    requires
        a.len() == b.len(),
        n <= a.len(),
        forall|c: int|
            0 <= c < a.len() ==> same_extension(#[trigger] a[c], #[trigger] b[c]),
    ensures
        largest_log(a, n) == largest_log(b, n),
    decreases n,
{
    if n > 0 {
        lemma_same_largest(a, b, n - 1);
        assert(same_extension(a[n - 1], b[n - 1]));
    }
}

/// Two schemes of one configuration that committed to the same columns have the same trees, and so
/// the same roots: whether one of them keeps coefficients makes no difference. Trees with salts
/// are those of the same seed.
pub proof fn lemma_trees_agree<'a, H: MerkleHasherLifted>(
    a: CommitmentSchemeProver<'a, H>,
    b: CommitmentSchemeProver<'a, H>,
    columns: Seq<Seq<EvalsOrCoeffs>>,
    t: int,
)
    requires
        a.wf(),
        b.wf(),
        a.config == b.config,
        a.committed_to(columns),
        b.committed_to(columns),
        0 <= t < columns.len(),
        a.trees@[t].commitment.salt_seed == b.trees@[t].commitment.salt_seed,
    ensures
        same_tree(a.trees@[t], b.trees@[t]),
{
    let (x, y) = (a.trees@[t], b.trees@[t]);
    let cs = columns[t];
    assert(a.columns_fit(cs) && a.is_tree_of(cs, x) && b.is_tree_of(cs, y));
    let log_blowup = a.config.fri_config.log_blowup_factor as nat;
    assert forall|c: int| 0 <= c < x.polynomials@.len() implies same_extension(
        #[trigger] x.polynomials@[c],
        #[trigger] y.polynomials@[c],
    ) by {
        assert(cs[c].fits(a.twiddles.root_coset, log_blowup));
        lemma_same_extension(
            *a.twiddles,
            cs[c],
            log_blowup,
            a.store_polynomials_coefficients,
            x.polynomials@[c],
            b.store_polynomials_coefficients,
            y.polynomials@[c],
        );
    }
    lemma_same_largest(x.polynomials@, y.polynomials@, x.polynomials@.len() as int);
    let (u, v) = (values_of(x.polynomials@), values_of(y.polynomials@));
    assert forall|k: int| 0 <= k < u.len() implies (#[trigger] u[k])@ == (#[trigger] v[k])@ by {
        assert(same_extension(x.polynomials@[k], y.polynomials@[k]));
    }
    lemma_root_determined(x, y);
}

// ---------------------------------------------------------------------------------------------
// Samples.

/// Doubling a point of the circle stays on it.
pub proof fn lemma_doubled_on_circle(p: CirclePoint<QM31>, n: nat)
    requires
        norm_of(p) == QM31::one_el(),
    ensures
        norm_of(p.doubled(n)) == QM31::one_el(),
    decreases n,
{
    if n > 0 {
        lemma_doubled_on_circle(p, (n - 1) as nat);
        let q = p.doubled((n - 1) as nat);
        lemma_norm_join(q, q);
        QM31::law_mul_one(QM31::one_el());
        QM31::law_canon_results(QM31::one_el(), QM31::one_el());
    }
}

/// The same values in the same shape.
pub open spec fn same_samples(
    a: Seq<Vec<Vec<PointSample>>>,
    b: Seq<Vec<Vec<PointSample>>>,
) -> bool {
    &&& a.len() == b.len()
    &&& forall|t: int| 0 <= t < a.len() ==> (#[trigger] a[t])@.len() == (#[trigger] b[t])@.len()
    &&& forall|t: int, c: int|
        #![trigger a[t]@[c]]
        #![trigger b[t]@[c]]
        0 <= t < a.len() && 0 <= c < a[t]@.len() ==> column_values_s(a[t]@[c]@)
            == column_values_s(b[t]@[c]@)
}

proof fn lemma_same_tree_values(
    a: Seq<Vec<Vec<PointSample>>>,
    b: Seq<Vec<Vec<PointSample>>>,
    t: int,
    c: int,
)
    requires
        same_samples(a, b),
        0 <= t < a.len(),
        c <= a[t]@.len(),
    ensures
        tree_values_s(a[t]@, c) == tree_values_s(b[t]@, c),
    decreases c,
{
    if c > 0 {
        lemma_same_tree_values(a, b, t, c - 1);
        assert(column_values_s(a[t]@[c - 1]@) == column_values_s(b[t]@[c - 1]@));
    }
}

proof fn lemma_same_flat_values(
    a: Seq<Vec<Vec<PointSample>>>,
    b: Seq<Vec<Vec<PointSample>>>,
    t: int,
)
    requires
        same_samples(a, b),
        t <= a.len(),
    ensures
        flat_values_s(a, t) == flat_values_s(b, t),
    decreases t,
{
    if t > 0 {
        lemma_same_flat_values(a, b, t - 1);
        assert(a[t - 1]@.len() == b[t - 1]@.len());
        lemma_same_tree_values(a, b, t - 1, a[t - 1]@.len() as int);
    }
}

/// Whether all sampled points lie on the circle.
pub open spec fn points_on_circle(points: Seq<Vec<Vec<CirclePoint<QM31>>>>) -> bool {
    forall|place: (usize, usize, usize)|
        #![trigger is_place(points, place)]
        is_place(points, place) ==> norm_of(point_at(points, place)) == QM31::one_el()
}

/// The value of one sample is the same from the coefficients that one scheme keeps and from the
/// evaluations of another.
proof fn lemma_place_agrees<'a, H: MerkleHasherLifted>(
    a: CommitmentSchemeProver<'a, H>,
    b: CommitmentSchemeProver<'a, H>,
    columns: Seq<Seq<EvalsOrCoeffs>>,
    points: Seq<Vec<Vec<CirclePoint<QM31>>>>,
    kept: Seq<Vec<&Poly>>,
    plain: Seq<Vec<&Poly>>,
    place: (usize, usize, usize),
)
    requires
        a.wf(),
        a.committed_to(columns),
        a.store_polynomials_coefficients,
        refers_to(a.trees@, kept),
        refers_to(b.trees@, plain),
        a.trees@.len() == b.trees@.len(),
        forall|t: int|
            0 <= t < a.trees@.len() ==> same_tree(#[trigger] a.trees@[t], #[trigger] b.trees@[t]),
        same_shape(plain, points),
        weights_defined(plain, points, lifting_of(b.trees@)),
        points_on_circle(points),
        is_place(points, place),
    ensures
        coefficient_value(kept, points, lifting_of(a.trees@), place) == evaluation_value(
            plain,
            points,
            lifting_of(b.trees@),
            place,
        ),
{
    let (t, c) = (place.0 as int, place.1 as int);
    let lifting = lifting_of(a.trees@);
    assert(same_tree(a.trees@[t], b.trees@[t]));
    let last = a.trees@.len() - 1;
    assert(same_tree(a.trees@[last], b.trees@[last]));
    assert(lifting == lifting_of(b.trees@));
    assert(plain[t].len() == points[t].len());
    let (p, q) = (poly_at_place(kept, place), poly_at_place(plain, place));
    assert(plain[t]@.len() == b.trees@[t].polynomials@.len());
    assert(kept[t]@.len() == a.trees@[t].polynomials@.len());
    assert(*kept[t]@[c] == a.trees@[t].polynomials@[c]);
    assert(*plain[t]@[c] == b.trees@[t].polynomials@[c]);
    assert(same_extension(a.trees@[t].polynomials@[c], b.trees@[t].polynomials@[c]));
    assert(same_extension(*p, *q));
    let f = folded_at(kept, points, lifting, place);
    assert(f == folded_at(plain, points, lifting, place));
    let n = p.evals.domain.log_size_s();
    lemma_doubled_on_circle(point_at(points, place), (lifting - n) as nat);
    assert(keeps_coefficients(a.trees@[t].polynomials@[c])) by {
        let cs = columns[t];
        assert(a.columns_fit(cs) && a.is_tree_of(cs, a.trees@[t]));
        let log_blowup = a.config.fri_config.log_blowup_factor as nat;
        assert(cs[c].fits(a.twiddles.root_coset, log_blowup));
        assert(committed(cs[c], log_blowup, true, a.trees@[t].polynomials@[c]));
        reveal(EvalsOrCoeffs::fits);
        reveal(committed);
        lemma_canonic_domain_wf(cs[c].log_size_s() + log_blowup);
    }
    lemma_samples_agree(kept, points, lifting, place);
}

/// Whether a column holds its coefficients beside its evaluations.
spec fn keeps_coefficients(poly: Poly) -> bool {
    let n = poly.evals.domain.log_size_s();
    &&& poly.coeffs is Some
    &&& poly.coeffs->0.wf()
    &&& poly.evals.wf()
    &&& poly.coeffs->0.log_size <= n <= 30
    &&& poly.evals.domain == canonic_domain(n)
    &&& evaluates(poly.coeffs->0.coeffs@, poly.coeffs->0.log_size as nat, poly.evals)
}

/// Two schemes of one configuration commit to the same columns, one of them keeping coefficients.
/// Opened at the same points of the circle, from the same transcript, they have the same values,
/// leave the same transcript and draw the same challenge.
pub proof fn lemma_opened_values_agree<'a, H: MerkleHasherLifted, C: Channel<H>>(
    a: OpenedValues<'a, H>,
    b: OpenedValues<'a, H>,
    columns: Seq<Seq<EvalsOrCoeffs>>,
    points: Seq<Vec<Vec<CirclePoint<QM31>>>>,
    steps: Seq<Step<H::Hash>>,
)
    requires
        a.scheme.wf(),
        b.scheme.wf(),
        a.scheme.config == b.scheme.config,
        a.scheme.committed_to(columns),
        b.scheme.committed_to(columns),
        columns.len() > 0,
        forall|t: int|
            0 <= t < columns.len() ==> (#[trigger] a.scheme.trees@[t]).commitment.salt_seed == (
            #[trigger] b.scheme.trees@[t]).commitment.salt_seed,
        a.scheme.store_polynomials_coefficients,
        !b.scheme.store_polynomials_coefficients,
        b.scheme.can_open(points),
        points_on_circle(points),
        a.opened(a.scheme, points),
        b.opened(b.scheme, points),
        a.random_coeff == C::drawn_after(a.mixed_into(steps)),
        b.random_coeff == C::drawn_after(b.mixed_into(steps)),
    ensures
        a.lifting_log_size == b.lifting_log_size,
        same_samples(a.samples@, b.samples@),
        a.random_coeff == b.random_coeff,
        a.mixed_into(steps).push(Step::Drawn(a.random_coeff)) == b.mixed_into(steps).push(
            Step::Drawn(b.random_coeff),
        ),
{
    let (x, y) = (a.scheme, b.scheme);
    assert forall|t: int| 0 <= t < x.trees@.len() implies same_tree(
        #[trigger] x.trees@[t],
        #[trigger] y.trees@[t],
    ) by {
        lemma_trees_agree(x, y, columns, t);
    }
    let last = x.trees@.len() - 1;
    assert(same_tree(x.trees@[last], y.trees@[last]));
    let kept = choose|polys: Seq<Vec<&Poly>>| #[trigger]
        refers_to(x.trees@, polys) && a.holds_values_of(polys, points);
    let plain = choose|polys: Seq<Vec<&Poly>>| #[trigger]
        refers_to(y.trees@, polys) && b.holds_values_of(polys, points);
    assert(openable(y.trees@, plain, points, false));
    assert forall|place: (usize, usize, usize)|
        #![trigger is_place(points, place)]
        is_place(points, place) implies value_at(a.samples@, place) == value_at(
        b.samples@,
        place,
    ) by {
        lemma_place_agrees(x, y, columns, points, kept, plain, place);
    }
    assert(points.len() == a.samples.len());
    lemma_same_samples(a.samples@, b.samples@, points);
    lemma_same_flat_values(a.samples@, b.samples@, a.samples@.len() as int);
}

proof fn lemma_same_samples(
    a: Seq<Vec<Vec<PointSample>>>,
    b: Seq<Vec<Vec<PointSample>>>,
    points: Seq<Vec<Vec<CirclePoint<QM31>>>>,
)
    requires
        points.len() <= usize::MAX,
        samples_for(points, a),
        samples_for(points, b),
        forall|place: (usize, usize, usize)|
            #![trigger is_place(points, place)]
            is_place(points, place) ==> value_at(a, place) == value_at(b, place),
    ensures
        same_samples(a, b),
{
    assert forall|t: int| 0 <= t < a.len() implies (#[trigger] a[t])@.len() == (
    #[trigger] b[t])@.len() by {
        assert(tree_samples_for(points[t]@, a[t]@) && tree_samples_for(points[t]@, b[t]@));
    }
    assert forall|t: int, c: int|
        #![trigger a[t]@[c]]
        #![trigger b[t]@[c]]
        0 <= t < a.len() && 0 <= c < a[t]@.len() implies column_values_s(a[t]@[c]@)
        == column_values_s(b[t]@[c]@) by {
        assert(tree_samples_for(points[t]@, a[t]@) && tree_samples_for(points[t]@, b[t]@));
        let p = points[t]@[c]@;
        let (u, v) = (column_values_s(a[t]@[c]@), column_values_s(b[t]@[c]@));
        assert(u.len() == p.len() && v.len() == p.len());
        assert(points[t].len() == points[t]@.len() && points[t]@[c].len() == p.len());
        assert(points.len() == a.len());
        assert forall|i: int| 0 <= i < u.len() implies u[i] == v[i] by {
            let place = (t as usize, c as usize, i as usize);
            assert(is_place(points, place));
        }
        assert(u =~= v);
    }
}

// ---------------------------------------------------------------------------------------------
// Proofs.

/// Proofs that hold the same.
pub open spec fn same_proof<H: MerkleHasherLifted, T>(
    a: CommitmentSchemeProof<H, T>,
    b: CommitmentSchemeProof<H, T>,
) -> bool {
    &&& a.config == b.config
    &&& a.commitments@ == b.commitments@
    &&& a.sampled_values@.len() == b.sampled_values@.len()
    &&& forall|t: int|
        0 <= t < a.sampled_values@.len() ==> (#[trigger] a.sampled_values@[t])@.len() == (
        #[trigger] b.sampled_values@[t])@.len()
    &&& forall|t: int, c: int|
        #![trigger a.sampled_values@[t]@[c]]
        #![trigger b.sampled_values@[t]@[c]]
        0 <= t < a.sampled_values@.len() && 0 <= c < a.sampled_values@[t]@.len()
            ==> a.sampled_values@[t]@[c]@ == b.sampled_values@[t]@[c]@
    &&& a.decommitments@.len() == b.decommitments@.len()
    &&& a.queried_values@.len() == b.queried_values@.len()
    &&& a.queried_values@.len() == a.decommitments@.len()
    &&& forall|t: int|
        #![trigger a.queried_values@[t]]
        #![trigger b.queried_values@[t]]
        0 <= t < a.queried_values@.len() ==> same_opening(
            a.queried_values@[t]@,
            a.decommitments@[t],
            b.queried_values@[t]@,
            b.decommitments@[t],
        )
    &&& a.proof_of_work == b.proof_of_work
    &&& a.fri_proof == b.fri_proof
}

/// The same queried values, hashes and salts.
pub open spec fn same_opening<H: MerkleHasherLifted>(
    values_a: Seq<Vec<M31>>,
    a: MerkleDecommitmentLifted<H>,
    values_b: Seq<Vec<M31>>,
    b: MerkleDecommitmentLifted<H>,
) -> bool {
    &&& values_a.len() == values_b.len()
    &&& forall|c: int|
        0 <= c < values_a.len() ==> (#[trigger] values_a[c])@ == (#[trigger] values_b[c])@
    &&& a.hash_witness@ == b.hash_witness@
    &&& a.salts@ == b.salts@
}

proof fn lemma_same_opening<H: MerkleHasherLifted>(
    x: CommitmentTreeProver<H>,
    y: CommitmentTreeProver<H>,
    queries: Seq<usize>,
    values_a: Seq<Vec<M31>>,
    a: MerkleDecommitmentLifted<H>,
    values_b: Seq<Vec<M31>>,
    b: MerkleDecommitmentLifted<H>,
)
    requires
        same_tree(x, y),
        opens(x, queries, values_a, a),
        opens(y, queries, values_b, b),
    ensures
        same_opening(values_a, a, values_b, b),
{
    assert forall|c: int| 0 <= c < values_a.len() implies (#[trigger] values_a[c])@ == (
    #[trigger] values_b[c])@ by {
        assert(same_extension(x.polynomials@[c], y.polynomials@[c]));
        assert(values_a[c]@ =~= values_b[c]@);
    }
}

/// Positions in order are settled by which they are and how often each comes.
proof fn lemma_ordered_unique(a: Seq<usize>, b: Seq<usize>)
    requires
        ordered(a),
        ordered(b),
        a.to_multiset() == b.to_multiset(),
    ensures
        a == b,
{
    let leq = |x: usize, y: usize| x <= y;
    assert(total_ordering(leq));
    assert(sorted_by(a, leq)) by {
        assert forall|i: int, j: int| 0 <= i < j < a.len() implies #[trigger] leq(a[i], a[j]) by {
            assert(a[i] <= a[j]);
        }
    }
    assert(sorted_by(b, leq)) by {
        assert forall|i: int, j: int| 0 <= i < j < b.len() implies #[trigger] leq(b[i], b[j]) by {
            assert(b[i] <= b[j]);
        }
    }
    vstd::seq_lib::lemma_sorted_unique(a, b, leq);
}

/// Values that agree, in trees that agree, with the same proof of work and the same outcome of the
/// low-degree test make the same proof.
pub proof fn lemma_proofs_agree<'a, H: MerkleHasherLifted, T, A>(
    a: GroundValues<'a, H>,
    b: GroundValues<'a, H>,
    outcome: FriOutcome<T, A>,
    proof_a: CommitmentSchemeProof<H, T>,
    proof_b: CommitmentSchemeProof<H, T>,
)
    requires
        a.opened.scheme.trees@.len() > 0,
        a.opened.scheme.trees@.len() == b.opened.scheme.trees@.len(),
        forall|t: int|
            0 <= t < a.opened.scheme.trees@.len() ==> same_tree(
                #[trigger] a.opened.scheme.trees@[t],
                #[trigger] b.opened.scheme.trees@[t],
            ),
        a.opened.scheme.config == b.opened.scheme.config,
        a.opened.lifting_log_size == b.opened.lifting_log_size,
        same_samples(a.opened.samples@, b.opened.samples@),
        a.proof_of_work == b.proof_of_work,
        a.proves(outcome, proof_a),
        b.proves(outcome, proof_b),
    ensures
        same_proof(proof_a, proof_b),
{
    let (x, y) = (a.opened.scheme.trees@, b.opened.scheme.trees@);
    assert(proof_a.commitments@ =~= proof_b.commitments@) by {
        assert forall|t: int| 0 <= t < x.len() implies #[trigger] proof_a.commitments@[t]
            == proof_b.commitments@[t] by {
            assert(same_tree(x[t], y[t]));
        }
    }
    let (u, v) = (a.opened.samples@, b.opened.samples@);
    assert forall|t: int| 0 <= t < u.len() implies (
    #[trigger] proof_a.sampled_values@[t])@.len() == (
    #[trigger] proof_b.sampled_values@[t])@.len() by {
        assert(u[t]@.len() == v[t]@.len());
    }
    assert forall|t: int, c: int|
        #![trigger proof_a.sampled_values@[t]@[c]]
        #![trigger proof_b.sampled_values@[t]@[c]]
        0 <= t < u.len() && 0 <= c < proof_a.sampled_values@[t]@.len() implies
    proof_a.sampled_values@[t]@[c]@ == proof_b.sampled_values@[t]@[c]@ by {
        assert(proof_a.sampled_values@[t]@.len() == u[t]@.len());
        assert(u[t]@.len() == v[t]@.len());
        assert(column_values_s(u[t]@[c]@) == column_values_s(v[t]@[c]@));
    }
    let queries = outcome.query_positions@;
    let first = choose|first: Seq<usize>| #[trigger]
        opens(x[0], first, proof_a.queried_values@[0]@, proof_a.decommitments@[0])
            && a.asks_first(queries, first);
    let other = choose|first: Seq<usize>| #[trigger]
        opens(y[0], first, proof_b.queried_values@[0]@, proof_b.decommitments@[0])
            && b.asks_first(queries, first);
    assert(same_tree(x[0], y[0]));
    assert(first == other) by {
        if x[0].commitment.height() == 0 {
            assert(first =~= other);
        } else {
            lemma_ordered_unique(first, other);
        }
    }
    assert forall|t: int|
        #![trigger proof_a.queried_values@[t]]
        #![trigger proof_b.queried_values@[t]]
        0 <= t < x.len() implies same_opening(
        proof_a.queried_values@[t]@,
        proof_a.decommitments@[t],
        proof_b.queried_values@[t]@,
        proof_b.decommitments@[t],
    ) by {
        assert(same_tree(x[t], y[t]));
        let rows = if t == 0 {
            first
        } else {
            queries
        };
        lemma_same_opening(
            x[t],
            y[t],
            rows,
            proof_a.queried_values@[t]@,
            proof_a.decommitments@[t],
            proof_b.queried_values@[t]@,
            proof_b.decommitments@[t],
        );
    }
}

/// Keeping coefficients never changes the proof: two schemes of one configuration that commit to
/// the same columns, one of them keeping coefficients, and are opened at the same points of the
/// circle from the same transcript, make the same proof from the same proof of work and outcome of
/// the low-degree test.
pub proof fn lemma_keeping_coefficients_keeps_proof<
    'a,
    H: MerkleHasherLifted,
    C: Channel<H>,
    T,
    A,
>(
    a: GroundValues<'a, H>,
    b: GroundValues<'a, H>,
    columns: Seq<Seq<EvalsOrCoeffs>>,
    points: Seq<Vec<Vec<CirclePoint<QM31>>>>,
    steps: Seq<Step<H::Hash>>,
    outcome: FriOutcome<T, A>,
    proof_a: CommitmentSchemeProof<H, T>,
    proof_b: CommitmentSchemeProof<H, T>,
)
    requires
        a.opened.scheme.wf(),
        b.opened.scheme.wf(),
        a.opened.scheme.config == b.opened.scheme.config,
        a.opened.scheme.committed_to(columns),
        b.opened.scheme.committed_to(columns),
        columns.len() > 0,
        forall|t: int|
            0 <= t < columns.len() ==> (#[trigger] a.opened.scheme.trees@[t]).commitment.salt_seed
                == (#[trigger] b.opened.scheme.trees@[t]).commitment.salt_seed,
        a.opened.scheme.store_polynomials_coefficients,
        !b.opened.scheme.store_polynomials_coefficients,
        b.opened.scheme.can_open(points),
        points_on_circle(points),
        a.opened.opened(a.opened.scheme, points),
        b.opened.opened(b.opened.scheme, points),
        a.opened.random_coeff == C::drawn_after(a.opened.mixed_into(steps)),
        b.opened.random_coeff == C::drawn_after(b.opened.mixed_into(steps)),
        a.proof_of_work == b.proof_of_work,
        a.proves(outcome, proof_a),
        b.proves(outcome, proof_b),
    ensures
        a.opened.mixed_into(steps).push(Step::Drawn(a.opened.random_coeff))
            == b.opened.mixed_into(steps).push(Step::Drawn(b.opened.random_coeff)),
        same_proof(proof_a, proof_b),
{
    lemma_opened_values_agree::<H, C>(a.opened, b.opened, columns, points, steps);
    let (x, y) = (a.opened.scheme, b.opened.scheme);
    assert forall|t: int| 0 <= t < x.trees@.len() implies same_tree(
        #[trigger] x.trees@[t],
        #[trigger] y.trees@[t],
    ) by {
        lemma_trees_agree(x, y, columns, t);
    }
    lemma_proofs_agree(a, b, outcome, proof_a, proof_b);
}

} // verus!
