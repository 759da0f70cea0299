//! Interpolation and low-degree extension of committed columns.

use vstd::arithmetic::power2::{lemma_pow2_pos, pow2};
use vstd::prelude::*;

use super::circle_poly::{CircleCoefficients, CircleEvaluation, EvalsOrCoeffs, Poly};
use super::domain::{
    canonic_domain, lemma_canonic_domain_wf, mapping_at, CanonicCoset, CircleDomain,
};
use super::fft::{evaluate_into_scalar, lemma_same_doubling};
use super::fold::{embed_all, lemma_mappings_rest, padded, poly_at, poly_at_secure};
use super::ifft::interpolate_scalar;
use super::pool::BaseColumnPool;
use super::twiddles::{layer_twiddle, tower_index, TwiddleTree};
use crate::circle::{CirclePoint, Coset};
use crate::fields::m31::M31;
use crate::fields::qm31::QM31;
use crate::fields::Field;
use crate::parallel::par_map_vec;
use crate::utils::{lemma_pow2_double, lemma_pow2_le, pow2_usize};

verus! {

/// Size from which columns are transformed as one batch with right-sized twiddles.
pub const SIMD_DISPATCH_LOG_SIZE: u32 = 10;

impl EvalsOrCoeffs {
    pub open spec fn wf(self) -> bool {
        match self {
            EvalsOrCoeffs::Evals(evals) => evals.wf(),
            EvalsOrCoeffs::Coeffs(coeffs) => coeffs.wf(),
        }
    }

    pub open spec fn log_size_s(self) -> nat {
        match self {
            EvalsOrCoeffs::Evals(evals) => evals.domain.log_size_s(),
            EvalsOrCoeffs::Coeffs(coeffs) => coeffs.log_size as nat,
        }
    }

    /// The twiddles below `root` serve the transforms of this column to a domain `2^log_blowup`
    /// times its size.
    #[verifier::opaque]
    pub open spec fn fits(self, root: Coset, log_blowup: nat) -> bool {
        &&& self.wf()
        &&& 0 < self.log_size_s() + log_blowup <= 30
        &&& canonic_domain(self.log_size_s() + log_blowup).half_coset.doubling_of_s(root)
        &&& match self {
            EvalsOrCoeffs::Evals(evals) => {
                &&& evals.domain.half_coset.doubling_of_s(root)
                &&& evals.domain.half_coset.log_size <= 1
                    ==> evals.domain.half_coset.initial.y.canon() != M31::zero_el()
            },
            EvalsOrCoeffs::Coeffs(coeffs) => true,
        }
    }

    /// `c` are the coefficients of this column: those it holds, or those of its interpolant.
    pub open spec fn has_coeffs(self, c: Seq<M31>) -> bool {
        match self {
            EvalsOrCoeffs::Evals(evals) => interpolates(evals, c),
            EvalsOrCoeffs::Coeffs(coeffs) => c == coeffs.coeffs@,
        }
    }
}

/// `c` are canonical coefficients of the polynomial with the given values.
pub open spec fn interpolates(evals: CircleEvaluation, c: Seq<M31>) -> bool {
    &&& c.len() == evals.values.len()
    &&& forall|k: int| 0 <= k < c.len() ==> (#[trigger] c[k]).canon() == c[k]
    &&& forall|j: int|
        0 <= j < evals.values.len() ==> poly_at(
            c,
            evals.domain.log_size_s(),
            evals.domain.reversed_at(j).x,
            evals.domain.reversed_at(j).y,
        ) == #[trigger] evals.values@[j].canon()
}

/// `evals` holds the values on its domain of the polynomial with `2^n` coefficients `c`.
pub open spec fn evaluates(c: Seq<M31>, n: nat, evals: CircleEvaluation) -> bool {
    &&& evals.wf()
    &&& forall|j: int|
        0 <= j < evals.values.len() ==> #[trigger] evals.values@[j] == poly_at(
            c,
            n,
            evals.domain.reversed_at(j).x,
            evals.domain.reversed_at(j).y,
        ).canon()
}

/// `p` is the extension of the column with coefficients `c`.
pub open spec fn extended(c: Seq<M31>, n: nat, log_blowup: nat, store: bool, p: Poly) -> bool {
    &&& p.evals.domain == canonic_domain(n + log_blowup)
    &&& evaluates(c, n, p.evals)
    &&& p.coeffs is Some <==> store
    &&& match p.coeffs {
        Some(coeffs) => coeffs.wf() && coeffs.log_size == n && coeffs.coeffs@ == c,
        None => true,
    }
}

/// `p` is what committing `column` gives.
#[verifier::opaque]
pub open spec fn committed(column: EvalsOrCoeffs, log_blowup: nat, store: bool, p: Poly) -> bool {
    exists|c: Seq<M31>| #[trigger]
        column.has_coeffs(c) && extended(c, column.log_size_s(), log_blowup, store, p)
}

/// The coefficients of the polynomial with the given values.
pub fn interpolate(eval: CircleEvaluation, twiddles: &TwiddleTree) -> (r: CircleCoefficients)
    requires
        twiddles.wf(),
        EvalsOrCoeffs::Evals(eval).wf(),
        eval.domain.half_coset.doubling_of_s(twiddles.root_coset),
        eval.domain.half_coset.log_size <= 1 ==> eval.domain.half_coset.initial.y.canon()
            != M31::zero_el(),
    ensures
        r.wf(),
        r.log_size == eval.domain.log_size_s(),
        interpolates(eval, r.coeffs@),
{
    interpolate_scalar(eval, twiddles)
}

/// Whether the twiddles serve the interpolation of a column.
spec fn interpolable(column: CircleEvaluation, twiddles: &TwiddleTree) -> bool {
    &&& twiddles.wf()
    &&& column.wf()
    &&& column.domain.half_coset.doubling_of_s(twiddles.root_coset)
    &&& column.domain.half_coset.log_size <= 1 ==> column.domain.half_coset.initial.y.canon()
        != M31::zero_el()
}

/// The coefficients of every column, in order.
pub fn interpolate_columns(columns: Vec<CircleEvaluation>, twiddles: &TwiddleTree) -> (r: Vec<
    CircleCoefficients,
>)
    requires
        twiddles.wf(),
        forall|i: int| #![trigger columns@[i]]
            0 <= i < columns.len() ==> {
                &&& columns@[i].wf()
                &&& columns@[i].domain.half_coset.doubling_of_s(twiddles.root_coset)
                &&& columns@[i].domain.half_coset.log_size <= 1
                    ==> columns@[i].domain.half_coset.initial.y.canon() != M31::zero_el()
            },
    ensures
        r.len() == columns.len(),
        forall|i: int| #![trigger r@[i]]
            0 <= i < r.len() ==> r@[i].wf() && interpolates(columns@[i], r@[i].coeffs@),
{
    let interpolate_one = |column: CircleEvaluation| -> (r: CircleCoefficients)
        requires
            interpolable(column, twiddles),
        ensures
            r.wf(),
            interpolates(column, r.coeffs@),
        { interpolate(column, twiddles) };
    let ghost all = columns@;
    let r = par_map_vec(columns, interpolate_one);
    proof {
        assert forall|i: int| #![trigger r@[i]] 0 <= i < r.len() implies r@[i].wf()
            && interpolates(all[i], r@[i].coeffs@) by {
            assert(call_ensures(interpolate_one, (all[i],), r@[i]));
        }
    }
    r
}

/// The values of a polynomial on a domain, into the given buffer.
pub fn evaluate_into(
    poly: &CircleCoefficients,
    domain: CircleDomain,
    twiddles: &TwiddleTree,
    buffer: Vec<M31>,
) -> (r: CircleEvaluation)
    requires
        poly.wf(),
        domain.wf(),
        twiddles.wf(),
        domain.half_coset.doubling_of_s(twiddles.root_coset),
        poly.log_size <= domain.log_size_s(),
        buffer.len() == domain.size_s(),
    ensures
        r.domain == domain,
        evaluates(poly.coeffs@, poly.log_size as nat, r),
{
    evaluate_into_scalar(poly, domain, twiddles, buffer)
}

/// The values of a polynomial on a domain.
pub fn evaluate(poly: &CircleCoefficients, domain: CircleDomain, twiddles: &TwiddleTree) -> (r:
    CircleEvaluation)
    requires
        poly.wf(),
        domain.wf(),
        twiddles.wf(),
        domain.half_coset.doubling_of_s(twiddles.root_coset),
        poly.log_size <= domain.log_size_s(),
    ensures
        r.domain == domain,
        evaluates(poly.coeffs@, poly.log_size as nat, r),
{
    let n = domain.size();
    let mut buffer: Vec<M31> = Vec::with_capacity(n);
    for i in 0..n
        invariant
            buffer.len() == i,
    {
        buffer.push(M31(0));
    }
    evaluate_into(poly, domain, twiddles, buffer)
}

/// The polynomial with its coefficients padded to `2^log_size`.
pub fn extend(poly: &CircleCoefficients, log_size: u32) -> (r: CircleCoefficients)
    requires
        poly.wf(),
        poly.log_size <= log_size <= 31,
    ensures
        r.wf(),
        r.log_size == log_size,
        r.coeffs@ == padded(poly.coeffs@, pow2(log_size as nat)),
{
    let n = pow2_usize(log_size);
    let len = poly.coeffs.len();
    proof {
        lemma_pow2_le(poly.log_size as nat, log_size as nat);
    }
    let mut coeffs: Vec<M31> = Vec::with_capacity(n);
    for i in 0..n
        invariant
            len == poly.coeffs.len(),
            coeffs.len() == i,
            forall|k: int|
                0 <= k < i ==> #[trigger] coeffs@[k] == padded(poly.coeffs@, n as nat)[k],
    {
        if i < len {
            coeffs.push(poly.coeffs[i]);
        } else {
            coeffs.push(M31(0));
        }
    }
    assert(coeffs@ =~= padded(poly.coeffs@, n as nat));
    CircleCoefficients { coeffs, log_size }
}

/// The lower and the upper half of the coefficients.
pub fn split_at_mid(poly: CircleCoefficients) -> (r: (CircleCoefficients, CircleCoefficients))
    requires
        poly.wf(),
        poly.log_size > 0,
    ensures
        r.0.wf(),
        r.1.wf(),
        r.0.log_size == poly.log_size - 1,
        r.1.log_size == poly.log_size - 1,
        r.0.coeffs@ == poly.coeffs@.take(pow2((poly.log_size - 1) as nat) as int),
        r.1.coeffs@ == poly.coeffs@.skip(pow2((poly.log_size - 1) as nat) as int),
{
    proof {
        lemma_pow2_double(poly.log_size as nat);
    }
    let log_size = poly.log_size - 1;
    let mut left: Vec<M31> = poly.coeffs;
    let half = left.len() / 2;
    let right = left.split_off(half);
    assert(left@ =~= poly.coeffs@.take(half as int));
    assert(right@ =~= poly.coeffs@.skip(half as int));
    (
        CircleCoefficients { coeffs: left, log_size },
        CircleCoefficients { coeffs: right, log_size },
    )
}

/// The halves recombine: the polynomial is the left half plus the factor of the highest digit
/// times the right half. For more than two coefficients that factor is the `x` coordinate doubled
/// all but twice.
pub proof fn lemma_split_at_mid(coeffs: Seq<M31>, n: nat, p: CirclePoint<QM31>)
    requires
        n > 0,
        coeffs.len() == pow2(n),
    ensures
        poly_at_secure(coeffs, n, p) == poly_at_secure(
            coeffs.take(pow2((n - 1) as nat) as int),
            (n - 1) as nat,
            p,
        ).plus(
            poly_at_secure(
                coeffs.skip(pow2((n - 1) as nat) as int),
                (n - 1) as nat,
                p,
            ).times(mapping_at(p.x, p.y, n - 1)),
        ),
{
    lemma_pow2_double(n);
    lemma_mappings_rest(n, p.x, p.y);
    let e = embed_all(coeffs);
    let half = pow2((n - 1) as nat) as int;
    assert(e.subrange(0, half) =~= embed_all(coeffs.take(half)));
    assert(e.subrange(half, e.len() as int) =~= embed_all(coeffs.skip(half)));
}

/// The part of a twiddle tower that a domain of size `2^max_circle_log_size` uses, as a tower of
/// its own.
pub fn twiddles_for_circle_log_size(tree: &TwiddleTree, max_circle_log_size: u32) -> (r: TwiddleTree)
    requires
        tree.wf(),
        0 < max_circle_log_size,
        max_circle_log_size - 1 <= tree.root_coset.log_size,
    ensures
        r.wf(),
        r.root_coset == tree.root_coset.repeated_double_s(
            (tree.root_coset.log_size - (max_circle_log_size - 1)) as nat,
        ),
        r.twiddles@ == tree.twiddles@.skip(
            tree.twiddles.len() - pow2((max_circle_log_size - 1) as nat),
        ),
        r.itwiddles@ == tree.itwiddles@.skip(
            tree.itwiddles.len() - pow2((max_circle_log_size - 1) as nat),
        ),
{
    let log = max_circle_log_size - 1;
    let big = tree.root_coset.log_size;
    let root = tree.root_coset.repeated_double(big - log);
    let len = tree.twiddles.len();
    proof {
        lemma_pow2_le(log as nat, big as nat);
    }
    let size = pow2_usize(log);
    let offset = len - size;
    let mut twiddles: Vec<M31> = Vec::with_capacity(size);
    let mut itwiddles: Vec<M31> = Vec::with_capacity(size);
    for k in 0..size
        invariant
            offset + size == len,
            len == tree.twiddles.len(),
            len == tree.itwiddles.len(),
            twiddles.len() == k,
            itwiddles.len() == k,
            forall|i: int| 0 <= i < k ==> #[trigger] twiddles@[i] == tree.twiddles@[offset + i],
            forall|i: int| 0 <= i < k ==> #[trigger] itwiddles@[i] == tree.itwiddles@[offset + i],
    {
        twiddles.push(tree.twiddles[offset + k]);
        itwiddles.push(tree.itwiddles[offset + k]);
    }
    proof {
        assert(twiddles@ =~= tree.twiddles@.skip(offset as int));
        assert(itwiddles@ =~= tree.itwiddles@.skip(offset as int));
        assert forall|m: int, h: int|
            #![trigger layer_twiddle(root, m, h)]
            0 <= m < root.log_size && 0 <= h < pow2(m as nat) implies twiddles@[tower_index(
            root.log_size as nat,
            m,
            h,
        )] == layer_twiddle(root, m, h) by {
            lemma_same_doubling(
                tree.root_coset,
                root,
                (log - 1 - m) as nat,
                (big - 1 - m) as nat,
            );
            assert(layer_twiddle(root, m, h) == layer_twiddle(tree.root_coset, m, h));
            let idx = tower_index(log as nat, m, h);
            lemma_pow2_le((m + 1) as nat, log as nat);
            lemma_pow2_double((m + 1) as nat);
            assert(twiddles@[idx] == tree.twiddles@[offset + idx]);
            assert(offset + idx == tower_index(big as nat, m, h));
        }
        lemma_pow2_pos(log as nat);
        assert forall|k: int| 0 <= k < twiddles.len() implies twiddles@[k].times(
            #[trigger] itwiddles@[k],
        ) == M31::one_el() && itwiddles@[k].canon() == itwiddles@[k] by {
            assert(tree.twiddles@[offset + k].times(tree.itwiddles@[offset + k])
                == M31::one_el());
        }
    }
    TwiddleTree { root_coset: root, twiddles, itwiddles }
}

/// Interpolates one column where needed, and extends it into the given buffer.
fn extend_column(
    column: EvalsOrCoeffs,
    log_blowup_factor: u32,
    twiddles: &TwiddleTree,
    store_polynomials_coefficients: bool,
    buffer: Vec<M31>,
) -> (r: Poly)
    requires
        twiddles.wf(),
        column.fits(twiddles.root_coset, log_blowup_factor as nat),
        buffer.len() == pow2((column.log_size_s() + log_blowup_factor) as nat),
    ensures
        committed(column, log_blowup_factor as nat, store_polynomials_coefficients, r),
{
    proof {
        reveal(EvalsOrCoeffs::fits);
        reveal(committed);
    }
    let poly_coeffs = match column {
        EvalsOrCoeffs::Evals(evals) => interpolate(evals, twiddles),
        EvalsOrCoeffs::Coeffs(coeffs) => coeffs,
    };
    let ghost c = poly_coeffs.coeffs@;
    assert(column.has_coeffs(c));
    proof {
        lemma_canonic_domain_wf((column.log_size_s() + log_blowup_factor) as nat);
    }
    let domain = CanonicCoset::new(poly_coeffs.log_size() + log_blowup_factor).circle_domain();
    let evals = evaluate_into(&poly_coeffs, domain, twiddles, buffer);
    let coeffs = if store_polynomials_coefficients {
        Some(poly_coeffs)
    } else {
        None
    };
    Poly::new(coeffs, evals)
}

/// The buffers left in a pool after one of size `2^log` has been drawn.
pub open spec fn draw_one(held: Seq<nat>, log: nat) -> Seq<nat> {
    held.update(
        log as int,
        if held[log as int] > 0 {
            (held[log as int] - 1) as nat
        } else {
            0
        },
    )
}

/// The buffers left in a pool after one has been drawn for each extended column.
pub open spec fn draw_all(held: Seq<nat>, columns: Seq<EvalsOrCoeffs>, log_blowup: nat) -> Seq<nat>
    decreases columns.len(),
{
    if columns.len() == 0 {
        held
    } else {
        draw_one(
            draw_all(held, columns.drop_last(), log_blowup),
            columns.last().log_size_s() + log_blowup,
        )
    }
}

/// Interpolation and extension of columns one after the other, with buffers from the pool.
pub fn fallback_interpolate_and_evaluate_polynomials(
    columns: Vec<EvalsOrCoeffs>,
    log_blowup_factor: u32,
    twiddles: &TwiddleTree,
    store_polynomials_coefficients: bool,
    pool: &mut BaseColumnPool,
) -> (r: Vec<Poly>)
    requires
        twiddles.wf(),
        old(pool).wf(),
        forall|i: int|
            0 <= i < columns.len() ==> (#[trigger] columns@[i]).fits(
                twiddles.root_coset,
                log_blowup_factor as nat,
            ),
    ensures
        final(pool).wf(),
        final(pool).held() == draw_all(old(pool).held(), columns@, log_blowup_factor as nat),
        r.len() == columns.len(),
        forall|i: int|
            0 <= i < r.len() ==> committed(
                columns@[i],
                log_blowup_factor as nat,
                store_polynomials_coefficients,
                #[trigger] r@[i],
            ),
{
    let mut r: Vec<Poly> = Vec::with_capacity(columns.len());
    let ghost all = columns@;
    let ghost held = pool.held();
    assert(all.take(0).len() == 0);
    for column in iter: columns
        invariant
            iter.seq() == all,
            r.len() == iter.index(),
            twiddles.wf(),
            pool.wf(),
            pool.held() == draw_all(held, all.take(iter.index() as int), log_blowup_factor as nat),
            forall|i: int|
                0 <= i < all.len() ==> (#[trigger] all[i]).fits(
                    twiddles.root_coset,
                    log_blowup_factor as nat,
                ),
            forall|i: int|
                0 <= i < r.len() ==> committed(
                    all[i],
                    log_blowup_factor as nat,
                    store_polynomials_coefficients,
                    #[trigger] r@[i],
                ),
    {
        assert(column == all[iter.index() as int]);
        proof {
            reveal(EvalsOrCoeffs::fits);
        }
        let log_eval_size = column_log_size(&column) + log_blowup_factor;
        let buffer = pool.take_or_alloc(log_eval_size);
        proof {
            let now = all.take(iter.index() + 1);
            assert(now.drop_last() =~= all.take(iter.index() as int));
            assert(now.last() == column);
        }
        r.push(
            extend_column(
                column,
                log_blowup_factor,
                twiddles,
                store_polynomials_coefficients,
                buffer,
            ),
        );
    }
    assert(all.take(all.len() as int) =~= all);
    r
}

/// The logarithm of the number of rows of a column.
pub fn column_log_size(column: &EvalsOrCoeffs) -> (r: u32)
    requires
        column.wf(),
    ensures
        r == column.log_size_s(),
{
    match column {
        EvalsOrCoeffs::Evals(evals) => evals.domain.log_size(),
        EvalsOrCoeffs::Coeffs(coeffs) => coeffs.log_size(),
    }
}

/// Puts each polynomial at its place.
fn place_all(ordered: &mut Vec<Option<Poly>>, indices: &Vec<usize>, polys: Vec<Poly>)
    requires
        indices.len() == polys.len(),
        indices@.no_duplicates(),
        forall|k: int| 0 <= k < indices.len() ==> #[trigger] indices@[k] < old(ordered).len(),
    ensures
        final(ordered).len() == old(ordered).len(),
        forall|k: int| #![trigger indices@[k]]
            0 <= k < indices.len() ==> final(ordered)@[indices@[k] as int] == Some(polys@[k]),
        forall|i: int| #![trigger final(ordered)@[i]]
            0 <= i < old(ordered).len() && !indices@.contains(i as usize) ==> final(ordered)@[i]
                == old(ordered)@[i],
{
    let ghost before = ordered@;
    let ghost all = polys@;
    let mut polys = polys;
    while polys.len() > 0
        invariant
            polys.len() <= indices.len(),
            indices.len() == all.len(),
            polys@ == all.take(polys.len() as int),
            indices@.no_duplicates(),
            ordered.len() == before.len(),
            forall|k: int| 0 <= k < indices.len() ==> #[trigger] indices@[k] < before.len(),
            forall|k: int| #![trigger indices@[k]]
                polys.len() <= k < indices.len() ==> ordered@[indices@[k] as int] == Some(all[k]),
            forall|i: int| #![trigger ordered@[i]]
                0 <= i < before.len() && !indices@.contains(i as usize) ==> ordered@[i]
                    == before[i],
        decreases polys.len(),
    {
        let k = polys.len() - 1;
        let index = indices[k];
        match polys.pop() {
            Some(poly) => {
                assert(poly == all[k as int]);
                assert(polys@ =~= all.take(k as int));
                assert(indices@.contains(index));
                ordered.set(index, Some(poly));
            },
            None => {},
        }
    }
}

/// The places of two groups cover `0 .. total` without repetition.
pub open spec fn covers_once(a: Seq<usize>, b: Seq<usize>, total: nat) -> bool {
    &&& a.no_duplicates()
    &&& b.no_duplicates()
    &&& forall|k: int| 0 <= k < a.len() ==> #[trigger] a[k] < total && !b.contains(a[k])
    &&& forall|k: int| 0 <= k < b.len() ==> #[trigger] b[k] < total && !a.contains(b[k])
    &&& forall|i: usize| i < total ==> a.contains(i) || #[trigger] b.contains(i)
}

/// Puts the polynomials of two groups back into the places that they were taken from.
pub fn restore_polynomial_order(
    total_columns: usize,
    indices_a: Vec<usize>,
    polys_a: Vec<Poly>,
    indices_b: Vec<usize>,
    polys_b: Vec<Poly>,
) -> (r: Vec<Poly>)
    requires
        indices_a.len() == polys_a.len(),
        indices_b.len() == polys_b.len(),
        covers_once(indices_a@, indices_b@, total_columns as nat),
    ensures
        r.len() == total_columns,
        forall|k: int|
            0 <= k < indices_a.len() ==> r@[#[trigger] indices_a@[k] as int] == polys_a@[k],
        forall|k: int|
            0 <= k < indices_b.len() ==> r@[#[trigger] indices_b@[k] as int] == polys_b@[k],
{
    let mut ordered: Vec<Option<Poly>> = Vec::with_capacity(total_columns);
    for i in 0..total_columns
        invariant
            ordered.len() == i,
    {
        ordered.push(None);
    }
    place_all(&mut ordered, &indices_a, polys_a);
    place_all(&mut ordered, &indices_b, polys_b);
    let ghost placed = ordered@;
    proof {
        assert forall|k: int| #![trigger indices_a@[k]] 0 <= k < indices_a.len() implies placed[
            indices_a@[k] as int
        ] == Some(polys_a@[k]) by {
            let i = indices_a@[k] as int;
            assert(!indices_b@.contains(i as usize));
            assert(placed[i] == placed[i]);
        }
        assert forall|i: int| 0 <= i < total_columns implies (#[trigger] placed[i]) is Some by {
            let u = i as usize;
            if indices_b@.contains(u) {
                let k = choose|k: int| 0 <= k < indices_b.len() && indices_b@[k] == u;
                assert(placed[indices_b@[k] as int] == Some(polys_b@[k]));
            } else {
                assert(indices_a@.contains(u));
                let k = choose|k: int| 0 <= k < indices_a.len() && indices_a@[k] == u;
                assert(placed[indices_a@[k] as int] == Some(polys_a@[k]));
            }
        }
    }
    let mut r: Vec<Poly> = Vec::with_capacity(total_columns);
    for slot in iter: ordered
        invariant
            iter.seq() == placed,
            placed.len() == total_columns,
            r.len() == iter.index(),
            forall|i: int| 0 <= i < total_columns ==> (#[trigger] placed[i]) is Some,
            forall|i: int| 0 <= i < r.len() ==> Some(#[trigger] r@[i]) == placed[i],
    {
        assert(slot == placed[iter.index() as int]);
        match slot {
            Some(poly) => {
                r.push(poly);
            },
            None => {},
        }
    }
    r
}

/// The columns at the given places.
pub open spec fn columns_at(columns: Seq<EvalsOrCoeffs>, places: Seq<usize>) -> Seq<EvalsOrCoeffs> {
    Seq::new(places.len(), |k: int| columns[places[k] as int])
}

/// Whether a column is transformed in the large batch.
pub open spec fn is_large(column: EvalsOrCoeffs) -> bool {
    column.log_size_s() >= SIMD_DISPATCH_LOG_SIZE
}

/// The columns below the batch size, in order.
pub open spec fn small_columns(columns: Seq<EvalsOrCoeffs>) -> Seq<EvalsOrCoeffs> {
    columns.filter(|c: EvalsOrCoeffs| !is_large(c))
}

/// Extends a batch of columns with the part of the twiddles that the largest of them needs.
fn extend_batch(
    columns: Vec<EvalsOrCoeffs>,
    log_blowup_factor: u32,
    twiddles: &TwiddleTree,
    store_polynomials_coefficients: bool,
) -> (r: Vec<Poly>)
    requires
        twiddles.wf(),
        forall|i: int|
            0 <= i < columns.len() ==> (#[trigger] columns@[i]).fits(
                twiddles.root_coset,
                log_blowup_factor as nat,
            ),
    ensures
        r.len() == columns.len(),
        forall|i: int|
            0 <= i < r.len() ==> committed(
                columns@[i],
                log_blowup_factor as nat,
                store_polynomials_coefficients,
                #[trigger] r@[i],
            ),
{
    let mut r: Vec<Poly> = Vec::with_capacity(columns.len());
    let n = columns.len();
    if n == 0 {
        return r;
    }
    let ghost all = columns@;
    let mut max_eval_log_size: u32 = 0;
    for i in 0..n
        invariant
            n == all.len(),
            columns@ == all,
            forall|i: int|
                0 <= i < all.len() ==> (#[trigger] all[i]).fits(
                    twiddles.root_coset,
                    log_blowup_factor as nat,
                ),
            max_eval_log_size <= 30,
            max_eval_log_size <= twiddles.root_coset.log_size + 1,
            forall|k: int|
                0 <= k < i ==> (#[trigger] all[k]).log_size_s() + log_blowup_factor
                    <= max_eval_log_size,
    {
        proof {
            assert(all[i as int].fits(twiddles.root_coset, log_blowup_factor as nat));
            reveal(EvalsOrCoeffs::fits);
        }
        let log = column_log_size(&columns[i]) + log_blowup_factor;
        if log > max_eval_log_size {
            max_eval_log_size = log;
        }
    }
    proof {
        assert(all[0].fits(twiddles.root_coset, log_blowup_factor as nat));
        reveal(EvalsOrCoeffs::fits);
    }
    let sized = twiddles_for_circle_log_size(twiddles, max_eval_log_size);
    proof {
        assert forall|i: int| 0 <= i < all.len() implies (#[trigger] all[i]).fits(
            sized.root_coset,
            log_blowup_factor as nat,
        ) by {
            lemma_fits_suffix(
                all[i],
                twiddles.root_coset,
                sized.root_coset,
                log_blowup_factor as nat,
                max_eval_log_size as nat,
            );
        }
    }
    for column in iter: columns
        invariant
            iter.seq() == all,
            r.len() == iter.index(),
            sized.wf(),
            forall|i: int|
                0 <= i < all.len() ==> (#[trigger] all[i]).fits(
                    sized.root_coset,
                    log_blowup_factor as nat,
                ),
            forall|i: int|
                0 <= i < r.len() ==> committed(
                    all[i],
                    log_blowup_factor as nat,
                    store_polynomials_coefficients,
                    #[trigger] r@[i],
                ),
    {
        assert(column == all[iter.index() as int]);
        proof {
            reveal(EvalsOrCoeffs::fits);
        }
        let size = pow2_usize(column_log_size(&column) + log_blowup_factor);
        let mut buffer: Vec<M31> = Vec::with_capacity(size);
        for i in 0..size
            invariant
                buffer.len() == i,
        {
            buffer.push(M31(0));
        }
        r.push(
            extend_column(
                column,
                log_blowup_factor,
                &sized,
                store_polynomials_coefficients,
                buffer,
            ),
        );
    }
    r
}

/// A column that fits under a root fits under the doubling of the root that is just as large as
/// its extension, or larger.
proof fn lemma_fits_suffix(
    column: EvalsOrCoeffs,
    root: Coset,
    sized: Coset,
    log_blowup: nat,
    max_log: nat,
)
    requires
        root.wf(),
        column.fits(root, log_blowup),
        column.log_size_s() + log_blowup <= max_log,
        0 < max_log <= root.log_size + 1,
        sized.wf(),
        sized == root.repeated_double_s((root.log_size - (max_log - 1)) as nat),
    ensures
        column.fits(sized, log_blowup),
{
    reveal(EvalsOrCoeffs::fits);
    let ext = canonic_domain(column.log_size_s() + log_blowup).half_coset;
    lemma_canonic_domain_wf(column.log_size_s() + log_blowup);
    lemma_doubling_below(root, sized, ext);
    match column {
        EvalsOrCoeffs::Evals(evals) => {
            lemma_doubling_below(root, sized, evals.domain.half_coset);
        },
        EvalsOrCoeffs::Coeffs(coeffs) => {},
    }
}

/// Doublings of a root that are no larger than another doubling of it are doublings of that one.
proof fn lemma_doubling_below(root: Coset, mid: Coset, low: Coset)
    requires
        root.wf(),
        mid.wf(),
        low.wf(),
        mid.doubling_of_s(root),
        low.doubling_of_s(root),
        low.log_size <= mid.log_size,
    ensures
        low.doubling_of_s(mid),
{
    lemma_same_doubling(
        root,
        mid,
        (mid.log_size - low.log_size) as nat,
        (root.log_size - low.log_size) as nat,
    );
}

/// The columns parted by size, each class with the places of its columns.
struct Partition {
    large_indices: Vec<usize>,
    large_columns: Vec<EvalsOrCoeffs>,
    small_indices: Vec<usize>,
    small_columns: Vec<EvalsOrCoeffs>,
}

/// Parts the columns into the large and the small ones, in order.
fn partition_columns(columns: Vec<EvalsOrCoeffs>) -> (r: Partition)
    requires
        forall|i: int| 0 <= i < columns.len() ==> (#[trigger] columns@[i]).wf(),
    ensures
        r.large_columns@ == columns_at(columns@, r.large_indices@),
        r.small_columns@ == columns_at(columns@, r.small_indices@),
        r.small_columns@ == small_columns(columns@),
        covers_once(r.large_indices@, r.small_indices@, columns@.len()),
{
    let total = columns.len();
    let ghost all = columns@;
    let ghost small = |c: EvalsOrCoeffs| !is_large(c);
    let mut large_indices: Vec<usize> = Vec::new();
    let mut large_columns: Vec<EvalsOrCoeffs> = Vec::new();
    let mut small_indices: Vec<usize> = Vec::new();
    let mut small_cols: Vec<EvalsOrCoeffs> = Vec::new();
    let mut index: usize = 0;
    proof {
        reveal(Seq::filter);
    }
    for column in iter: columns
        invariant
            iter.seq() == all,
            index == iter.index(),
            all.len() == total,
            small == (|c: EvalsOrCoeffs| !is_large(c)),
            forall|i: int| 0 <= i < all.len() ==> (#[trigger] all[i]).wf(),
            large_columns@ == columns_at(all, large_indices@),
            small_cols@ == columns_at(all, small_indices@),
            small_cols@ == all.take(index as int).filter(small),
            covers_once(large_indices@, small_indices@, index as nat),
    {
        assert(column == all[iter.index() as int]);
        proof {
            let now = all.take(index + 1);
            assert(now.drop_last() =~= all.take(index as int));
            assert(now.last() == column);
            reveal(Seq::filter);
            lemma_covers_step(large_indices@, small_indices@, index);
        }
        if column_log_size(&column) >= SIMD_DISPATCH_LOG_SIZE {
            large_indices.push(index);
            large_columns.push(column);
            assert(large_columns@ =~= columns_at(all, large_indices@));
        } else {
            small_indices.push(index);
            small_cols.push(column);
            assert(small_cols@ =~= columns_at(all, small_indices@));
        }
        index = index + 1;
    }
    assert(all.take(all.len() as int) =~= all);
    Partition { large_indices, large_columns, small_indices, small_columns: small_cols }
}

/// Interpolates and extends the columns of a commitment, in order.
///
/// Columns of very different sizes are parted into a batch of large ones and the small ones;
/// each class is transformed by itself, and the results are put back into the order of the
/// columns.
pub fn interpolate_and_evaluate_polynomials(
    columns: Vec<EvalsOrCoeffs>,
    log_blowup_factor: u32,
    twiddles: &TwiddleTree,
    store_polynomials_coefficients: bool,
    pool: &mut BaseColumnPool,
) -> (r: Vec<Poly>)
    requires
        twiddles.wf(),
        old(pool).wf(),
        forall|i: int|
            0 <= i < columns.len() ==> (#[trigger] columns@[i]).fits(
                twiddles.root_coset,
                log_blowup_factor as nat,
            ),
    ensures
        final(pool).wf(),
        final(pool).held() == draw_all(
            old(pool).held(),
            small_columns(columns@),
            log_blowup_factor as nat,
        ),
        r.len() == columns.len(),
        forall|i: int|
            0 <= i < r.len() ==> committed(
                columns@[i],
                log_blowup_factor as nat,
                store_polynomials_coefficients,
                #[trigger] r@[i],
            ),
{
    let total_columns = columns.len();
    let ghost all = columns@;
    proof {
        assert forall|i: int| 0 <= i < all.len() implies (#[trigger] all[i]).wf() by {
            reveal(EvalsOrCoeffs::fits);
            assert(all[i].fits(twiddles.root_coset, log_blowup_factor as nat));
        }
    }
    let parts = partition_columns(columns);
    let ghost li = parts.large_indices@;
    let ghost si = parts.small_indices@;
    let ghost lc = parts.large_columns@;
    let ghost sc = parts.small_columns@;
    proof {
        assert forall|i: int| 0 <= i < lc.len() implies (#[trigger] lc[i]).fits(
            twiddles.root_coset,
            log_blowup_factor as nat,
        ) by {
            assert(li[i] < all.len());
            assert(lc[i] == all[li[i] as int]);
        }
        assert forall|i: int| 0 <= i < sc.len() implies (#[trigger] sc[i]).fits(
            twiddles.root_coset,
            log_blowup_factor as nat,
        ) by {
            assert(si[i] < all.len());
            assert(sc[i] == all[si[i] as int]);
        }
    }
    let large_polys = extend_batch(
        parts.large_columns,
        log_blowup_factor,
        twiddles,
        store_polynomials_coefficients,
    );
    let small_polys = fallback_interpolate_and_evaluate_polynomials(
        parts.small_columns,
        log_blowup_factor,
        twiddles,
        store_polynomials_coefficients,
        pool,
    );
    let ghost lp = large_polys@;
    let ghost sp = small_polys@;
    let r = restore_polynomial_order(
        total_columns,
        parts.large_indices,
        large_polys,
        parts.small_indices,
        small_polys,
    );
    proof {
        assert forall|i: int| 0 <= i < r.len() implies committed(
            all[i],
            log_blowup_factor as nat,
            store_polynomials_coefficients,
            #[trigger] r@[i],
        ) by {
            let u = i as usize;
            if si.contains(u) {
                let k = choose|k: int| 0 <= k < si.len() && si[k] == u;
                assert(r@[si[k] as int] == sp[k]);
                assert(sc[k] == all[i]);
            } else {
                assert(li.contains(u));
                let k = choose|k: int| 0 <= k < li.len() && li[k] == u;
                assert(r@[li[k] as int] == lp[k]);
                assert(lc[k] == all[i]);
            }
        }
    }
    r
}

proof fn lemma_covers_step(a: Seq<usize>, b: Seq<usize>, index: usize)
    requires
        covers_once(a, b, index as nat),
    ensures
        covers_once(a.push(index), b, (index + 1) as nat),
        covers_once(a, b.push(index), (index + 1) as nat),
{
    let a2 = a.push(index);
    let b2 = b.push(index);
    assert(!a.contains(index)) by {
        if a.contains(index) {
            let k = choose|k: int| 0 <= k < a.len() && a[k] == index;
            assert(a[k] < index);
        }
    }
    assert(!b.contains(index)) by {
        if b.contains(index) {
            let k = choose|k: int| 0 <= k < b.len() && b[k] == index;
            assert(b[k] < index);
        }
    }
    assert forall|x: usize| #[trigger] a2.contains(x) <==> a.contains(x) || x == index by {
        if a.contains(x) {
            let k = choose|k: int| 0 <= k < a.len() && a[k] == x;
            assert(a2[k] == x);
        }
        if x == index {
            assert(a2[a.len() as int] == x);
        }
        if a2.contains(x) {
            let k = choose|k: int| 0 <= k < a2.len() && a2[k] == x;
            if k < a.len() {
                assert(a[k] == x);
            }
        }
    }
    assert forall|x: usize| #[trigger] b2.contains(x) <==> b.contains(x) || x == index by {
        if b.contains(x) {
            let k = choose|k: int| 0 <= k < b.len() && b[k] == x;
            assert(b2[k] == x);
        }
        if x == index {
            assert(b2[b.len() as int] == x);
        }
        if b2.contains(x) {
            let k = choose|k: int| 0 <= k < b2.len() && b2[k] == x;
            if k < b.len() {
                assert(b[k] == x);
            }
        }
    }
    assert forall|k: int| 0 <= k < a2.len() implies #[trigger] a2[k] < index + 1 && !b.contains(
        a2[k],
    ) by {
        if k < a.len() {
            assert(a2[k] == a[k]);
        }
    }
    assert forall|k: int| 0 <= k < b2.len() implies #[trigger] b2[k] < index + 1 && !a.contains(
        b2[k],
    ) by {
        if k < b.len() {
            assert(b2[k] == b[k]);
        }
    }
    assert forall|k: int| 0 <= k < b.len() implies #[trigger] b[k] < index + 1 && !a2.contains(
        b[k],
    ) by {}
    assert forall|k: int| 0 <= k < a.len() implies #[trigger] a[k] < index + 1 && !b2.contains(
        a[k],
    ) by {}
    assert(a2.no_duplicates()) by {
        assert forall|i: int, j: int| 0 <= i < a2.len() && 0 <= j < a2.len() && i != j implies a2[i]
            != a2[j] by {
            if i < a.len() && j < a.len() {
                assert(a[i] != a[j]);
            } else if i < a.len() {
                assert(a.contains(a[i]));
            } else if j < a.len() {
                assert(a.contains(a[j]));
            }
        }
    }
    assert(b2.no_duplicates()) by {
        assert forall|i: int, j: int| 0 <= i < b2.len() && 0 <= j < b2.len() && i != j implies b2[i]
            != b2[j] by {
            if i < b.len() && j < b.len() {
                assert(b[i] != b[j]);
            } else if i < b.len() {
                assert(b.contains(b[i]));
            } else if j < b.len() {
                assert(b.contains(b[j]));
            }
        }
    }
}

} // verus!
