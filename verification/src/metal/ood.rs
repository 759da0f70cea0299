//! Out-of-domain sampling on the GPU: which batches are admitted, the tables and parameters they
//! are given, and what the returned words mean.

use vstd::arithmetic::power2::{lemma2_to64, lemma_pow2_adds, pow2};
use vstd::prelude::*;

use crate::circle::{
    gen_point, lemma_gen_point_add, lemma_gen_point_mod, m31_gen, norm_of, subgroup_step,
    CirclePoint,
};
use crate::constraint_laws::lemma_difference;
use crate::constraints::{coset_vanishing, coset_vanishing_derivative, embed_point};
use crate::fields::m31::M31;
use crate::fields::qm31::{embed, QM31};
use crate::fields::{
    inv_of, lemma_inv_exists, lemma_inv_of, lemma_invertible_nonzero, lemma_mul_opposite,
    lemma_mul_zero, lemma_opposite_twice, Field,
};
use crate::poly::barycentric::{
    canonic_vanishing, weight_s, weight_scale, weights_s, BarycentricEvalGroup,
};
use crate::poly::domain::{
    canonic_domain, lemma_canonic_domain_wf, lemma_reversed_pair, CanonicCoset,
};
use crate::poly::eval::lemma_scaled_is_times;
use crate::poly::ifft::two_pow;
use crate::poly::lagrange::{lemma_mul_swap_middle, lemma_weight_scale, lemma_weights_exist};
use crate::utils::{
    bit_rev, bit_reverse_index, lemma_bit_rev_range, lemma_bit_rev_split, lemma_bit_rev_zero, lemma_pow2_bound,
    lemma_pow2_double, lemma_pow2_le, pow2_usize,
};

verus! {

/// The smallest size, as a logarithm, that is worth submitting.
pub const MIN_METAL_OOD_LOG_SIZE: u32 = 16;

/// The smallest number of columns of a barycentric batch.
pub const MIN_METAL_BARYCENTRIC_COLUMNS: usize = 64;

/// The smallest number of row products of a barycentric batch.
pub const MIN_METAL_BARYCENTRIC_WORK: usize = 134217728;

/// Whether a barycentric batch is large enough to be submitted: enough columns, and enough row
/// products in all.
pub fn should_batch_barycentric_on_metal(n_rows: usize, n_columns: usize) -> (r: bool)
    ensures
        r == (n_columns >= MIN_METAL_BARYCENTRIC_COLUMNS && n_rows * n_columns
            >= MIN_METAL_BARYCENTRIC_WORK),
{
    if n_columns < MIN_METAL_BARYCENTRIC_COLUMNS {
        return false;
    }
    match n_rows.checked_mul(n_columns) {
        Some(work) => work >= MIN_METAL_BARYCENTRIC_WORK,
        None => true,
    }
}

/// The points of a domain in blocks of 256 rows: the first point of each block, and the 128
/// offsets that lead from it to the others. Neighbouring rows share a point, the second of them
/// reflected.
pub struct BarycentricPointTables {
    pub bases: Vec<[u32; 2]>,
    pub offsets: Vec<[u32; 2]>,
}

/// The point with the given words as coordinates.
pub open spec fn word_point(w: [u32; 2]) -> CirclePoint<M31> {
    CirclePoint { x: M31(w@[0]), y: M31(w@[1]) }
}

impl BarycentricPointTables {
    /// The point that the tables give for a row.
    pub open spec fn point(self, row: int) -> CirclePoint<M31> {
        let q = word_point(self.bases@[row / 256]).join(
            word_point(self.offsets@[(row % 256) / 2]),
        );
        if row % 2 == 0 {
            q
        } else {
            q.reflected()
        }
    }

    /// Whether the tables give the points of the canonical domain in bit-reversed order.
    pub open spec fn wf(self, log_size: nat) -> bool {
        &&& self.bases.len() == pow2((log_size - 8) as nat)
        &&& self.offsets.len() == 128
        &&& forall|row: int|
            0 <= row < pow2(log_size) ==> #[trigger] self.point(row) == canonic_domain(
                log_size,
            ).reversed_at(row)
    }
}

proof fn lemma_table_point(n: nat, row: int)
    requires
        8 <= n <= 30,
        0 <= row < pow2(n),
    ensures
        ({
            let h = canonic_domain(n).half_coset;
            let s = subgroup_step((n - 1) as nat);
            let bl = (n - 8) as nat;
            let q = h.at_s(bit_rev(row / 256, bl)).join(
                gen_point(s * ((bit_rev((row % 256) / 2, 7) * pow2(bl)) as nat)),
            );
            canonic_domain(n).reversed_at(row) == if row % 2 == 0 {
                q
            } else {
                q.reflected()
            }
        }),
        0 <= row / 256 < pow2((n - 8) as nat),
{
    let d = canonic_domain(n);
    let h = d.half_coset;
    let bl = (n - 8) as nat;
    let s = subgroup_step((n - 1) as nat) as int;
    lemma_canonic_domain_wf(n);
    lemma_pow2_double(n);
    lemma_pow2_adds(8, bl);
    lemma2_to64();
    let block = row / 256;
    let lp = (row % 256) / 2;
    assert(block < pow2(bl)) by (nonlinear_arith)
        requires
            block == row / 256,
            row < 256 * pow2(bl),
    ;
    let i = row / 2;
    assert(i == lp + 128 * block);
    lemma_reversed_pair(d, i);
    assert(row == 2 * i || row == 2 * i + 1);
    lemma_bit_rev_split(lp, block, 7, bl);
    assert(7 + bl == n - 1);
    let a = bit_rev(lp, 7) * pow2(bl);
    let b = bit_rev(block, bl);
    lemma_bit_rev_range(lp, 7);
    lemma_bit_rev_range(block, bl);
    assert(a >= 0) by (nonlinear_arith)
        requires
            a == bit_rev(lp, 7) * pow2(bl),
            bit_rev(lp, 7) >= 0,
    ;
    assert(s * a >= 0 && b * s >= 0) by (nonlinear_arith)
        requires
            a >= 0,
            s >= 0,
            b >= 0,
    ;
    assert((a + b) * s == b * s + s * a) by (nonlinear_arith);
    assert(h.index_s(a + b) == h.index_s(b) + (s * a) as nat);
    lemma_gen_point_add(h.index_s(b), (s * a) as nat);
}

/// The tables of the canonical domain of the given size.
pub fn barycentric_point_tables(log_size: u32) -> (r: BarycentricPointTables)
    requires
        8 <= log_size <= 30,
    ensures
        r.wf(log_size as nat),
{
    let half = CanonicCoset::new(log_size).half_coset();
    let block_log: u32 = log_size - 8;
    let n_blocks: usize = pow2_usize(block_log);
    let ghost n = log_size as nat;
    let ghost h = canonic_domain(n).half_coset;
    proof {
        lemma_canonic_domain_wf(n);
        lemma_pow2_le(block_log as nat, (log_size - 1) as nat);
        lemma_pow2_bound((log_size - 1) as nat);
    }
    let mut bases: Vec<[u32; 2]> = Vec::with_capacity(n_blocks);
    for block in 0..n_blocks
        invariant
            8 <= log_size <= 30,
            block_log == log_size - 8,
            n_blocks == pow2(block_log as nat),
            half == h,
            half.wf(),
            half.log_size == log_size - 1,
            pow2(block_log as nat) <= half.size_s() <= 0x8000_0000,
            bases.len() == block,
            forall|k: int|
                0 <= k < block ==> word_point(#[trigger] bases@[k]) == h.at_s(
                    bit_rev(k, block_log as nat),
                ),
    {
        let point = half.at(bit_reverse_index(block, block_log));
        bases.push([point.x.0, point.y.0]);
    }
    let mut offsets: Vec<[u32; 2]> = Vec::with_capacity(128);
    let ghost s = subgroup_step((log_size - 1) as nat);
    for lane_pair in 0..128usize
        invariant
            8 <= log_size <= 30,
            block_log == log_size - 8,
            n_blocks == pow2(block_log as nat),
            n_blocks <= 0x8000_0000,
            half.wf(),
            half.log_size == log_size - 1,
            s == subgroup_step((log_size - 1) as nat),
            offsets.len() == lane_pair,
            forall|k: int|
                0 <= k < lane_pair ==> word_point(#[trigger] offsets@[k]) == gen_point(
                    s * ((bit_rev(k, 7) * pow2(block_log as nat)) as nat),
                ),
    {
        proof {
            lemma2_to64();
        }
        let rev = bit_reverse_index(lane_pair, 7);
        assert(rev as u128 * n_blocks as u128 <= 0xFFFF_FFFF_FFFF) by (nonlinear_arith)
            requires
                rev < 128,
                n_blocks <= 0x8000_0000,
        ;
        let multiplier = rev as u128 * n_blocks as u128;
        let point = half.step.mul(multiplier);
        proof {
            lemma_gen_point_mod(s);
            crate::circle::lemma_multiple_mul(m31_gen(), s, multiplier as nat);
            assert(half.step == gen_point(s));
        }
        offsets.push([point.x.0, point.y.0]);
    }
    let r = BarycentricPointTables { bases, offsets };
    proof {
        assert forall|row: int| 0 <= row < pow2(n) implies #[trigger] r.point(row)
            == canonic_domain(n).reversed_at(row) by {
            lemma_table_point(n, row);
            assert(word_point(r.bases@[row / 256]) == h.at_s(bit_rev(row / 256, (n - 8) as nat)));
        }
    }
    r
}

/// The parameters of one weight computation: the coordinates of the point, the factor common to
/// all weights, and the number of rows.
#[derive(Clone, Copy)]
pub struct BarycentricParams {
    pub px: [u32; 4],
    pub py: [u32; 4],
    pub common: [u32; 4],
    pub n_rows: u32,
}

/// The secure field element with the given words as coordinates.
pub open spec fn word_element(w: [u32; 4]) -> QM31 {
    QM31(
        crate::fields::cm31::CM31(M31(w@[0]), M31(w@[1])),
        crate::fields::cm31::CM31(M31(w@[2]), M31(w@[3])),
    )
}

/// The coordinate words of an element.
pub fn element_words(v: QM31) -> (r: [u32; 4])
    ensures
        word_element(r) == v,
{
    [v.0.0.0, v.0.1.0, v.1.0.0, v.1.1.0]
}

/// The factor common to all weights at `p`: the value of the vanishing polynomial of the domain
/// over the scale of the first point. There is none on the domain, where that value is zero.
pub open spec fn common_s(log_size: nat, p: CirclePoint<QM31>) -> QM31 {
    QM31::one_el().times(
        inv_of(
            weight_scale(embed_point(canonic_domain(log_size).at_s(0)), log_size),
        ),
    ).times(canonic_vanishing(log_size, p))
}

/// The factor common to all weights, unless the point lies on the domain.
pub fn barycentric_common(coset: CanonicCoset, p: CirclePoint<QM31>) -> (r: Option<QM31>)
    requires
        coset.wf(),
    ensures
        r is Some <==> canonic_vanishing(coset.coset.log_size as nat, p).canon()
            != QM31::zero_el(),
        r is Some ==> r->0 == common_s(coset.coset.log_size as nat, p),
{
    let log_size: u32 = coset.log_size();
    let domain = coset.circle_domain();
    proof {
        lemma_pow2_bound(log_size as nat);
        lemma_scale_nonzero(log_size as nat);
    }
    let p0 = domain.at(0).into_ef();
    let minus_two_y = p0.y.mul(QM31::from_base(M31(2147483645)));
    let scale = minus_two_y.mul(coset_vanishing_derivative(log_size, p0));
    let inv = scale.inverse();
    proof {
        lemma_inv_of(scale, inv);
    }
    let si0 = QM31::one().mul(inv);
    let vn = coset_vanishing(coset.coset, p);
    if vn.is_zero() {
        None
    } else {
        Some(si0.mul(vn))
    }
}

proof fn lemma_scale_nonzero(n: nat)
    requires
        0 < n <= 30,
    ensures
        weight_scale(embed_point(canonic_domain(n).at_s(0)), n).canon() != QM31::zero_el(),
{
    lemma_pow2_bound(n);
    lemma_weight_scale(n, 0);
    lemma_bit_rev_zero(n);
    lemma_canonic_domain_wf(n);
    let d = canonic_domain(n);
    assert(d.reversed_at(0) == d.at_s(0));
}

/// The weight that the kernel computes for the row with domain point `q`: `(1 + h.x) / h.y` for
/// the difference `h`, times the common factor, negated in odd rows.
pub open spec fn kernel_weight(
    p: CirclePoint<QM31>,
    q: CirclePoint<M31>,
    common: QM31,
    row: int,
) -> QM31 {
    let hx = p.x.scaled(q.x).plus(p.y.scaled(q.y));
    let hy = p.y.scaled(q.x).minus(p.x.scaled(q.y));
    let w = QM31::one_el().plus(hx).times(inv_of(hy)).times(common);
    if row % 2 == 0 {
        w
    } else {
        w.opposite()
    }
}

/// `inv((s v)) n = ((1 + h.x) / h.y) (n / s)` for `v = h.y / (1 + h.x)`.
proof fn lemma_inverse_weight<F: Field>(s: F, hx1: F, hy: F, n: F)
    requires
        s.canon() != F::zero_el(),
        hx1.canon() != F::zero_el(),
        hy.canon() != F::zero_el(),
    ensures
        n.times(inv_of(s.times(hy.times(inv_of(hx1))))) == hx1.times(inv_of(hy)).times(
            F::one_el().times(inv_of(s)).times(n),
        ),
{
    let (si, hi, ki) = (inv_of(s), inv_of(hy), inv_of(hx1));
    lemma_inv_exists(s);
    lemma_inv_exists(hy);
    lemma_inv_exists(hx1);
    let v = hy.times(ki);
    let w = hx1.times(hi);
    // v w = 1
    lemma_mul_swap_middle(hy, ki, hi, hx1);
    F::law_mul_comm(hx1, hi);
    F::law_mul_comm(ki, hx1);
    F::law_mul_one(F::one_el());
    F::law_canon_results(F::one_el(), F::one_el());
    assert(v.times(w) == F::one_el());
    // (s v) (si w) = 1
    lemma_mul_swap_middle(s, v, si, w);
    let d = si.times(w);
    F::law_canon_results(si, w);
    lemma_inv_of(s.times(v), d);
    // n (si w) = w (1 si n)
    F::law_mul_comm(F::one_el(), si);
    F::law_mul_one(si);
    F::law_canon_args(si, n);
    F::law_mul_comm(si, w);
    F::law_mul_comm(n, w.times(si));
    F::law_mul_assoc(w, si, n);
}

proof fn lemma_inv_negated<F: Field>(s: F, n: F)
    requires
        s.canon() != F::zero_el(),
    ensures
        inv_of(s.opposite()) == inv_of(s).opposite(),
        s.opposite().canon() != F::zero_el(),
{
    let i = inv_of(s);
    lemma_inv_exists(s);
    lemma_mul_opposite(s.opposite(), i);
    lemma_mul_opposite(s, i);
    lemma_opposite_twice(s.times(i));
    F::law_canon_results(s, i);
    F::law_canon_results(i, i);
    lemma_inv_of(s.opposite(), i.opposite());
    lemma_invertible_nonzero(s.opposite(), i.opposite());
}

/// The kernel computes the barycentric weights.
pub proof fn lemma_kernel_weight(n: nat, p: CirclePoint<QM31>, j: int)
    requires
        0 < n <= 30,
        0 <= j < pow2(n),
        norm_of(p) == QM31::one_el(),
        canonic_vanishing(n, p).canon() != QM31::zero_el(),
    ensures
        kernel_weight(p, canonic_domain(n).reversed_at(j), common_s(n, p), j) == weight_s(n, p, j),
        p.y.scaled(canonic_domain(n).reversed_at(j).x).minus(
            p.x.scaled(canonic_domain(n).reversed_at(j).y),
        ).canon() != QM31::zero_el(),
{
    let d = canonic_domain(n);
    let qb = d.reversed_at(j);
    let q = embed_point(qb);
    let h = p.join(q.reflected());
    lemma_weights_exist(n, p);
    lemma_weight_scale(n, j);
    lemma_pow2_bound(n);
    lemma_weight_scale(n, 0);
    lemma_canonic_domain_wf(n);
    lemma_bit_rev_zero(n);
    assert(d.reversed_at(0) == d.at_s(0));
    let t = embed(two_pow(n));
    let hx = p.x.scaled(qb.x).plus(p.y.scaled(qb.y));
    let hy = p.y.scaled(qb.x).minus(p.x.scaled(qb.y));
    lemma_scaled_is_times(p.x, qb.x);
    lemma_scaled_is_times(p.y, qb.y);
    lemma_scaled_is_times(p.y, qb.x);
    lemma_scaled_is_times(p.x, qb.y);
    lemma_difference_coordinates(p, q);
    assert(h.x == hx && h.y == hy);
    let vn = canonic_vanishing(n, p);
    let one = QM31::one_el();
    QM31::law_canon_results(one, hx);
    let k = one.plus(hx);
    assert(hy.canon() != QM31::zero_el()) by {
        QM31::law_canon_results(p.y.times(q.x), p.x.times(q.y));
        if hy == QM31::zero_el() {
            lemma_mul_zero(inv_of(k));
            lemma_mul_zero(weight_scale(q, n));
        }
    }
    if j % 2 == 0 {
        lemma_inverse_weight(t, k, hy, vn);
    } else {
        lemma_inverse_weight(t.opposite(), k, hy, vn);
        lemma_inv_negated(t, vn);
        let i = inv_of(t);
        let w = k.times(inv_of(hy));
        lemma_negate_factor(w, i, vn);
    }
}

/// `w (1 (-i) n) = -(w (1 i n))`.
proof fn lemma_negate_factor<F: Field>(w: F, i: F, n: F)
    ensures
        w.times(F::one_el().times(i.opposite()).times(n)) == w.times(
            F::one_el().times(i).times(n),
        ).opposite(),
{
    let one = F::one_el();
    lemma_mul_opposite(one, i);
    lemma_mul_opposite(one.times(i), n);
    lemma_mul_opposite(w, one.times(i).times(n));
}

/// The coordinates of the difference of two points.
proof fn lemma_difference_coordinates<F: Field>(p: CirclePoint<F>, q: CirclePoint<F>)
    ensures
        p.join(q.reflected()).x == p.x.times(q.x).plus(p.y.times(q.y)),
        p.join(q.reflected()).y == p.y.times(q.x).minus(p.x.times(q.y)),
{
    lemma_difference(q, p);
}

/// Weights from the block tables, row by row as the kernel computes them. Sizes below the floor
/// and points on the domain are declined.
pub fn barycentric_weights_metal(coset: CanonicCoset, p: CirclePoint<QM31>) -> (r: Option<
    Vec<QM31>,
>)
    requires
        coset.wf(),
        norm_of(p) == QM31::one_el(),
    ensures
        r is Some <==> coset.coset.log_size >= MIN_METAL_OOD_LOG_SIZE && canonic_vanishing(
            coset.coset.log_size as nat,
            p,
        ).canon() != QM31::zero_el(),
        r is Some ==> r->0@ == weights_s(coset.coset.log_size as nat, p),
{
    let log_size: u32 = coset.log_size();
    if log_size < MIN_METAL_OOD_LOG_SIZE {
        return None;
    }
    let common = match barycentric_common(coset, p) {
        Some(c) => c,
        None => {
            return None;
        },
    };
    let tables = barycentric_point_tables(log_size);
    let n: usize = pow2_usize(log_size);
    let ghost lg = log_size as nat;
    let mut r: Vec<QM31> = Vec::with_capacity(n);
    for row in 0..n
        invariant
            16 <= log_size <= 30,
            lg == log_size,
            n == pow2(lg),
            tables.wf(lg),
            norm_of(p) == QM31::one_el(),
            canonic_vanishing(lg, p).canon() != QM31::zero_el(),
            common == common_s(lg, p),
            r@ == weights_s(lg, p).take(row as int),
    {
        proof {
            lemma_table_point(lg, row as int);
            lemma_kernel_weight(lg, p, row as int);
            assert(tables.point(row as int) == canonic_domain(lg).reversed_at(row as int));
        }
        let base = tables.bases[row / 256];
        let offset = tables.offsets[(row % 256) / 2];
        let b = CirclePoint { x: M31(base[0]), y: M31(base[1]) };
        let o = CirclePoint { x: M31(offset[0]), y: M31(offset[1]) };
        let mut q = b.add(o);
        if row % 2 == 1 {
            q = q.conjugate();
        }
        let hx = p.x.mul_m31(q.x).add(p.y.mul_m31(q.y));
        let hy = p.y.mul_m31(q.x).sub(p.x.mul_m31(q.y));
        let inv = hy.inverse();
        proof {
            lemma_inv_of(hy, inv);
        }
        let weight = QM31::one().add(hx).mul(inv).mul(common);
        if row % 2 == 0 {
            r.push(weight);
        } else {
            r.push(weight.neg());
        }
        assert(r@ =~= weights_s(lg, p).take(row + 1));
    }
    assert(r@ =~= weights_s(lg, p));
    Some(r)
}

/// One admitted group of columns: its place among the groups, its shape, and the parameters of
/// its weights.
pub struct BarycentricPlan {
    pub group_index: usize,
    pub n_rows: usize,
    pub n_columns: usize,
    pub params: BarycentricParams,
}

/// Whether a group can be submitted: large enough, not empty, all its columns on the canonical
/// domain, and its point off the domain.
pub open spec fn group_admitted(g: BarycentricEvalGroup) -> bool {
    let n = g.coset.coset.log_size as nat;
    &&& n >= MIN_METAL_OOD_LOG_SIZE
    &&& g.evals.len() > 0
    &&& forall|k: int|
        0 <= k < g.evals.len() ==> (#[trigger] g.evals@[k]).values.len() == pow2(n)
            && g.evals@[k].domain == canonic_domain(n)
    &&& canonic_vanishing(n, g.point).canon() != QM31::zero_el()
}

/// The plan of an admitted group.
pub open spec fn plan_of(index: int, g: BarycentricEvalGroup, plan: BarycentricPlan) -> bool {
    let n = g.coset.coset.log_size as nat;
    &&& plan.group_index == index
    &&& plan.n_rows == pow2(n)
    &&& plan.n_columns == g.evals.len()
    &&& word_element(plan.params.px) == g.point.x
    &&& word_element(plan.params.py) == g.point.y
    &&& word_element(plan.params.common) == common_s(n, g.point)
    &&& plan.params.n_rows == pow2(n)
}

/// The places below `k` of the admitted groups, in order.
pub open spec fn admitted_places(groups: Seq<BarycentricEvalGroup>, k: nat) -> Seq<int>
    decreases k,
{
    if k == 0 {
        Seq::empty()
    } else {
        let before = admitted_places(groups, (k - 1) as nat);
        if group_admitted(groups[k - 1]) {
            before.push(k - 1)
        } else {
            before
        }
    }
}

/// The plan of a group, where it is admitted.
pub fn plan_group(group: &BarycentricEvalGroup, group_index: usize) -> (r: Option<BarycentricPlan>)
    requires
        group.coset.wf(),
    ensures
        r is Some <==> group_admitted(*group),
        r is Some ==> plan_of(group_index as int, *group, r->0),
{
    let log_size: u32 = group.coset.log_size();
    if log_size < MIN_METAL_OOD_LOG_SIZE || group.evals.len() == 0 {
        return None;
    }
    let n_rows: usize = pow2_usize(log_size);
    let domain = group.coset.circle_domain();
    let n: usize = group.evals.len();
    for k in 0..n
        invariant
            n == group.evals.len(),
            log_size == group.coset.coset.log_size,
            n_rows == pow2(log_size as nat),
            domain == canonic_domain(log_size as nat),
            forall|i: int|
                0 <= i < k ==> (#[trigger] group.evals@[i]).values.len() == n_rows
                    && group.evals@[i].domain == domain,
    {
        let evaluation = group.evals[k];
        if evaluation.values.len() != n_rows || evaluation.domain != domain {
            assert(!group_admitted(*group)) by {
                assert(group.evals@[k as int] == evaluation);
            }
            return None;
        }
    }
    match barycentric_common(group.coset, group.point) {
        Some(common) => {
            proof {
                lemma_pow2_bound(log_size as nat);
            }
            Some(
                BarycentricPlan {
                    group_index,
                    n_rows,
                    n_columns: n,
                    params: BarycentricParams {
                        px: element_words(group.point.x),
                        py: element_words(group.point.y),
                        common: element_words(common),
                        n_rows: n_rows as u32,
                    },
                },
            )
        },
        None => None,
    }
}

/// The plans of the admitted groups, in the order of the groups.
pub fn plan_barycentric_groups(groups: &Vec<BarycentricEvalGroup>) -> (r: Vec<BarycentricPlan>)
    requires
        forall|k: int| 0 <= k < groups.len() ==> (#[trigger] groups@[k]).coset.wf(),
    ensures
        r.len() == admitted_places(groups@, groups.len() as nat).len(),
        forall|i: int|
            0 <= i < r.len() ==> plan_of(
                admitted_places(groups@, groups.len() as nat)[i],
                groups@[admitted_places(groups@, groups.len() as nat)[i]],
                #[trigger] r@[i],
            ),
{
    let mut r: Vec<BarycentricPlan> = Vec::new();
    let n: usize = groups.len();
    for k in 0..n
        invariant
            n == groups.len(),
            forall|i: int| 0 <= i < groups.len() ==> (#[trigger] groups@[i]).coset.wf(),
            r.len() == admitted_places(groups@, k as nat).len(),
            forall|i: int|
                0 <= i < r.len() ==> plan_of(
                    admitted_places(groups@, k as nat)[i],
                    groups@[admitted_places(groups@, k as nat)[i]],
                    #[trigger] r@[i],
                ),
    {
        assert(groups@[k as int].coset.wf());
        match plan_group(&groups[k], k) {
            Some(plan) => {
                r.push(plan);
            },
            None => {},
        }
    }
    r
}

/// The elements that a run of words holds, four words each.
pub open spec fn decoded_s(words: Seq<u32>) -> Seq<QM31> {
    Seq::new(
        words.len() / 4,
        |i: int|
            QM31(
                crate::fields::cm31::CM31(M31(words[4 * i]), M31(words[4 * i + 1])),
                crate::fields::cm31::CM31(M31(words[4 * i + 2]), M31(words[4 * i + 3])),
            ),
    )
}

/// Reads elements out of a run of words, four words each.
pub fn decode_elements(words: &[u32]) -> (r: Vec<QM31>)
    ensures
        r@ == decoded_s(words@),
{
    let n: usize = words.len() / 4;
    let mut r: Vec<QM31> = Vec::with_capacity(n);
    for i in 0..n
        invariant
            n == words.len() / 4,
            r@ == decoded_s(words@).take(i as int),
    {
        r.push(
            QM31::from_u32_unchecked(
                words[4 * i],
                words[4 * i + 1],
                words[4 * i + 2],
                words[4 * i + 3],
            ),
        );
        assert(r@ =~= decoded_s(words@).take(i + 1));
    }
    assert(r@ =~= decoded_s(words@));
    r
}

/// The plan, if any, that belongs to the group at place `k`.
pub open spec fn plan_at(plans: Seq<BarycentricPlan>, k: int) -> Option<int> {
    if exists|i: int| 0 <= i < plans.len() && (#[trigger] plans[i]).group_index == k {
        Some(choose|i: int| 0 <= i < plans.len() && (#[trigger] plans[i]).group_index == k)
    } else {
        None
    }
}

/// Puts the outputs of the admitted groups at their places among all groups; the others stay
/// without a result. If the submission failed, no group has a result.
pub fn barycentric_group_results(
    n_groups: usize,
    plans: &Vec<BarycentricPlan>,
    outputs: &Option<Vec<Vec<u32>>>,
) -> (r: Vec<Option<Vec<QM31>>>)
    requires
        forall|i: int| 0 <= i < plans.len() ==> (#[trigger] plans@[i]).group_index < n_groups,
        forall|i: int, j: int|
            0 <= i < j < plans.len() ==> (#[trigger] plans@[i]).group_index < (
            #[trigger] plans@[j]).group_index,
        outputs is Some ==> outputs->0.len() == plans.len(),
    ensures
        r.len() == n_groups,
        outputs is None ==> forall|k: int| 0 <= k < n_groups ==> #[trigger] r@[k] is None,
        outputs is Some ==> forall|k: int|
            0 <= k < n_groups ==> match plan_at(plans@, k) {
                Some(i) => (#[trigger] r@[k]) is Some && r@[k]->0@ == decoded_s(outputs->0@[i]@),
                None => r@[k] is None,
            },
{
    let mut r: Vec<Option<Vec<QM31>>> = Vec::new();
    match outputs {
        None => {
            for k in 0..n_groups
                invariant
                    r.len() == k,
                    forall|i: int| 0 <= i < k ==> #[trigger] r@[i] is None,
            {
                r.push(None);
            }
        },
        Some(outs) => {
            let mut next: usize = 0;
            for k in 0..n_groups
                invariant
                    next <= plans.len(),
                    outs.len() == plans.len(),
                    forall|i: int|
                        0 <= i < plans.len() ==> (#[trigger] plans@[i]).group_index < n_groups,
                    forall|i: int, j: int|
                        0 <= i < j < plans.len() ==> (#[trigger] plans@[i]).group_index < (
                        #[trigger] plans@[j]).group_index,
                    forall|i: int| 0 <= i < next ==> (#[trigger] plans@[i]).group_index < k,
                    forall|i: int|
                        next <= i < plans.len() ==> (#[trigger] plans@[i]).group_index >= k,
                    r.len() == k,
                    forall|i: int|
                        0 <= i < k ==> match plan_at(plans@, i) {
                            Some(q) => (#[trigger] r@[i]) is Some && r@[i]->0@ == decoded_s(
                                outs@[q]@,
                            ),
                            None => r@[i] is None,
                        },
            {
                if next < plans.len() && plans[next].group_index == k {
                    assert(plan_at(plans@, k as int) == Some(next as int)) by {
                        assert(plans@[next as int].group_index == k);
                        let c = choose|i: int|
                            0 <= i < plans@.len() && (#[trigger] plans@[i]).group_index == k as int;
                        assert(plans@[c].group_index == k);
                        assert(c == next);
                    }
                    r.push(Some(decode_elements(outs[next].as_slice())));
                    next = next + 1;
                } else {
                    assert(plan_at(plans@, k as int) is None) by {
                        assert forall|i: int| 0 <= i < plans@.len() implies (
                        #[trigger] plans@[i]).group_index != k by {
                            if i >= next {
                                assert(plans@[next as int].group_index >= k);
                                if i > next {
                                    assert(plans@[next as int].group_index
                                        < plans@[i].group_index);
                                }
                            }
                        }
                    }
                    r.push(None);
                }
            }
        },
    }
    r
}

} // verus!
