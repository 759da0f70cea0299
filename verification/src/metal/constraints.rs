//! Constraint quotients in a device pass. The pass reads the columns through one table of
//! addresses, and weighs the base field constraints of each row by the powers of the random
//! coefficient.

use vstd::arithmetic::power2::pow2;
use vstd::prelude::*;

use crate::fields::m31::M31;
use crate::fields::qm31::QM31;
use crate::fields::Field;
use crate::secure_column::SecureColumnByCoords;
use crate::utils::pow2_usize;

verus! {

/// The least logarithmic number of rows of a pass.
pub const MIN_METAL_CONSTRAINT_LOG_SIZE: u32 = 16;

/// The parameters of a pass.
#[derive(Clone, Copy, Debug, PartialEq, Eq)]
pub struct ConstraintParams {
    pub n_rows: u32,
    pub trace_log_size: u32,
    /// Where the columns of each interaction start in the table of addresses.
    pub interaction_base: [u32; 4],
}

/// How many columns the first `t` interactions have.
pub open spec fn columns_before(widths: Seq<usize>, t: int) -> int
    decreases t,
{
    if t <= 0 {
        0
    } else {
        columns_before(widths, t - 1) + widths[t - 1]
    }
}

/// The parameters of a pass over interactions of the given widths.
pub fn constraint_params(widths: &Vec<usize>, n_rows: u32, trace_log_size: u32) -> (r:
    ConstraintParams)
    requires
        widths@.len() <= 4,
        columns_before(widths@, widths@.len() as int) <= u32::MAX,
    ensures
        r.n_rows == n_rows,
        r.trace_log_size == trace_log_size,
        forall|t: int|
            0 <= t < 4 ==> #[trigger] r.interaction_base@[t] == if t < widths@.len() {
                columns_before(widths@, t)
            } else {
                0
            },
{
    let n = widths.len();
    let mut interaction_base: [u32; 4] = [0; 4];
    let mut addresses: u64 = 0;
    let mut t: usize = 0;
    while t < n
        invariant
            t <= n == widths@.len(),
            n <= 4,
            columns_before(widths@, n as int) <= u32::MAX,
            addresses == columns_before(widths@, t as int),
            forall|s: int|
                0 <= s < t ==> #[trigger] interaction_base@[s] == columns_before(widths@, s),
            forall|s: int| t <= s < 4 ==> #[trigger] interaction_base@[s] == 0,
        decreases n - t,
    {
        proof {
            lemma_columns_before(widths@, t as int, n as int);
            lemma_columns_before(widths@, t + 1, n as int);
        }
        interaction_base[t] = addresses as u32;
        addresses = addresses + widths[t] as u64;
        t += 1;
    }
    ConstraintParams { n_rows, trace_log_size, interaction_base }
}

proof fn lemma_columns_before(widths: Seq<usize>, a: int, b: int)
    requires
        0 <= a <= b <= widths.len(),
    ensures
        0 <= columns_before(widths, a) <= columns_before(widths, b),
    decreases b,
{
    if a < b {
        lemma_columns_before(widths, a, b - 1);
    } else if b > 0 {
        lemma_columns_before(widths, 0, b - 1);
    }
}

/// The powers of the random coefficient as words, four for each.
pub fn power_words(powers: &[QM31]) -> (r: Vec<u32>)
    requires
        4 * powers@.len() <= usize::MAX,
    ensures
        r@ == Seq::new(4 * powers@.len(), |i: int| powers@[i / 4].coords()[i % 4].0),
{
    let ghost target = Seq::new(4 * powers@.len(), |i: int| powers@[i / 4].coords()[i % 4].0);
    let mut r: Vec<u32> = Vec::new();
    let mut k: usize = 0;
    while k < powers.len()
        invariant
            k <= powers@.len(),
            target == Seq::new(4 * powers@.len(), |i: int| powers@[i / 4].coords()[i % 4].0),
            r@ == target.take(4 * k),
        decreases powers@.len() - k,
    {
        let p = powers[k];
        r.push(p.0.0.0);
        r.push(p.0.1.0);
        r.push(p.1.0.0);
        r.push(p.1.1.0);
        k += 1;
        assert(r@ =~= target.take(4 * k));
    }
    assert(r@ =~= target);
    r
}

/// `sum_k power_k * value_k` over the first `n` constraints of a row.
pub open spec fn weighted_constraints(powers: Seq<QM31>, values: Seq<M31>, n: nat) -> QM31
    decreases n,
{
    if n == 0 {
        QM31::zero_el()
    } else {
        weighted_constraints(powers, values, (n - 1) as nat).plus(
            powers[n - 1].scaled(values[n - 1]),
        )
    }
}

/// Adds to each row of a column the row's weighted constraints, divided by what vanishes on the
/// trace.
pub fn accumulate_constraints_metal(
    constraint_values: &Vec<Vec<M31>>,
    random_coeff_powers: &[QM31],
    denom_inv: &[M31],
    accum: &SecureColumnByCoords,
    trace_log_size: u32,
) -> (r: SecureColumnByCoords)
    requires
        trace_log_size <= 31,
        accum.wf(),
        accum.len_s() == constraint_values@.len(),
        constraint_values@.len() <= pow2(trace_log_size as nat) * denom_inv@.len(),
        forall|row: int|
            0 <= row < constraint_values@.len() ==> (#[trigger] constraint_values@[row])@.len()
                <= random_coeff_powers@.len(),
    ensures
        r.wf(),
        r.elements() == Seq::new(
            constraint_values@.len(),
            |row: int|
                accum.elements()[row].plus(
                    weighted_constraints(
                        random_coeff_powers@,
                        constraint_values@[row]@,
                        constraint_values@[row]@.len(),
                    ).scaled(denom_inv@[row / pow2(trace_log_size as nat) as int]),
                ),
        ),
{
    let n_rows = constraint_values.len();
    let per_inverse = pow2_usize(trace_log_size);
    let ghost target = Seq::new(
        constraint_values@.len(),
        |row: int|
            accum.elements()[row].plus(
                weighted_constraints(
                    random_coeff_powers@,
                    constraint_values@[row]@,
                    constraint_values@[row]@.len(),
                ).scaled(denom_inv@[row / pow2(trace_log_size as nat) as int]),
            ),
    );
    let mut r = SecureColumnByCoords::new_empty();
    let mut row: usize = 0;
    while row < n_rows
        invariant
            row <= n_rows == constraint_values@.len(),
            accum.wf(),
            accum.len_s() == n_rows,
            per_inverse == pow2(trace_log_size as nat),
            per_inverse >= 1,
            n_rows <= per_inverse * denom_inv@.len(),
            forall|row: int|
                0 <= row < constraint_values@.len() ==> (#[trigger] constraint_values@[row])@.len()
                    <= random_coeff_powers@.len(),
            target == Seq::new(
                constraint_values@.len(),
                |row: int|
                    accum.elements()[row].plus(
                        weighted_constraints(
                            random_coeff_powers@,
                            constraint_values@[row]@,
                            constraint_values@[row]@.len(),
                        ).scaled(denom_inv@[row / pow2(trace_log_size as nat) as int]),
                    ),
            ),
            r.wf(),
            r.elements() == target.take(row as int),
        decreases n_rows - row,
    {
        let values = &constraint_values[row];
        let mut sum = QM31::zero();
        let mut k: usize = 0;
        while k < values.len()
            invariant
                k <= values@.len() <= random_coeff_powers@.len(),
                sum == weighted_constraints(random_coeff_powers@, values@, k as nat),
            decreases values@.len() - k,
        {
            sum = sum.add(random_coeff_powers[k].mul_m31(values[k]));
            k += 1;
        }
        proof {
            let (q, p, m) = (row as int / per_inverse as int, per_inverse as int, denom_inv@.len());
            vstd::arithmetic::div_mod::lemma_fundamental_div_mod(row as int, p);
            vstd::arithmetic::div_mod::lemma_mod_bound(row as int, p);
            assert(0 <= q < m) by (nonlinear_arith)
                requires
                    row == p * q + row as int % p,
                    0 <= row as int % p < p,
                    0 <= row < p * m,
                    p >= 1,
            ;
        }
        let d = denom_inv[row / per_inverse];
        r.push(accum.at(row).add(sum.mul_m31(d)));
        row += 1;
        assert(r.elements() =~= target.take(row as int));
    }
    assert(target.take(n_rows as int) =~= target);
    r
}

} // verus!
