//! A device pass gives what the CPU gives: the same folds, the same weighted constraints, and the
//! samples by name that have a pole.

use vstd::arithmetic::power2::{lemma_pow2_pos, lemma_pow2_unfold, pow2};
use vstd::prelude::*;

use crate::circle::Coset;
use crate::fields::m31::M31;
use crate::fields::qm31::{embed, QM31};
use crate::fields::Field;
use crate::framework::domain::weighted_sum;
use crate::fri::{pair_xs, pair_ys};
use crate::metal::blake2s::packed_words;
use crate::metal::constraints::weighted_constraints;
use crate::metal::fri::fold_coordinates;
use crate::metal::quotients::{mask_bit, pole_mask};
use crate::poly::eval::lemma_scaled_is_times;

verus! {

/// A pass over a line domain folds by the coordinates by which the CPU folds it.
pub proof fn lemma_line_fold_coordinates(coset: Coset)
    requires
        coset.log_size >= 1,
    ensures
        fold_coordinates(coset, (coset.log_size - 1) as nat, false) == pair_xs(coset),
{
    assert(fold_coordinates(coset, (coset.log_size - 1) as nat, false) =~= pair_xs(coset));
}

/// A pass over a circle domain folds by the coordinates by which the CPU folds it.
pub proof fn lemma_circle_fold_coordinates(half_coset: Coset)
    ensures
        fold_coordinates(half_coset, half_coset.log_size as nat, true) == pair_ys(half_coset),
{
    assert(fold_coordinates(half_coset, half_coset.log_size as nat, true) =~= pair_ys(half_coset));
}

/// The powers of the random coefficient by number.
pub open spec fn power_at(powers: Seq<QM31>) -> spec_fn(int) -> QM31 {
    |i: int| powers[i]
}

/// The values of constraints over the base field by number, in the extension.
pub open spec fn constraint_at(values: Seq<M31>) -> spec_fn(int) -> QM31 {
    |i: int| embed(values[i])
}

/// A pass weighs the constraints of a row as the CPU weighs them.
pub proof fn lemma_weighted_constraints(powers: Seq<QM31>, values: Seq<M31>, n: nat)
    requires
        n <= powers.len(),
        n <= values.len(),
    ensures
        weighted_constraints(powers, values, n) == weighted_sum(
            QM31::zero_el(),
            power_at(powers),
            0,
            constraint_at(values),
            n,
        ),
    decreases n,
{
    if n > 0 {
        lemma_weighted_constraints(powers, values, (n - 1) as nat);
        lemma_scaled_is_times(powers[n - 1], values[n - 1]);
    }
}

/// Coordinate `j` of row `q` stands in the packed leaf `q / 4`, rows in order and the four
/// coordinates of a row side by side.
pub proof fn lemma_packed_leaf(coords: &[Vec<M31>; 4], q: int, j: int)
    requires
        0 <= q,
        0 <= j < 4,
    ensures
        packed_words(coords, q / 4)[4 * (q % 4) + j] == coords@[j]@[q].0,
{
    let c = 4 * (q % 4) + j;
    assert(0 <= c < 16 && c % 4 == j && c / 4 == q % 4);
    assert(4 * (q / 4) + q % 4 == q);
}

/// A bit of the mask is set if and only if its sample has a pole.
pub proof fn lemma_mask_names_poles(firsts: Seq<Option<usize>>, n: int, k: int)
    requires
        0 <= k < n <= firsts.len(),
    ensures
        (pole_mask(firsts, n) / pow2(k as nat)) % 2 == 1 <==> firsts[k] is Some,
        pole_mask(firsts, n) < pow2(n as nat),
    decreases n,
{
    let m = pole_mask(firsts, n - 1);
    lemma_mask_bound(firsts, n - 1);
    lemma_pow2_unfold(n as nat);
    lemma_pow2_pos(k as nat);
    let p = pow2(k as nat) as int;
    if k == n - 1 {
        let b: int = if firsts[k] is Some {
            1
        } else {
            0
        };
        assert(m + mask_bit(firsts, k) == b * p + m) by (nonlinear_arith)
            requires
                b == 1 && mask_bit(firsts, k) == p || b == 0 && mask_bit(firsts, k) == 0,
        ;
        vstd::arithmetic::div_mod::lemma_fundamental_div_mod_converse(b * p + m, p, b, m as int);
    } else {
        lemma_mask_names_poles(firsts, n - 1, k);
        let j = (n - 1 - k) as nat;
        vstd::arithmetic::power2::lemma_pow2_adds(j, k as nat);
        lemma_pow2_unfold(j);
        let q = m as int / p;
        let h = pow2((j - 1) as nat) as int;
        if firsts[n - 1] is Some {
            vstd::arithmetic::div_mod::lemma_fundamental_div_mod(m as int, p);
            vstd::arithmetic::div_mod::lemma_mod_bound(m as int, p);
            assert(m + pow2((n - 1) as nat) == (q + 2 * h) * p + m as int % p) by (nonlinear_arith)
                requires
                    m == p * q + m as int % p,
                    pow2((n - 1) as nat) == 2 * h * p,
            ;
            vstd::arithmetic::div_mod::lemma_fundamental_div_mod_converse(
                (m + pow2((n - 1) as nat)) as int,
                p,
                q + 2 * h,
                m as int % p,
            );
        }
    }
}

proof fn lemma_mask_bound(firsts: Seq<Option<usize>>, n: int)
    requires
        0 <= n <= firsts.len(),
    ensures
        pole_mask(firsts, n) < pow2(n as nat),
    decreases n,
{
    lemma_pow2_pos(n as nat);
    if n > 0 {
        lemma_mask_bound(firsts, n - 1);
        lemma_pow2_unfold(n as nat);
    }
}

} // verus!
