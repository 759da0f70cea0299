//! Univariate domains and evaluations over the `x` coordinates of a coset.

use vstd::arithmetic::power2::pow2;
use vstd::prelude::*;

use crate::circle::{double_x_iter, double_x_s, Coset};
use crate::fields::m31::M31;
use crate::fields::Field;
use crate::poly::domain::lemma_doubled_at;
use crate::poly::fold::{fold_s, mappings};
use crate::secure_column::SecureColumnByCoords;
use crate::utils::{bit_rev, lemma_bit_rev_range, lemma_pow2_bound, lemma_pow2_double};

verus! {

/// The `x` coordinates of a coset.
#[derive(Clone, Copy)]
pub struct LineDomain {
    pub coset: Coset,
}

impl LineDomain {
    pub open spec fn wf(self) -> bool {
        self.coset.wf()
    }

    pub open spec fn size_s(self) -> nat {
        self.coset.size_s()
    }

    /// The coordinate at place `j` of the bit-reversed order.
    pub open spec fn reversed_at(self, j: int) -> M31 {
        self.coset.at_s(bit_rev(j, self.coset.log_size as nat)).x
    }

    pub open spec fn double_s(self) -> LineDomain {
        LineDomain { coset: self.coset.double_s() }
    }

    pub fn new(coset: Coset) -> (r: LineDomain)
        ensures
            r.coset == coset,
    {
        LineDomain { coset }
    }

    pub fn log_size(&self) -> (r: u32)
        ensures
            r == self.coset.log_size,
    {
        self.coset.log_size
    }

    pub fn size(&self) -> (r: usize)
        requires
            self.wf(),
        ensures
            r == self.size_s(),
    {
        self.coset.size()
    }

    /// The coordinate of the `i`-th point of the coset.
    pub fn at(&self, i: usize) -> (r: M31)
        requires
            self.wf(),
            i < self.size_s(),
        ensures
            r == self.coset.at_s(i as int).x,
    {
        proof {
            lemma_pow2_bound(self.coset.log_size as nat);
        }
        self.coset.at(i).x
    }

    /// The domain of the doubled points.
    pub fn double(&self) -> (r: LineDomain)
        requires
            self.wf(),
            self.coset.log_size > 0,
        ensures
            r == self.double_s(),
            r.wf(),
    {
        LineDomain { coset: self.coset.double() }
    }
}

/// The values of a secure field polynomial on a line domain, in bit-reversed order.
pub struct LineEvaluation {
    pub domain: LineDomain,
    pub values: SecureColumnByCoords,
}

impl LineEvaluation {
    pub open spec fn wf(self) -> bool {
        &&& self.domain.wf()
        &&& self.values.wf()
        &&& self.values.len_s() == self.domain.size_s()
    }

    pub fn new(domain: LineDomain, values: SecureColumnByCoords) -> (r: LineEvaluation)
        requires
            domain.wf(),
            values.wf(),
            values.len_s() == domain.size_s(),
        ensures
            r.wf(),
            r.domain == domain,
            r.values == values,
    {
        LineEvaluation { domain, values }
    }

    pub fn len(&self) -> (r: usize)
        ensures
            r == self.values.len_s(),
    {
        self.values.len()
    }
}

/// The factors of a line polynomial at `x`: its repeated doubles, the most doubled first.
pub open spec fn line_mappings<F: Field>(n: nat, x: F) -> Seq<F> {
    Seq::new(n, |k: int| double_x_iter(x, (n - 1 - k) as nat))
}

/// The value at `x` of the line polynomial with the given `2^n` coefficients.
pub open spec fn line_at<F: Field>(coeffs: Seq<F>, n: nat, x: F) -> F {
    fold_s(coeffs, line_mappings(n, x))
}

/// Doubling first or last is the same.
pub proof fn lemma_double_x_first<F: Field>(x: F, k: nat)
    ensures
        double_x_iter(double_x_s(x), k) == double_x_iter(x, k + 1),
    decreases k,
{
    if k > 0 {
        lemma_double_x_first(x, (k - 1) as nat);
        assert(double_x_iter(x, k + 1) == double_x_s(double_x_iter(x, k)));
    } else {
        assert(double_x_iter(x, 1) == double_x_s(double_x_iter(x, 0)));
    }
}

pub proof fn lemma_line_mappings_last<F: Field>(n: nat, x: F)
    requires
        n > 0,
    ensures
        line_mappings(n, x) == line_mappings((n - 1) as nat, double_x_s(x)).push(x),
{
    let m = (n - 1) as nat;
    assert forall|k: int| 0 <= k < n implies line_mappings(n, x)[k] == line_mappings(
        m,
        double_x_s(x),
    ).push(x)[k] by {
        if k < m {
            lemma_double_x_first(x, (m - 1 - k) as nat);
            assert((m - 1 - k) as nat + 1 == (n - 1 - k) as nat);
        }
    }
    assert(line_mappings(n, x) =~= line_mappings(m, double_x_s(x)).push(x));
}

pub proof fn lemma_mappings_last<F: Field>(n: nat, x: F, y: F)
    requires
        n > 0,
    ensures
        mappings(n, x, y) == line_mappings((n - 1) as nat, x).push(y),
{
    assert(mappings(n, x, y) =~= line_mappings((n - 1) as nat, x).push(y));
}

/// Neighbours hold opposite coordinates, and both double to the one of the doubled domain.
pub proof fn lemma_line_pair(d: LineDomain, i: int)
    requires
        d.wf(),
        d.coset.log_size > 0,
        0 <= i < d.size_s() / 2,
    ensures
        d.reversed_at(2 * i) == d.coset.at_s(bit_rev(i, (d.coset.log_size - 1) as nat)).x,
        d.reversed_at(2 * i + 1) == d.reversed_at(2 * i).opposite(),
        d.double_s().reversed_at(i) == double_x_s(d.reversed_at(2 * i)),
{
    let l = d.coset.log_size as nat;
    let l1 = (l - 1) as nat;
    let k = bit_rev(i, l1);
    lemma_pow2_double(l);
    lemma_bit_rev_range(i, l1);
    assert((2 * i) % 2 == 0 && (2 * i) / 2 == i);
    assert((2 * i + 1) % 2 == 1 && (2 * i + 1) / 2 == i);
    assert(0 * pow2(l1) == 0);
    assert(1 * pow2(l1) == pow2(l1));
    let s = crate::circle::subgroup_step(l) as int;
    vstd::arithmetic::power2::lemma_pow2_adds((31 - l) as nat, l1);
    vstd::arithmetic::power2::lemma2_to64();
    assert(s * pow2(l1) == 0x4000_0000);
    assert((k + pow2(l1)) * s == k * s + 0x4000_0000) by (nonlinear_arith)
        requires
            s * pow2(l1) == 0x4000_0000,
    ;
    assert(k * s >= 0) by (nonlinear_arith)
        requires
            k >= 0,
            s >= 0,
    ;
    assert(d.coset.index_s(k + pow2(l1)) == d.coset.index_s(k) + 0x4000_0000);
    crate::circle::lemma_gen_point_half_turn(d.coset.index_s(k));
    lemma_doubled_at(d.coset, 1, k);
    assert(pow2(1) == 2);
    assert(d.coset.repeated_double_s(1) == d.coset.double_s());
    crate::circle::lemma_gen_point_double_x(d.coset.index_s(k), 1);
    assert(double_x_iter(d.coset.at_s(k).x, 1) == double_x_s(
        double_x_iter(d.coset.at_s(k).x, 0),
    ));
}

} // verus!
