//! Polynomials on the circle, in coefficient and in evaluation form.

use vstd::arithmetic::power2::pow2;
use vstd::prelude::*;

use super::domain::CircleDomain;
use crate::fields::m31::M31;
use crate::fields::Field;
use crate::utils::{ilog2, lemma_log_unique, lemma_pow2_bound};

verus! {

/// A length that is a power of two of at most `2^31`.
pub open spec fn is_pow2_len(len: nat) -> bool {
    exists|k: nat| k <= 31 && len == #[trigger] pow2(k)
}

/// A polynomial by its coefficients in the circle FFT basis.
pub struct CircleCoefficients {
    pub coeffs: Vec<M31>,
    pub log_size: u32,
}

impl CircleCoefficients {
    pub open spec fn wf(self) -> bool {
        &&& self.log_size <= 31
        &&& self.coeffs.len() == pow2(self.log_size as nat)
    }

    pub fn new(coeffs: Vec<M31>) -> (r: CircleCoefficients)
        requires
            is_pow2_len(coeffs@.len()),
        ensures
            r.wf(),
            r.coeffs == coeffs,
    {
        proof {
            let k = choose|k: nat| k <= 31 && coeffs@.len() == #[trigger] pow2(k);
            lemma_pow2_bound(k);
        }
        let log_size = ilog2(coeffs.len());
        proof {
            let k = choose|k: nat| k <= 31 && coeffs@.len() == #[trigger] pow2(k);
            lemma_log_unique(log_size as nat, k);
        }
        CircleCoefficients { coeffs, log_size }
    }

    pub fn log_size(&self) -> (r: u32)
        ensures
            r == self.log_size,
    {
        self.log_size
    }
}

/// The values of a polynomial on a domain, in bit-reversed order.
pub struct CircleEvaluation {
    pub domain: CircleDomain,
    pub values: Vec<M31>,
}

impl CircleEvaluation {
    pub open spec fn wf(self) -> bool {
        &&& self.domain.wf()
        &&& self.values.len() == self.domain.size_s()
    }

    pub fn new(domain: CircleDomain, values: Vec<M31>) -> (r: CircleEvaluation)
        requires
            domain.wf(),
            values.len() == domain.size_s(),
        ensures
            r.wf(),
            r.domain == domain,
            r.values == values,
    {
        CircleEvaluation { domain, values }
    }
}

/// A column to be committed: its values on a domain, or its coefficients.
pub enum EvalsOrCoeffs {
    Evals(CircleEvaluation),
    Coeffs(CircleCoefficients),
}

/// A committed polynomial: its evaluations on the extended domain and, where they were kept, its
/// coefficients.
pub struct Poly {
    pub coeffs: Option<CircleCoefficients>,
    pub evals: CircleEvaluation,
}

impl Poly {
    pub fn new(coeffs: Option<CircleCoefficients>, evals: CircleEvaluation) -> (r: Poly)
        ensures
            r.coeffs == coeffs,
            r.evals == evals,
    {
        Poly { coeffs, evals }
    }
}

} // verus!
