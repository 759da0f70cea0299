//! A stage that may compute the whole composition polynomial in place of the prover.
//!
//! A stage is asked once for each proof, after the random coefficient has been drawn. It may
//! decline before it submits any work. Once work has been submitted, its failure is final.

use vstd::prelude::*;

use crate::fields::qm31::QM31;
use crate::pcs::scheme::Trace;
use crate::poly::circle_poly::CircleCoefficients;
use crate::poly::twiddles::TwiddleTree;

verus! {

/// A polynomial over the secure field, by coordinates.
pub struct SecureCirclePoly(pub [CircleCoefficients; 4]);

impl SecureCirclePoly {
    /// The size of the polynomial: that of its first coordinate.
    pub open spec fn log_size_s(self) -> u32 {
        self.0@[0].log_size
    }

    pub fn log_size(&self) -> (r: u32)
        ensures
            r == self.log_size_s(),
    {
        self.0[0].log_size
    }
}

/// What a stage is given, for reading. `P` is a component of the prover, and `M` how it evaluates.
pub struct CompositionPolynomialStageInputs<'call, 'trace, P, M> {
    pub component_provers: &'call Vec<P>,
    pub random_coeff: QM31,
    pub trace: &'call Trace<'trace>,
    pub twiddles: &'call TwiddleTree,
    pub log_blowup_factor: u32,
    pub composition_log_degree_bound: u32,
    pub total_constraints: usize,
    pub evaluation_mode: M,
}

/// The failure of a stage after it submitted work.
#[derive(Clone, Copy, Debug, PartialEq, Eq, Structural)]
pub enum CompositionPolynomialStageError {
    SubmittedComputationFailed,
    InvalidResult,
}

impl CompositionPolynomialStageError {
    /// The error in words.
    pub fn message(&self) -> (r: &'static str)
        ensures
            r == match self {
                CompositionPolynomialStageError::SubmittedComputationFailed =>
                "the submitted composition-polynomial stage failed",
                CompositionPolynomialStageError::InvalidResult =>
                "the submitted composition-polynomial stage returned an invalid result",
            },
    {
        match self {
            CompositionPolynomialStageError::SubmittedComputationFailed =>
            "the submitted composition-polynomial stage failed",
            CompositionPolynomialStageError::InvalidResult =>
            "the submitted composition-polynomial stage returned an invalid result",
        }
    }
}

/// A producer of the whole composition polynomial. Nothing is asked of what it returns.
pub trait CompositionPolynomialStage<P, M> {
    fn try_compute(&self, inputs: CompositionPolynomialStageInputs<'_, '_, P, M>) -> (r: Result<
        Option<SecureCirclePoly>,
        CompositionPolynomialStageError,
    >);
}

/// Accepts a polynomial of the expected size.
pub fn validate_stage_result(polynomial: SecureCirclePoly, expected_log_size: u32) -> (r: Result<
    SecureCirclePoly,
    CompositionPolynomialStageError,
>)
    ensures
        r == if polynomial.log_size_s() == expected_log_size {
            Ok::<SecureCirclePoly, CompositionPolynomialStageError>(polynomial)
        } else {
            Err(CompositionPolynomialStageError::InvalidResult)
        },
{
    if polynomial.log_size() != expected_log_size {
        return Err(CompositionPolynomialStageError::InvalidResult);
    }
    Ok(polynomial)
}

/// The answer of a stage, held to the expected size.
pub open spec fn resolved_s(
    answer: Result<Option<SecureCirclePoly>, CompositionPolynomialStageError>,
    expected_log_size: u32,
) -> Result<Option<SecureCirclePoly>, CompositionPolynomialStageError> {
    match answer {
        Err(error) => Err(error),
        Ok(None) => Ok(None),
        Ok(Some(polynomial)) => if polynomial.log_size_s() == expected_log_size {
            Ok(Some(polynomial))
        } else {
            Err(CompositionPolynomialStageError::InvalidResult)
        },
    }
}

/// What follows from the answer of a stage: a declined stage leaves the work to the prover, a
/// failure is passed on, and a result must have the expected size.
pub fn resolve_stage(
    answer: Result<Option<SecureCirclePoly>, CompositionPolynomialStageError>,
    expected_log_size: u32,
) -> (r: Result<Option<SecureCirclePoly>, CompositionPolynomialStageError>)
    ensures
        r == resolved_s(answer, expected_log_size),
{
    match answer {
        Err(error) => Err(error),
        Ok(None) => Ok(None),
        Ok(Some(polynomial)) => match validate_stage_result(polynomial, expected_log_size) {
            Ok(polynomial) => Ok(Some(polynomial)),
            Err(error) => Err(error),
        },
    }
}

/// Asks a stage, and holds its answer to the expected size.
pub fn consult_stage<P, M, S: CompositionPolynomialStage<P, M>>(
    stage: &S,
    inputs: CompositionPolynomialStageInputs<'_, '_, P, M>,
    expected_log_size: u32,
) -> (r: Result<Option<SecureCirclePoly>, CompositionPolynomialStageError>)
    ensures
        exists|answer: Result<Option<SecureCirclePoly>, CompositionPolynomialStageError>|
            call_ensures(S::try_compute, (stage, inputs), answer) && r == #[trigger] resolved_s(
                answer,
                expected_log_size,
            ),
{
    resolve_stage(stage.try_compute(inputs), expected_log_size)
}

} // verus!
