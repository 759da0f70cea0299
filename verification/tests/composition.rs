//! The stage that may supply the composition polynomial.

use stwo::composition_stage::{
    consult_stage, resolve_stage, validate_stage_result, CompositionPolynomialStage,
    CompositionPolynomialStageError, CompositionPolynomialStageInputs, SecureCirclePoly,
};
use stwo::fields::m31::M31;
use stwo::fields::qm31::QM31;
use stwo::pcs::scheme::Trace;
use stwo::poly::circle_poly::CircleCoefficients;
use stwo::poly::domain::CanonicCoset;
use stwo::poly::twiddles::precompute_twiddles;

fn polynomial(n: usize) -> SecureCirclePoly {
    SecureCirclePoly([0, 1, 2, 3].map(|_| CircleCoefficients::new(vec![M31::default(); n])))
}

#[test]
fn submitted_failures_are_explicit_terminal_errors() {
    assert_eq!(
        CompositionPolynomialStageError::SubmittedComputationFailed.message(),
        "the submitted composition-polynomial stage failed"
    );
}

#[test]
fn wrong_size_stage_polynomial_is_rejected() {
    let polynomial = polynomial(8);
    assert!(matches!(
        validate_stage_result(polynomial, 4),
        Err(CompositionPolynomialStageError::InvalidResult)
    ));
}

#[test]
fn stage_answers_are_resolved() {
    assert!(matches!(resolve_stage(Ok(None), 4), Ok(None)));
    assert!(matches!(resolve_stage(Ok(Some(polynomial(16))), 4), Ok(Some(_))));
    assert!(matches!(
        resolve_stage(Ok(Some(polynomial(8))), 4),
        Err(CompositionPolynomialStageError::InvalidResult)
    ));
    assert!(matches!(
        resolve_stage(Err(CompositionPolynomialStageError::SubmittedComputationFailed), 4),
        Err(CompositionPolynomialStageError::SubmittedComputationFailed)
    ));
}

/// A stage that answers with a polynomial of `size` coefficients, or declines.
struct FixedStage {
    size: Option<usize>,
}

impl CompositionPolynomialStage<u32, ()> for FixedStage {
    fn try_compute(
        &self,
        inputs: CompositionPolynomialStageInputs<'_, '_, u32, ()>,
    ) -> Result<Option<SecureCirclePoly>, CompositionPolynomialStageError> {
        assert_eq!(inputs.component_provers, &vec![7]);
        Ok(self.size.map(polynomial))
    }
}

#[test]
fn stages_are_asked_and_held_to_the_size() {
    let twiddles = precompute_twiddles(CanonicCoset::new(4).circle_domain().half_coset);
    let trace = Trace { polys: vec![] };
    let ask = |size: Option<usize>| {
        consult_stage(
            &FixedStage { size },
            CompositionPolynomialStageInputs {
                component_provers: &vec![7],
                random_coeff: QM31::from_u32_unchecked(1, 2, 3, 4),
                trace: &trace,
                twiddles: &twiddles,
                log_blowup_factor: 1,
                composition_log_degree_bound: 4,
                total_constraints: 1,
                evaluation_mode: (),
            },
            4,
        )
    };
    assert!(matches!(ask(None), Ok(None)));
    assert!(matches!(ask(Some(16)), Ok(Some(_))));
    assert!(matches!(ask(Some(32)), Err(CompositionPolynomialStageError::InvalidResult)));
}
