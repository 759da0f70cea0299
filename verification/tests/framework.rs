//! The constraint framework: expressions, evaluators, relations and components.

use stwo::fields::m31::M31;
use stwo::fields::qm31::QM31;
use stwo::fields::Field;
use stwo::framework::component::FormalEval;
use stwo::framework::domain::{
    load_secure_coords, read_mask, sum_fractions_skipping_one_numerators,
    BatchCpuDomainEvaluator, SimdDomainEvaluator, TraceColumns,
};
use stwo::framework::evaluator::{ExprEvaluator, FormalLogupAtRow, Fraction};
use stwo::framework::expr::{
    BaseExpr, ColumnExpr, ExprVarAssignment, ExtExpr, PreProcessedColumnId,
};
use stwo::framework::names::NameMap;
use stwo::framework::packed::VeryPackedSecureField;
use stwo::framework::quotient::{
    accumulate_pointwise_cpu, EvaluationMode, FrameworkComponent,
};
use stwo::framework::relation::{
    LookupElements, Relation, RelationEntry, RelationParameterEvaluator,
};
use stwo::framework::report::InfoEvaluator;
use stwo::framework::rows::{
    coset_row_index, offset_bit_reversed_circle_domain_index, offset_index_map,
};
use stwo::framework::vanishing::{
    coset_vanishing_base, denominator_inverses, subdomain_eval_domain,
};
use stwo::pcs::config::TreeSubspan;
use stwo::pcs::scheme::Trace;
use stwo::poly::circle_poly::{CircleCoefficients, CircleEvaluation, Poly};
use stwo::poly::domain::CanonicCoset;
use stwo::poly::extension::evaluate;
use stwo::poly::twiddles::precompute_twiddles;
use stwo::secure_column::SecureColumnByCoords;
use stwo::utils::bit_reverse_index;

fn col(interaction: usize, idx: usize, offset: isize) -> BaseExpr {
    BaseExpr::Col(ColumnExpr { interaction, idx, offset })
}

fn test_relation() -> LookupElements {
    LookupElements::dummy("TestRelation".to_string(), 3)
}

#[test]
fn captures_column_indices_per_interaction_like_info_evaluator() {
    let mut expr_eval = ExprEvaluator::new();
    let mut info_eval = InfoEvaluator::empty();

    let first_original = expr_eval.next_interaction_mask(1, &[0, 2]);
    info_eval.next_interaction_mask(1, &[0, 2]);
    let first_interaction = expr_eval.next_interaction_mask(2, &[-3, 1]);
    info_eval.next_interaction_mask(2, &[-3, 1]);
    let second_original = expr_eval.next_interaction_mask(1, &[4]);
    info_eval.next_interaction_mask(1, &[4]);

    assert_eq!(first_original, [col(1, 0, 0), col(1, 0, 2)]);
    assert_eq!(first_interaction, [col(2, 0, -3), col(2, 0, 1)]);
    assert_eq!(second_original, [col(1, 1, 4)]);
    assert_eq!(expr_eval.column_index_per_interaction, [0, 2, 1, 0]);
    assert_eq!(info_eval.mask_offsets[1], vec![vec![0, 2], vec![4]]);
    assert_eq!(info_eval.mask_offsets[2], vec![vec![-3, 1]]);
}

#[test]
fn preprocessed_column_is_distinct_from_colliding_scalar_param() {
    let column = PreProcessedColumnId { id: "collision".to_string() };
    let mut expr_eval = ExprEvaluator::new();
    let preprocessed = expr_eval.get_preprocessed_column(column.clone());
    let scalar_param = BaseExpr::Param(column.id.clone());

    assert_ne!(preprocessed, scalar_param);
    let BaseExpr::PreprocessedColumn(access) = &preprocessed else {
        panic!("preprocessed access was not captured as a typed column")
    };
    assert_eq!(access.column(), &column);
    assert_eq!(access.access_index(), 0);
    assert_eq!(access.bind(&[17]), 17);

    let expression = preprocessed.sub(scalar_param);
    let variables = expression.collect_variables();
    assert!(variables.contains_preprocessed(&column));
    assert!(variables.params.contains(&column.id));

    let mut assignment = ExprVarAssignment::new();
    assignment.params.insert(column.id.clone(), M31::from_u32(11));
    assignment.preprocessed_cols.insert(column.id, M31::from_u32(7));
    assert_eq!(
        expression.assign(&assignment),
        M31::from_u32(7).sub(M31::from_u32(11))
    );
}

fn evaluate_test_struct(mut eval: ExprEvaluator, with_intermediate: bool, arity: usize) -> ExprEvaluator {
    let x0 = eval.next_trace_mask();
    let x1 = eval.next_trace_mask();
    let x2 = eval.next_trace_mask();
    let product = x1.duplicate().mul(x2.duplicate());
    let intermediate = if with_intermediate { eval.add_intermediate(product) } else { product };
    eval.add_constraint(ExtExpr::from_base(
        x0.duplicate()
            .mul(intermediate)
            .mul(x0.duplicate().add(x1.duplicate()).inverse()),
    ));
    let values = [x0, x1, x2];
    eval.add_to_relation(RelationEntry::new(
        &test_relation(),
        ExtExpr::one(),
        &values[..arity],
    ));
    eval.finalize_logup();
    eval
}

#[test]
fn test_expr_evaluator() {
    let eval = evaluate_test_struct(ExprEvaluator::new(), true, 3);
    let expected = "let intermediate0 = (trace_1_column_1_offset_0) * (trace_1_column_2_offset_0);

\
        let intermediate1 = (TestRelation_alpha0) * (trace_1_column_0_offset_0) \
            + (TestRelation_alpha1) * (trace_1_column_1_offset_0) \
            + (TestRelation_alpha2) * (trace_1_column_2_offset_0) \
            - (TestRelation_z);

\
        let constraint_0 = ((trace_1_column_0_offset_0) * (intermediate0)) * (1 / (trace_1_column_0_offset_0 + trace_1_column_1_offset_0));

\
        let constraint_1 = (QM31Impl::from_partial_evals([trace_2_column_0_offset_0, trace_2_column_1_offset_0, trace_2_column_2_offset_0, trace_2_column_3_offset_0]) \
            - (QM31Impl::from_partial_evals([trace_2_column_0_offset_neg_1, trace_2_column_1_offset_neg_1, trace_2_column_2_offset_neg_1, trace_2_column_3_offset_neg_1])) \
                + (claimed_sum) * (1 / (column_size))) \
            * (intermediate1) \
            - (qm31(1, 0, 0, 0));"
        .to_string();

    assert_eq!(eval.format_constraints(), expected);
}

fn constraint_values(eval: &ExprEvaluator) -> Vec<QM31> {
    let assignment = eval.random_assignment();
    eval.constraints.iter().map(|c| c.assign(&assignment)).collect()
}

#[test]
fn test_constraint_regression() {
    let constraint_regression =
        constraint_values(&evaluate_test_struct(ExprEvaluator::new(), true, 3));
    let equivalent = evaluate_test_struct(ExprEvaluator::new(), false, 3);
    assert_eq!(constraint_regression, constraint_values(&equivalent));
}

#[test]
#[should_panic]
fn test_constraint_regression_fails() {
    let eval = evaluate_test_struct(ExprEvaluator::new(), true, 3);
    let constraint_regression = constraint_values(&eval);

    let eval = evaluate_test_struct(ExprEvaluator::new(), true, 2);
    assert_eq!(constraint_regression, constraint_values(&eval));
}

#[test]
fn another_lookup_changes_the_constraint_values() {
    let constraint_regression =
        constraint_values(&evaluate_test_struct(ExprEvaluator::new(), true, 3));
    let other = constraint_values(&evaluate_test_struct(ExprEvaluator::new(), true, 2));
    assert_eq!(constraint_regression[0], other[0]);
    assert_ne!(constraint_regression[1], other[1]);
}

#[test]
fn test_constraint_degree_bounds() {
    let mut eval = ExprEvaluator::new();
    let x0 = eval.next_trace_mask();
    let x1 = eval.next_trace_mask();
    let x2 = eval.next_trace_mask();
    let relation = test_relation();
    eval.add_to_relation(RelationEntry::new(
        &relation,
        ExtExpr::one(),
        std::slice::from_ref(&x0),
    ));
    eval.add_to_relation(RelationEntry::new(
        &relation,
        ExtExpr::one(),
        &[x0.duplicate().mul(x1.duplicate())],
    ));
    eval.add_to_relation(RelationEntry::new(
        &relation,
        ExtExpr::one(),
        &[x1.duplicate().mul(x2.duplicate())],
    ));
    eval.finalize_logup_in_pairs();

    // 1st and 2nd entries are batched together to produce a denominator of degree 3, hence
    // prefix sum constraint is of degree 4. 3rd entry is of degree 3 and is not batched.
    let expected = vec![4, 3];

    assert_eq!(eval.constraint_degree_bounds(), expected);
}

#[test]
fn recovers_relation_parameters_through_combine_contract() {
    let relation = test_relation();
    let values = [M31::one(); 2];
    let mut evaluator = RelationParameterEvaluator::new();
    evaluator.add_to_relation(RelationEntry::new(&relation, QM31::one(), &values));

    let recovered = evaluator.parameters().get(&"TestRelation".to_string()).unwrap();
    assert_eq!(evaluator.parameters().len(), 1);
    assert_eq!(recovered.alphas.len(), 3);
    let zero_combination = relation.combine(&[M31::zero(); 3]);
    assert_eq!(zero_combination, recovered.z.neg());
    for index in 0..3 {
        let mut basis = [M31::zero(); 3];
        basis[index] = M31::one();
        let unit_combination = relation.combine(&basis);
        assert_eq!(unit_combination, recovered.alphas[index].sub(recovered.z));
    }
}

#[test]
fn recovered_parameters_are_the_elements() {
    let z = QM31::from_u32_unchecked(9, 8, 7, 6);
    let alpha = QM31::from_u32_unchecked(1, 2, 3, 4);
    let relation = LookupElements::from_drawn("R".to_string(), z, alpha, 4);
    assert_eq!(relation.alpha_powers[0], QM31::one());
    assert_eq!(relation.alpha_powers[3], alpha.mul(alpha).mul(alpha));
    let mut evaluator = RelationParameterEvaluator::new();
    assert_eq!(evaluator.next_interaction_mask(1, &[0, 1]), vec![M31(1), M31(1)]);
    evaluator.add_to_relation(RelationEntry::new(&relation, QM31::one(), &[]));
    evaluator.add_to_relation(RelationEntry::new(&relation, QM31::one(), &[]));
    let parameters = evaluator.into_parameters();
    assert_eq!(parameters.len(), 1);
    let recovered = parameters.get(&"R".to_string()).unwrap();
    assert_eq!(recovered.z, z);
    assert_eq!(recovered.alphas, relation.alpha_powers);
    assert!(!parameters.contains_key(&"S".to_string()));
    assert_eq!(relation.get_size(), 4);
    assert_eq!(relation.get_name(), "R");
}

#[test]
fn simplification_keeps_the_value() {
    let mut assignment = ExprVarAssignment::new();
    assignment.params.insert("a".to_string(), M31(5));
    assignment.params.insert("b".to_string(), M31(7));
    assignment.ext_params.insert("e".to_string(), QM31::from_u32_unchecked(1, 2, 3, 4));
    let a = || BaseExpr::Param("a".to_string());
    let b = || BaseExpr::Param("b".to_string());
    let e = || ExtExpr::Param("e".to_string());
    let cases = vec![
        (a().add(BaseExpr::zero()), "a"),
        (BaseExpr::zero().add(a()), "a"),
        (a().neg().add(b().neg()), "-(a + b)"),
        (a().add(b().neg()), "a - (b)"),
        (a().neg().add(b()), "b - (a)"),
        (a().sub(BaseExpr::zero()), "a"),
        (BaseExpr::zero().sub(a()), "-(a)"),
        (a().neg().sub(b().neg()), "b - (a)"),
        (a().sub(b().neg()), "a + b"),
        (a().neg().sub(b()), "-(a + b)"),
        (a().mul(BaseExpr::one()), "a"),
        (a().mul(BaseExpr::zero()), "m31(0)"),
        (a().neg().mul(b().neg()), "(a) * (b)"),
        (a().mul(b().neg()), "-((a) * (b))"),
        (a().sub(b()).neg(), "b - (a)"),
        (a().neg().neg(), "a"),
        (a().inverse().inverse(), "a"),
        (BaseExpr::Const(M31(2)).inverse(), "m31(1073741824)"),
        (BaseExpr::Const(M31(2)).add(BaseExpr::Const(M31(3))), "m31(5)"),
    ];
    for (expr, text) in cases {
        assert_eq!(expr.simplify().assign(&assignment), expr.assign(&assignment));
        assert_eq!(expr.simplify_and_format(), text);
    }
    let ext = e().mul(ExtExpr::one()).add(ExtExpr::zero()).sub(ExtExpr::from_base(a()).neg());
    assert_eq!(ext.simplify().assign(&assignment), ext.assign(&assignment));
    assert_eq!(ext.simplify_and_format(), "e + a");
    let constant = ExtExpr::SecureCol(
        Box::new(BaseExpr::Const(M31(1))),
        Box::new(BaseExpr::Const(M31(2))),
        Box::new(BaseExpr::Const(M31(3))),
        Box::new(BaseExpr::Const(M31(4))),
    );
    assert_eq!(constant.simplify(), ExtExpr::Const(QM31::from_u32_unchecked(1, 2, 3, 4)));
}

#[test]
fn names_map_to_their_last_value() {
    let mut names: NameMap<u32> = NameMap::new();
    names.insert("a".to_string(), 1);
    names.insert("b".to_string(), 2);
    names.insert("a".to_string(), 3);
    assert_eq!(names.len(), 2);
    assert_eq!(names.get(&"a".to_string()), Some(&3));
    assert_eq!(names.get(&"b".to_string()), Some(&2));
    assert_eq!(names.get(&"c".to_string()), None);
    let mut evaluator = ExprEvaluator::new();
    for k in 0..12 {
        let named = evaluator.add_intermediate(BaseExpr::Const(M31(k)));
        assert_eq!(named, BaseExpr::Param(format!("intermediate{k}")));
    }
    assert_eq!(evaluator.ordered_intermediates().len(), 12);
    assert_eq!(evaluator.ordered_intermediates()[10], "intermediate10");
}

#[test]
fn a_fresh_lookup_has_a_shift_and_no_fractions() {
    let logup = FormalLogupAtRow::new(2);
    assert_eq!(logup.interaction, 2);
    assert!(logup.fracs.is_empty());
    assert!(logup.is_finalized);
    assert_eq!(logup.is_first, BaseExpr::zero());
    assert_eq!(logup.cumsum_shift.format_expr(), "(claimed_sum) * (1 / (column_size))");
    assert_eq!(logup.claimed_sum.format_expr(), "claimed_sum");
}

fn plain_column(log_size: u32, seed: u32) -> CircleEvaluation {
    let domain = CanonicCoset::new(log_size).circle_domain();
    let values = (0..1u32 << log_size).map(|i| M31::from_u32(i * 7 + seed)).collect();
    CircleEvaluation::new(domain, values)
}

#[test]
fn masks_read_the_point_trace_steps_away() {
    let (trace_log, eval_log) = (3u32, 5u32);
    let domain = CanonicCoset::new(eval_log).circle_domain();
    let step = CanonicCoset::new(trace_log).coset.step;
    for row in 0..32 {
        let here = domain.at(bit_reverse_index(row, eval_log));
        let next = offset_bit_reversed_circle_domain_index(row, trace_log, eval_log, 1);
        let there = domain.at(bit_reverse_index(next, eval_log));
        assert_eq!(there, here.add(step));
        let back = offset_bit_reversed_circle_domain_index(next, trace_log, eval_log, -1);
        assert_eq!(back, row);
        assert_eq!(
            offset_bit_reversed_circle_domain_index(row, trace_log, eval_log, 8),
            row
        );
    }
    let map = offset_index_map(trace_log, eval_log, -2);
    for row in 0..32 {
        assert_eq!(
            map[row] as usize,
            offset_bit_reversed_circle_domain_index(row, trace_log, eval_log, -2)
        );
    }
    let coset = CanonicCoset::new(4);
    let circle = coset.circle_domain();
    for i in 0..16 {
        assert_eq!(circle.at(bit_reverse_index(coset_row_index(i, 4), 4)), coset.coset.at(i));
    }
}

#[test]
fn batches_read_and_weigh_lane_by_lane() {
    let columns: Vec<CircleEvaluation> = (0..5).map(|c| plain_column(6, c)).collect();
    let trace: TraceColumns =
        vec![vec![], vec![&columns[0]], vec![&columns[1], &columns[2], &columns[3], &columns[4]]];
    let powers = [QM31::from_u32_unchecked(1, 2, 3, 4), QM31::from_u32_unchecked(5, 6, 7, 8)];
    let lanes = BatchCpuDomainEvaluator::broadcast_random_coeff_powers(&powers);
    assert_eq!(SimdDomainEvaluator::broadcast_random_coeff_powers(&powers), lanes);
    let claimed = QM31::from_u32_unchecked(4, 0, 0, 0);
    let mut batch = BatchCpuDomainEvaluator::new(&trace, 32, &lanes, 5, 6, 5, claimed);
    let mut simd = SimdDomainEvaluator::new(&trace, 1, &lanes, 5, 6, 5, claimed);
    let mask = batch.next_interaction_mask(1, &[0, -1]);
    assert_eq!(simd.next_interaction_mask(1, &[0, -1]), mask);
    for k in 0..32 {
        assert_eq!(mask[0].0[k], columns[0].values[32 + k]);
        assert_eq!(mask[1].0[k], read_mask(&trace, 1, 0, 32 + k, 5, 6, -1));
    }
    let value = VeryPackedSecureField::broadcast(QM31::from_u32_unchecked(2, 0, 0, 0));
    batch.add_constraint(value);
    simd.add_constraint(value);
    assert_eq!(batch.row_res.0[7], powers[0].add(powers[0]));
    // One fraction 3 / 5: the lookup column steps by it, less the shift.
    let fraction = Fraction::new(
        VeryPackedSecureField::broadcast(QM31::from_u32_unchecked(3, 0, 0, 0)),
        VeryPackedSecureField::broadcast(QM31::from_u32_unchecked(5, 0, 0, 0)),
    );
    batch.write_logup_frac(fraction);
    simd.write_logup_frac(fraction);
    batch.finalize_logup();
    simd.finalize_logup();
    assert_eq!(batch.row_res, simd.lanes.row_res);
    assert!(batch.logup.is_finalized);
    let at = |c: usize, row: usize, off: isize| read_mask(&trace, 2, c, row, 5, 6, off);
    let secure = |row: usize, off: isize| {
        QM31::from_m31(at(0, row, off), at(1, row, off), at(2, row, off), at(3, row, off))
    };
    let shift = claimed.mul_m31(M31(32).inverse());
    for k in 0..32 {
        let step = secure(32 + k, 0).sub(secure(32 + k, -1)).add(shift);
        let constraint = step
            .mul(QM31::from_u32_unchecked(5, 0, 0, 0))
            .sub(QM31::from_u32_unchecked(3, 0, 0, 0));
        let expected = powers[0].add(powers[0]).add(powers[1].mul(constraint));
        assert_eq!(batch.row_res.0[k], expected);
    }
}

#[test]
fn unit_numerators_change_nothing() {
    let columns: Vec<CircleEvaluation> = (0..4).map(|c| plain_column(6, c)).collect();
    let trace: TraceColumns =
        vec![vec![], vec![], vec![&columns[0], &columns[1], &columns[2], &columns[3]]];
    let powers = [QM31::from_u32_unchecked(1, 2, 3, 4)];
    let lanes = BatchCpuDomainEvaluator::broadcast_random_coeff_powers(&powers);
    let claimed = QM31::zero();
    let mut batch = BatchCpuDomainEvaluator::new(&trace, 0, &lanes, 5, 6, 5, claimed);
    let mut simd = SimdDomainEvaluator::new(&trace, 0, &lanes, 5, 6, 5, claimed);
    for d in [2147483647u32, 9] {
        let fraction = Fraction::new(
            VeryPackedSecureField::broadcast(QM31::one()),
            VeryPackedSecureField::broadcast(QM31::from_u32_unchecked(d, 3, 0, 1)),
        );
        batch.write_logup_frac(fraction);
        simd.write_logup_frac(fraction);
    }
    batch.finalize_logup_in_pairs();
    simd.finalize_logup_in_pairs();
    assert_eq!(batch.row_res, simd.lanes.row_res);
}

#[test]
fn coordinates_load_as_lanes() {
    let columns: [Vec<M31>; 4] =
        [0u32, 1, 2, 3].map(|c| (0..20u32).map(|i| M31(100 * c + i)).collect());
    let lanes = load_secure_coords(&columns, 3);
    assert_eq!(lanes.0[0], QM31::from_u32_unchecked(3, 103, 203, 303));
    assert_eq!(lanes.0[15], QM31::from_u32_unchecked(18, 118, 218, 318));
}

#[test]
fn denominators_repeat_over_the_rows_of_a_trace() {
    for log_expansion in [0u32, 2] {
        let trace = CanonicCoset::new(3);
        let domain = subdomain_eval_domain(5, log_expansion);
        assert_eq!(domain.log_size(), 5);
        let inverses = denominator_inverses(trace, domain, log_expansion);
        assert_eq!(inverses.len(), 4);
        for row in 0..32 {
            let point = domain.at(bit_reverse_index(row, 5));
            let value = coset_vanishing_base(trace.coset, point);
            assert_eq!(value.mul(inverses[row >> 3]), M31::one());
        }
    }
    // The polynomial vanishes on the trace.
    let trace = CanonicCoset::new(3);
    for i in 0..8 {
        assert!(coset_vanishing_base(trace.coset, trace.coset.at(i)).is_zero());
    }
}

fn square_component(log_size: u32) -> FrameworkComponent<FormalEval> {
    // x^2 - y and x - y.
    let constraints = vec![
        ExtExpr::from_base(col(1, 0, 0).mul(col(1, 0, 0)).sub(col(1, 1, 0))),
        ExtExpr::from_base(col(1, 0, 0).sub(col(1, 1, 0))),
    ];
    FrameworkComponent {
        eval: FormalEval {
            constraints,
            params: NameMap::new(),
            ext_params: NameMap::new(),
            preprocessed: NameMap::new(),
            log_size,
        },
        trace_locations: vec![
            TreeSubspan { tree_index: 0, col_start: 0, col_end: 0 },
            TreeSubspan { tree_index: 1, col_start: 1, col_end: 3 },
        ],
        preprocessed_column_indices: vec![],
        claimed_sum: QM31::zero(),
        n_constraints: 2,
        max_constraint_log_degree_bound: log_size + 1,
    }
}

#[test]
fn quotients_are_added_row_by_row() {
    for log_size in [3u32, 6] {
        let eval_log = log_size + 1;
        let twiddles =
            precompute_twiddles(CanonicCoset::new(eval_log).circle_domain().half_coset);
        let eval_domain = CanonicCoset::new(eval_log).circle_domain();
        let polys: Vec<Poly> = (0..3u32)
            .map(|c| {
                let coeffs =
                    (0..1u32 << log_size).map(|i| M31::from_u32(i * 31 + c * 5 + 1)).collect();
                let p = CircleCoefficients::new(coeffs);
                let evals = evaluate(&p, eval_domain, &twiddles);
                Poly::new(Some(p), evals)
            })
            .collect();
        let trace = Trace { polys: vec![vec![], polys.iter().collect()] };
        let component = square_component(log_size);
        let powers = vec![QM31::from_u32_unchecked(1, 2, 3, 4), QM31::one()];
        let before: Vec<QM31> =
            (0..1u32 << eval_log).map(|i| QM31::from_u32_unchecked(i, 1, 2, 3)).collect();
        let column = || {
            let mut column = SecureColumnByCoords::new_empty();
            for value in &before {
                column.push(*value);
            }
            column
        };
        for mode in [
            EvaluationMode::ExtendToEvalDomain,
            EvaluationMode::SubDomain { log_expansion: 0 },
        ] {
            let after = component
                .evaluate_constraint_quotients_on_domain(&trace, mode, &powers, column());
            let simd = component
                .evaluate_constraint_quotients_on_domain_simd(&trace, mode, &powers, column());
            for row in 0..1usize << eval_log {
                let x = polys[1].evals.values[row];
                let y = polys[2].evals.values[row];
                // The last power weighs the first constraint.
                let sum = powers[1]
                    .mul_m31(x.mul(x).sub(y))
                    .add(powers[0].mul_m31(x.sub(y)));
                let point = eval_domain.at(bit_reverse_index(row, eval_log));
                let vanishing =
                    coset_vanishing_base(CanonicCoset::new(log_size).coset, point);
                let expected = before[row].add(sum.mul_m31(vanishing.inverse()));
                assert_eq!(after.at(row), expected);
                assert_eq!(simd.at(row), expected);
            }
        }
    }
}

#[test]
fn no_constraints_leave_the_column_alone() {
    let mut component = square_component(3);
    component.n_constraints = 0;
    let trace = Trace { polys: vec![vec![], vec![]] };
    let mut column = SecureColumnByCoords::new_empty();
    for i in 0..16 {
        column.push(QM31::from_u32_unchecked(i, 0, 0, 9));
    }
    let after = component.evaluate_constraint_quotients_on_domain(
        &trace,
        EvaluationMode::ExtendToEvalDomain,
        &vec![],
        column,
    );
    assert_eq!(after.len(), 16);
    assert_eq!(after.at(5), QM31::from_u32_unchecked(5, 0, 0, 9));
}

#[test]
fn only_relation_entries_add_parameters() {
    let mut evaluator = RelationParameterEvaluator::new();
    let one = QM31::one();
    evaluator.add_constraint(one);
    evaluator.write_logup_frac(Fraction::new(one, one));
    evaluator.finalize_logup_batched(1);
    evaluator.finalize_logup();
    evaluator.finalize_logup_in_pairs();
    assert_eq!(evaluator.parameters().len(), 0);
    assert_eq!(
        RelationParameterEvaluator::combine_ef([M31(1), M31(2), M31(3), M31(4)]),
        QM31::from_u32_unchecked(1, 2, 3, 4)
    );
    let first = LookupElements::dummy("A".to_string(), 2);
    let second = LookupElements::dummy("B".to_string(), 1);
    for relation in [&first, &second, &first] {
        evaluator.add_to_relation(RelationEntry::new(relation, one, &[]));
    }
    assert_eq!(evaluator.parameters().len(), 2);
    assert!(evaluator.parameters().contains_key(&"A".to_string()));
    assert!(evaluator.parameters().contains_key(&"B".to_string()));
}

#[test]
fn intermediates_are_worth_their_expressions() {
    let mut eval = ExprEvaluator::new();
    let x = eval.next_trace_mask();
    let y = eval.next_trace_mask();
    let product = x.duplicate().mul(y.duplicate());
    let first = eval.add_intermediate(product.duplicate());
    let sum = ExtExpr::from_base(first.add(x.duplicate()))
        .mul(ExtExpr::Param("challenge".to_string()));
    let second = eval.add_extension_intermediate(sum.duplicate());
    eval.add_to_relation(RelationEntry::new(&test_relation(), ExtExpr::one(), &[x, y]));
    eval.add_constraint(second);
    eval.finalize_logup();
    assert_eq!(eval.ordered_intermediates(), ["intermediate0", "intermediate1", "intermediate2"]);
    assert_eq!(eval.intermediates.len() + eval.ext_intermediates.len(), 3);

    let values = eval.random_assignment();
    let at = |k: usize| eval.ordered_intermediates()[k].clone();
    assert_eq!(values.params.get(&at(0)), Some(&product.assign(&values)));
    assert_eq!(values.ext_params.get(&at(1)), Some(&sum.assign(&values)));
    let combination = eval.ext_intermediates.get(&at(2)).unwrap().assign(&values);
    assert_eq!(values.ext_params.get(&at(2)), Some(&combination));
    let again = eval.random_assignment();
    assert_eq!(again.ext_params.get(&at(2)), Some(&combination));
}

#[test]
fn rows_of_the_trace_itself_are_accumulated() {
    // The evaluation has the size of the trace, and one inverse serves all its rows.
    let columns: Vec<CircleEvaluation> = (0..2).map(|c| plain_column(5, c)).collect();
    let trace: TraceColumns = vec![vec![], vec![&columns[0], &columns[1]]];
    let component = square_component(5);
    let powers = vec![QM31::from_u32_unchecked(1, 2, 3, 4), QM31::one()];
    let mut before = SecureColumnByCoords::new_empty();
    for i in 0..32 {
        before.push(QM31::from_u32_unchecked(i, 1, 2, 3));
    }
    let inverses = vec![M31(77)];
    let after = accumulate_pointwise_cpu(
        &component.eval,
        QM31::zero(),
        &trace,
        5,
        5,
        &inverses,
        &powers,
        &before,
    );
    for row in 0..32 {
        let (x, y) = (columns[0].values[row], columns[1].values[row]);
        let sum = powers[0].mul_m31(x.mul(x).sub(y)).add(powers[1].mul_m31(x.sub(y)));
        assert_eq!(after.at(row), before.at(row).add(sum.mul_m31(M31(77))));
    }
    // Part of a larger domain may be as small as the trace.
    let trace = CanonicCoset::new(3);
    let domain = subdomain_eval_domain(3, 1);
    let inverses = denominator_inverses(trace, domain, 1);
    assert_eq!(inverses.len(), 1);
    for i in 0..8 {
        let value = coset_vanishing_base(trace.coset, domain.at(i));
        assert_eq!(value.mul(inverses[0]), M31::one());
    }
}

#[test]
fn maps_are_equal_by_what_they_hold() {
    let name = |n: &str| n.to_string();
    let mut a: NameMap<M31> = NameMap::new();
    let mut b: NameMap<M31> = NameMap::new();
    for (key, value) in [("B", 2), ("A", 9), ("Ab", 3), ("A", 1)] {
        a.insert(name(key), M31(value));
    }
    for (key, value) in [("Ab", 3), ("A", 1), ("B", 2)] {
        b.insert(name(key), M31(value));
    }
    assert_eq!(a, b);
    assert_eq!(a.clone(), b);
    assert_eq!(a.names(), ["A", "Ab", "B"]);
    assert_eq!((a.len(), a.get(&name("A"))), (3, Some(&M31(1))));
    b.insert(name("B"), M31(4));
    assert_ne!(a, b);

    let column = |offset: isize| ColumnExpr { interaction: 1, idx: 0, offset };
    let mut first = ExprVarAssignment::new();
    let mut second = ExprVarAssignment::new();
    for (offset, value) in [(1, 5), (-1, 6), (1, 7)] {
        first.columns.insert(column(offset), M31(value));
    }
    for (offset, value) in [(-1, 6), (1, 7)] {
        second.columns.insert(column(offset), M31(value));
    }
    assert_eq!(first, second);
    assert_eq!(first.clone(), second);
    assert_eq!((first.columns.len(), first.column(&column(1))), (2, Some(M31(7))));
    assert_eq!(first.column(&column(0)), None);
}

#[test]
fn parameters_are_listed_by_name() {
    let mut evaluator = RelationParameterEvaluator::default();
    assert_eq!(evaluator.parameters().len(), 0);
    for relation in ["Xor", "Add", "Mul"] {
        let elements = LookupElements::dummy(relation.to_string(), 1);
        evaluator.add_to_relation(RelationEntry::new(&elements, QM31::one(), &[]));
    }
    assert_eq!(evaluator.into_parameters().names(), ["Add", "Mul", "Xor"]);
    assert!(ExprEvaluator::default().ordered_intermediates().is_empty());
}

#[test]
fn unit_numerators_are_skipped_in_sums() {
    let lanes = |w: u32| VeryPackedSecureField::broadcast(QM31::from_u32_unchecked(w, 0, 2, 0));
    let one = VeryPackedSecureField::broadcast(QM31::one());
    // One again, with another representative of zero.
    let raw = VeryPackedSecureField::broadcast(QM31::from_u32_unchecked(1, 2147483647, 0, 0));
    let chunk = [
        Fraction::new(one, lanes(3)),
        Fraction::new(raw, lanes(5)),
        Fraction::new(lanes(4), lanes(7)),
    ];
    let sum = sum_fractions_skipping_one_numerators(&chunk);
    let at = |k: usize| (chunk[k].numerator.0[9], chunk[k].denominator.0[9]);
    let ((a, b), (c, d), (e, f)) = (at(0), at(1), at(2));
    assert_eq!(sum.denominator.0[9], b.mul(d).mul(f));
    let expected = a.mul(d).mul(f).add(c.mul(b).mul(f)).add(e.mul(b).mul(d));
    assert_eq!(sum.numerator.0[9], expected);
    assert_eq!(sum_fractions_skipping_one_numerators(&chunk[2..]).numerator, lanes(4));
}
