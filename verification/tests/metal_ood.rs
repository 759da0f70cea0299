//! Barycentric evaluation in device passes.

use stwo::circle::{secure_field_circle_gen, CirclePoint, CirclePointIndex};
use stwo::constraints::point_vanishing;
use stwo::fields::m31::{M31, P};
use stwo::fields::qm31::QM31;
use stwo::fields::Field;
use stwo::metal::dots::{
    barycentric_eval_groups_metal, barycentric_eval_many_metal, eval_m31_columns_metal,
    eval_many_metal,
};
use stwo::metal::ood::{
    barycentric_group_results, barycentric_point_tables, barycentric_weights_metal,
    decode_elements, plan_barycentric_groups, should_batch_barycentric_on_metal,
    MIN_METAL_OOD_LOG_SIZE,
};
use stwo::poly::barycentric::{
    barycentric_eval_at_point, barycentric_weights, BarycentricEvalGroup,
};
use stwo::poly::circle_poly::{CircleCoefficients, CircleEvaluation};
use stwo::poly::domain::CanonicCoset;
use stwo::utils::bit_reverse_index;

fn test_values(log_size: u32, seed: u32) -> Vec<M31> {
    let n = 1 << log_size;
    (0..n)
        .map(|i| {
            let raw = (i as u32).wrapping_mul(0x045d_9f3b).wrapping_add(seed) & P;
            match i {
                0 => M31(0),
                1 | 257 => M31(P),
                _ => M31(raw),
            }
        })
        .collect()
}

fn evaluations(log_size: u32) -> Vec<CircleEvaluation> {
    let domain = CanonicCoset::new(log_size).circle_domain();
    [19, 3, 11]
        .into_iter()
        .map(|seed| CircleEvaluation::new(domain, test_values(log_size, seed)))
        .collect()
}

#[test]
fn barycentric_placement_gate_matches_measured_crossover() {
    assert!(!should_batch_barycentric_on_metal(1 << 20, 7));
    assert!(!should_batch_barycentric_on_metal(1 << 20, 69));
    assert!(!should_batch_barycentric_on_metal(1 << 23, 32));
    assert!(should_batch_barycentric_on_metal(1 << 21, 64));
    assert!(should_batch_barycentric_on_metal(1 << 21, 148));
    assert!(should_batch_barycentric_on_metal(1 << 23, 69));
}

#[test]
fn barycentric_block_tables_match_bit_reversed_domain_points() {
    for log_size in [8, 9, 16, 21, 23] {
        let domain = CanonicCoset::new(log_size).circle_domain();
        let tables = barycentric_point_tables(log_size);
        let n = 1usize << log_size;
        let mut rows = vec![0, 1, 2, 127, 128, 255, 256.min(n - 1), n / 2, n - 2, n - 1];
        rows.extend((0..64).map(|i| (i * 0x9e37_79b9usize + log_size as usize * 17) & (n - 1)));
        for row in rows {
            let block = row >> 8;
            let lane = row & 255;
            let base = tables.bases[block];
            let offset = tables.offsets[lane >> 1];
            let mut actual = CirclePoint { x: M31(base[0]), y: M31(base[1]) }
                .add(CirclePoint { x: M31(offset[0]), y: M31(offset[1]) });
            if lane % 2 != 0 {
                actual = actual.conjugate();
            }
            let expected = domain.at(bit_reverse_index(row, log_size));
            assert_eq!(actual, expected, "log_size={log_size}, row={row}");
        }
    }
}

#[test]
fn barycentric_inverse_uses_circle_group_subtraction() {
    let p = secure_field_circle_gen().mul(1_234_567);
    let q = CirclePoint::<QM31>::zero();
    let h = p.sub(q);
    let required = QM31::one().add(h.x).mul(h.y.inverse());
    let point_vanishing_inverse = point_vanishing(q, p).inverse();
    let coordinate_difference_shortcut = p.x.mul(p.y.inverse());
    assert_eq!(required, point_vanishing_inverse);
    assert_ne!(required, coordinate_difference_shortcut);
}

#[test]
fn resident_barycentric_weights_match_simd_reference() {
    for log_size in [MIN_METAL_OOD_LOG_SIZE, MIN_METAL_OOD_LOG_SIZE + 1] {
        let coset = CanonicCoset::new(log_size);
        for point in [secure_field_circle_gen(), secure_field_circle_gen().mul(1_234_567)] {
            let expected = barycentric_weights(coset, point);
            let actual = barycentric_weights_metal(coset, point)
                .expect("eligible weight column must dispatch to Metal");
            assert_eq!(actual, expected, "log_size={log_size}, point={point:?}");
        }
    }
}

#[test]
fn resident_barycentric_rejects_domain_points_before_submission() {
    let log_size = MIN_METAL_OOD_LOG_SIZE;
    let coset = CanonicCoset::new(log_size);
    let evals = evaluations(log_size);
    let q = coset.circle_domain().at(31);
    assert_ne!(q.conjugate(), q.antipode());

    for point in [q.into_ef(), q.antipode().into_ef()] {
        let group = BarycentricEvalGroup { coset, point, evals: evals.iter().collect() };
        assert!(barycentric_weights_metal(coset, point).is_none());
        let groups = vec![group];
        assert_eq!(barycentric_eval_groups_metal(&groups), vec![None]);
        let plans = plan_barycentric_groups(&groups);
        assert!(plans.is_empty());
        assert_eq!(barycentric_group_results(1, &plans, &Some(vec![])), vec![None]);
    }
}

#[test]
fn resident_barycentric_rejects_same_size_domain_mismatch() {
    let log_size = MIN_METAL_OOD_LOG_SIZE;
    let coset = CanonicCoset::new(log_size);
    let shifted_domain = coset.circle_domain().shift(CirclePointIndex::generator());
    let evaluation = CircleEvaluation::new(shifted_domain, test_values(log_size, 7));
    let group = BarycentricEvalGroup {
        coset,
        point: secure_field_circle_gen(),
        evals: vec![&evaluation],
    };
    let groups = vec![group];
    assert_eq!(barycentric_eval_groups_metal(&groups), vec![None]);
    let plans = plan_barycentric_groups(&groups);
    assert_eq!(barycentric_group_results(1, &plans, &Some(vec![])), vec![None]);
}

#[test]
fn group_results_return_to_their_groups() {
    let log_size = MIN_METAL_OOD_LOG_SIZE;
    let coset = CanonicCoset::new(log_size);
    let small = CanonicCoset::new(4);
    let evals = evaluations(log_size);
    let small_evals = evaluations(4);
    let point = secure_field_circle_gen();
    let groups = vec![
        BarycentricEvalGroup { coset: small, point, evals: small_evals.iter().collect() },
        BarycentricEvalGroup { coset, point, evals: evals.iter().collect() },
    ];
    let plans = plan_barycentric_groups(&groups);
    assert_eq!(plans.len(), 1);
    assert_eq!(plans[0].group_index, 1);
    assert_eq!((plans[0].n_rows, plans[0].n_columns), (1 << log_size, 3));
    let weights = barycentric_weights_metal(coset, point).unwrap();
    let expected: Vec<QM31> =
        evals.iter().map(|eval| barycentric_eval_at_point(eval, &weights)).collect();
    let words: Vec<u32> =
        expected.iter().flat_map(|v| v.to_m31_array().map(|coordinate| coordinate.0)).collect();
    assert_eq!(decode_elements(&words), expected);
    assert_eq!(
        barycentric_group_results(2, &plans, &Some(vec![words])),
        vec![None, Some(expected)]
    );
    assert_eq!(barycentric_group_results(2, &plans, &None), vec![None, None]);
}

#[test]
fn batched_barycentric_metal_matches_legacy_across_logs_points_and_raw_zero() {
    let points = [secure_field_circle_gen(), secure_field_circle_gen().mul(1_234_567)];
    for log_size in [MIN_METAL_OOD_LOG_SIZE, MIN_METAL_OOD_LOG_SIZE + 1] {
        let evals = evaluations(log_size);
        let columns: Vec<&Vec<M31>> = evals.iter().map(|evaluation| &evaluation.values).collect();
        for point in points {
            let weights = barycentric_weights(CanonicCoset::new(log_size), point);
            let expected: Vec<QM31> =
                evals.iter().map(|eval| barycentric_eval_at_point(eval, &weights)).collect();
            let actual = eval_m31_columns_metal(&columns, &weights)
                .expect("eligible barycentric batch must dispatch to Metal");
            assert_eq!(actual, expected, "log_size={log_size}, point={point:?}");
        }
    }
}

#[test]
fn batched_dot_metal_reduces_raw_p_representatives_exactly() {
    let log_size = MIN_METAL_OOD_LOG_SIZE;
    let evals = evaluations(log_size);
    let columns: Vec<&Vec<M31>> = evals.iter().map(|evaluation| &evaluation.values).collect();
    let weights: Vec<QM31> = (0..1 << log_size)
        .map(|i| match i {
            0 => QM31::from_m31_array([M31(0), M31(P), M31(0), M31(P)]),
            1 | 257 => QM31::from_m31_array([M31(P), M31(0), M31(P), M31(0)]),
            _ => QM31::from_m31_array([
                M31(i as u32 & P),
                M31((i as u32).wrapping_mul(3) & P),
                M31((i as u32).wrapping_mul(5) & P),
                M31((i as u32).wrapping_mul(7) & P),
            ]),
        })
        .collect();
    let expected: Vec<QM31> =
        evals.iter().map(|eval| barycentric_eval_at_point(eval, &weights)).collect();
    let actual = eval_m31_columns_metal(&columns, &weights)
        .expect("eligible raw-representation batch must dispatch to Metal");
    assert_eq!(actual, expected);
}

#[test]
fn resident_barycentric_groups_match_legacy_in_one_submission() {
    let evals16 = evaluations(MIN_METAL_OOD_LOG_SIZE);
    let evals17 = evaluations(MIN_METAL_OOD_LOG_SIZE + 1);
    let p0 = secure_field_circle_gen();
    let p1 = secure_field_circle_gen().mul(1_234_567);
    let groups = vec![
        BarycentricEvalGroup {
            coset: CanonicCoset::new(MIN_METAL_OOD_LOG_SIZE + 1),
            point: p1,
            evals: evals17.iter().rev().collect(),
        },
        BarycentricEvalGroup {
            coset: CanonicCoset::new(MIN_METAL_OOD_LOG_SIZE),
            point: p0,
            evals: evals16.iter().collect(),
        },
        BarycentricEvalGroup {
            coset: CanonicCoset::new(MIN_METAL_OOD_LOG_SIZE + 1),
            point: p0,
            evals: evals17.iter().collect(),
        },
        BarycentricEvalGroup {
            coset: CanonicCoset::new(MIN_METAL_OOD_LOG_SIZE),
            point: p1,
            evals: evals16.iter().rev().collect(),
        },
    ];
    let expected: Vec<Option<Vec<QM31>>> = groups
        .iter()
        .map(|group| {
            let weights = barycentric_weights(group.coset, group.point);
            Some(
                group
                    .evals
                    .iter()
                    .map(|eval| barycentric_eval_at_point(eval, &weights))
                    .collect(),
            )
        })
        .collect();
    assert_eq!(barycentric_eval_groups_metal(&groups), expected);
}

#[test]
fn inner_products_of_polynomials_are_declined_below_the_floor() {
    let coeffs = test_values(MIN_METAL_OOD_LOG_SIZE, 5);
    let poly = CircleCoefficients::new(coeffs.clone());
    let basis: Vec<QM31> =
        (0..coeffs.len()).map(|i| QM31::from_base(M31(u32::from(i == 3)))).collect();
    assert_eq!(
        eval_many_metal(&vec![&poly, &poly], &basis),
        Some(vec![QM31::from_base(coeffs[3]); 2])
    );
    assert_eq!(eval_many_metal(&vec![], &basis), None);
    let small = CircleCoefficients::new(test_values(4, 5));
    assert_eq!(eval_many_metal(&vec![&small], &basis[..16].to_vec()), None);
    let evals = evaluations(MIN_METAL_OOD_LOG_SIZE);
    assert_eq!(barycentric_eval_many_metal(&evals.iter().collect(), &basis), None);
}
