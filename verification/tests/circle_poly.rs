//! Polynomials on the circle: evaluation, interpolation, extension and barycentric evaluation.

use stwo::circle::{
    secure_field_circle_gen, CirclePoint, CirclePointIndex, Coset,
};
use stwo::decompose::decompose;
use stwo::fields::cm31::CM31;
use stwo::fields::m31::M31;
use stwo::fields::qm31::QM31;
use stwo::fields::Field;
use stwo::framework::vanishing::subdomain_eval_domain;
use stwo::fri::{
    eval_at_point_by_folding, fold_circle_into_line_cpu, fold_line, fold_line_cpu,
    get_folding_alphas,
};
use stwo::line::{LineDomain, LineEvaluation};
use stwo::poly::barycentric::{
    barycentric_eval_at_point, barycentric_eval_many_at_point, barycentric_weights,
    barycentric_weights_scalar, barycentric_weights_use_simd,
};
use stwo::poly::circle_poly::{CircleCoefficients, CircleEvaluation, EvalsOrCoeffs};
use stwo::poly::domain::{CanonicCoset, CircleDomain};
use stwo::poly::eval::{
    eval_at_point, eval_at_point_with_basis, eval_basis_at_point, eval_many_at_point_with_basis,
};
use stwo::poly::extension::{
    evaluate, extend, interpolate, interpolate_and_evaluate_polynomials, split_at_mid,
    twiddles_for_circle_log_size,
};
use stwo::poly::fft::evaluate_into_scalar;
use stwo::poly::ifft::interpolate_scalar;
use stwo::poly::pool::BaseColumnPool;
use stwo::poly::twiddles::{domain_line_twiddles_from_tree, precompute_twiddles, TwiddleTree};
use stwo::secure_column::{SecureColumnByCoords, SecureEvaluation};
use stwo::utils::{bit_reverse, bit_reverse_index};

fn m(value: u32) -> M31 {
    M31::from_u32(value)
}

fn base(value: M31) -> QM31 {
    QM31::from_base(value)
}

fn numbers(from: u32, to: u32) -> Vec<M31> {
    (from..=to).map(m).collect()
}

fn canonic_twiddles(log_size: u32) -> TwiddleTree {
    precompute_twiddles(CanonicCoset::new(log_size).circle_domain().half_coset)
}

fn canonic_evaluation(poly: &CircleCoefficients, log_size: u32) -> CircleEvaluation {
    let domain = CanonicCoset::new(log_size).circle_domain();
    evaluate(poly, domain, &canonic_twiddles(log_size))
}

fn test_values(log_size: u32) -> Vec<M31> {
    (0..1u32 << log_size).map(|i| m(i.wrapping_mul(2654435761) >> 4)).collect()
}

fn zeros(n: usize) -> Vec<M31> {
    vec![M31(0); n]
}

fn extension_barycentric_points() -> [CirclePoint<QM31>; 2] {
    let points = [secure_field_circle_gen(), secure_field_circle_gen().mul(1_234_567)];
    for point in points {
        let x = point.x.to_m31_array();
        let y = point.y.to_m31_array();
        assert!(
            x[1..].iter().chain(&y[1..]).any(|coordinate| coordinate.0 != 0),
            "test point must not be base-field-valued"
        );
    }
    points
}

#[test]
fn barycentric_dispatch_threshold_is_pinned() {
    assert!(!barycentric_weights_use_simd(9));
    assert!(barycentric_weights_use_simd(10));
}

#[test]
fn public_cpu_barycentric_weights_match_scalar_across_dispatch() {
    for log_size in [9, 10, 11] {
        let coset = CanonicCoset::new(log_size);
        for point in extension_barycentric_points() {
            let scalar = barycentric_weights_scalar(coset, point);
            let public = barycentric_weights(coset, point);
            assert_eq!(public, scalar, "log_size={log_size}, point={point:?}");
        }
    }
}

#[test]
fn test_eval_at_point_with_4_coeffs() {
    // Represents the polynomial `1 + 2y + 3x + 4xy`.
    // Note coefficients are passed in bit reversed order.
    let poly = CircleCoefficients::new([1, 3, 2, 4].map(m).to_vec());
    let x = base(m(5));
    let y = base(m(8));

    let eval = eval_at_point(&poly, CirclePoint { x, y });

    let c = |i: usize| base(poly.coeffs[i]);
    assert_eq!(eval, c(0).add(c(1).mul(y)).add(c(2).mul(x)).add(c(3).mul(x).mul(y)));
}

#[test]
fn test_eval_at_point_with_2_coeffs() {
    // Represents the polynomial `1 + 2y`.
    let poly = CircleCoefficients::new(vec![m(1), m(2)]);
    let x = base(m(5));
    let y = base(m(8));

    let eval = eval_at_point(&poly, CirclePoint { x, y });

    assert_eq!(eval, base(poly.coeffs[0]).add(base(poly.coeffs[1]).mul(y)));
}

#[test]
fn test_eval_at_point_with_1_coeff() {
    // Represents the polynomial `1`.
    let poly = CircleCoefficients::new(vec![M31::one()]);
    let x = base(m(5));
    let y = base(m(8));

    let eval = eval_at_point(&poly, CirclePoint { x, y });

    assert_eq!(eval, QM31::one());
}

fn sampled_poly() -> CircleCoefficients {
    CircleCoefficients::new(
        [691, 805673, 5, 435684, 4832, 23876431, 197, 897346068].map(m).to_vec(),
    )
}

fn sampled_points() -> [CirclePoint<QM31>; 4] {
    [
        CirclePoint::get_point(348),
        CirclePoint::get_point(9736524),
        CirclePoint::get_point(13),
        CirclePoint::get_point(346752),
    ]
}

#[test]
fn test_cpu_eval_at_point_by_folding() {
    let poly = CircleCoefficients::new(
        [691, 805673, 5, 435684, 4832, 23876431, 197, 897346068].map(m).to_vec(),
    );
    let s = CanonicCoset::new(10);
    let domain = s.circle_domain();
    let twiddles = canonic_twiddles(11);
    let eval = evaluate(&poly, domain, &twiddles);
    let sampled_points = [
        CirclePoint::get_point(348),
        CirclePoint::get_point(9736524),
        CirclePoint::get_point(13),
        CirclePoint::get_point(346752),
    ];
    let sampled_values: Vec<QM31> =
        sampled_points.iter().map(|point| eval_at_point(&poly, *point)).collect();

    let sampled_folding_values: Vec<QM31> =
        sampled_points.iter().map(|point| eval_at_point_by_folding(&eval, *point)).collect();

    assert_eq!(
        sampled_folding_values, sampled_values,
        "Evaluation by folding should be equal to the polynomial evaluation"
    );
}

#[test]
fn test_evaluate_2_coeffs() {
    let domain = CanonicCoset::new(1).circle_domain();
    let poly = CircleCoefficients::new(numbers(1, 2));

    let evaluation = bit_reverse(&canonic_evaluation(&poly, 1).values, 1);

    for (i, eval) in evaluation.iter().enumerate() {
        let p = domain.at(i);
        assert_eq!(base(*eval), eval_at_point(&poly, p.into_ef()), "mismatch at i={i}");
    }
}

#[test]
fn test_evaluate_4_coeffs() {
    let domain = CanonicCoset::new(2).circle_domain();
    let poly = CircleCoefficients::new(numbers(1, 4));

    let evaluation = bit_reverse(&canonic_evaluation(&poly, 2).values, 2);

    for (i, eval) in evaluation.iter().enumerate() {
        let x = domain.at(i);
        assert_eq!(base(*eval), eval_at_point(&poly, x.into_ef()), "mismatch at i={i}");
    }
}

#[test]
fn test_evaluate_8_coeffs() {
    let domain = CanonicCoset::new(3).circle_domain();
    let poly = CircleCoefficients::new(numbers(1, 8));

    let evaluation = bit_reverse(&canonic_evaluation(&poly, 3).values, 3);

    for (i, eval) in evaluation.iter().enumerate() {
        let x = domain.at(i);
        assert_eq!(base(*eval), eval_at_point(&poly, x.into_ef()), "mismatch at i={i}");
    }
}

#[test]
fn test_interpolate_2_evals() {
    let poly = CircleCoefficients::new(vec![M31::one(), m(2)]);
    let evals = canonic_evaluation(&poly, 1);

    let interpolated_poly = interpolate(evals, &canonic_twiddles(1));

    assert_eq!(interpolated_poly.coeffs, poly.coeffs);
}

#[test]
fn test_interpolate_4_evals() {
    let poly = CircleCoefficients::new(numbers(1, 4));
    let evals = canonic_evaluation(&poly, 2);

    let interpolated_poly = interpolate(evals, &canonic_twiddles(2));

    assert_eq!(interpolated_poly.coeffs, poly.coeffs);
}

#[test]
fn test_interpolate_8_evals() {
    let poly = CircleCoefficients::new(numbers(1, 8));
    let evals = canonic_evaluation(&poly, 3);

    let interpolated_poly = interpolate(evals, &canonic_twiddles(3));

    assert_eq!(interpolated_poly.coeffs, poly.coeffs);
}

#[test]
fn test_circle_poly_split_at_mid() {
    let log_size = 4;
    let coeffs: Vec<M31> = (0..1 << log_size).map(m).collect();
    let poly = CircleCoefficients::new(coeffs.clone());
    let (left, right) = split_at_mid(CircleCoefficients::new(coeffs));
    let random_point = CirclePoint::get_point(21903);

    assert_eq!(
        eval_at_point(&left, random_point).add(
            random_point
                .repeated_double(log_size - 2)
                .x
                .mul(eval_at_point(&right, random_point))
        ),
        eval_at_point(&poly, random_point)
    );
}

#[test]
fn test_cpu_barycentric_evaluation() {
    let poly = CircleCoefficients::new(
        [691, 805673, 5, 435684, 4832, 23876431, 197, 897346068].map(m).to_vec(),
    );
    let s = CanonicCoset::new(10);
    let eval = canonic_evaluation(&poly, 10);
    let sampled_points = [
        CirclePoint::get_point(348),
        CirclePoint::get_point(9736524),
        CirclePoint::get_point(13),
        CirclePoint::get_point(346752),
    ];
    let sampled_values: Vec<QM31> =
        sampled_points.iter().map(|point| eval_at_point(&poly, *point)).collect();

    let sampled_barycentric_values: Vec<QM31> = sampled_points
        .iter()
        .map(|point| barycentric_eval_at_point(&eval, &barycentric_weights(s, *point)))
        .collect();

    assert_eq!(
        sampled_barycentric_values, sampled_values,
        "Barycentric evaluation should be equal to the polynomial evaluation"
    );
}

#[test]
fn twiddle_layers_independent_of_tree_root() {
    let domain = CanonicCoset::new(17).circle_domain();
    let t17 = precompute_twiddles(CanonicCoset::new(17).circle_domain().half_coset);
    let t18 = precompute_twiddles(CanonicCoset::new(18).circle_domain().half_coset);
    let l17 = domain_line_twiddles_from_tree(domain, &t17.itwiddles);
    let l18 = domain_line_twiddles_from_tree(domain, &t18.itwiddles);
    assert_eq!(l17.len(), l18.len());
    for (i, (a, b)) in l17.iter().zip(l18.iter()).enumerate() {
        assert_eq!(a, b, "itwiddle layer {i} differs between root 17 and root 18");
    }
}

#[test]
fn dispatched_interpolate_matches_scalar() {
    for (log_size, tree_log) in
        [(10u32, 11u32), (15, 18), (16, 18), (17, 17), (17, 18), (18, 18), (18, 19)]
    {
        let twiddles = canonic_twiddles(tree_log);
        let domain = CanonicCoset::new(log_size).circle_domain();
        let values = test_values(log_size);
        let eval = CircleEvaluation::new(domain, values.clone());
        let dispatched = interpolate(eval, &twiddles);
        let eval2 = CircleEvaluation::new(domain, values);
        let scalar = interpolate_scalar(eval2, &twiddles);
        assert_eq!(dispatched.coeffs, scalar.coeffs, "log_size {log_size} tree {tree_log}");
    }
}

#[test]
fn dispatched_evaluate_matches_scalar() {
    for (log_size, log_blowup, tree_log) in [
        (10u32, 1u32, 11u32),
        (15, 1, 18),
        (16, 1, 18),
        (17, 1, 18),
        (17, 0, 18),
        (18, 1, 19),
    ] {
        let twiddles = canonic_twiddles(tree_log);
        let poly = CircleCoefficients::new(test_values(log_size));
        let domain = CanonicCoset::new(log_size + log_blowup).circle_domain();
        let dispatched = evaluate(&poly, domain, &twiddles);
        let scalar = evaluate_into_scalar(&poly, domain, &twiddles, zeros(domain.size()));
        assert_eq!(
            dispatched.values, scalar.values,
            "log_size {log_size} blowup {log_blowup} tree {tree_log}"
        );
    }
}

#[test]
fn dispatched_interpolate_evaluates_back_to_values() {
    let log_size = 17u32;
    let twiddles = canonic_twiddles(18);
    let domain = CanonicCoset::new(log_size).circle_domain();
    let values = test_values(log_size);
    let eval = CircleEvaluation::new(domain, values.clone());
    let coeffs = interpolate(eval, &twiddles);
    for idx in [0usize, 1, 12345, 99999, (1 << log_size) - 1] {
        let point = domain.at(bit_reverse_index(idx, log_size)).into_ef();
        let value = eval_at_point(&coeffs, point);
        assert_eq!(value, base(values[idx]), "domain point {idx}");
    }
}

#[test]
fn simd_dispatched_commit_matches_scalar() {
    for log_size in [5u32, 9, 10, 12, 15, 16, 17, 18] {
        let twiddles = canonic_twiddles(log_size + 1);
        let domain = CanonicCoset::new(log_size).circle_domain();
        let make_values = |c: usize| -> Vec<M31> {
            (0..1usize << log_size).map(|i| m(((i + 1) * (c + 7)) as u32)).collect()
        };
        let columns: Vec<EvalsOrCoeffs> = (0..3usize)
            .map(|c| EvalsOrCoeffs::Evals(CircleEvaluation::new(domain, make_values(c))))
            .collect();
        let mut pool = BaseColumnPool::new();
        let dispatched =
            interpolate_and_evaluate_polynomials(columns, 1, &twiddles, true, &mut pool);
        let ext_domain = CanonicCoset::new(log_size + 1).circle_domain();
        for (c, d) in dispatched.iter().enumerate() {
            let eval = CircleEvaluation::new(domain, make_values(c));
            let scalar_coeffs = interpolate_scalar(eval, &twiddles);
            let scalar_evals = evaluate_into_scalar(
                &scalar_coeffs,
                ext_domain,
                &twiddles,
                zeros(ext_domain.size()),
            );
            assert_eq!(
                d.evals.values, scalar_evals.values,
                "evals log_size {log_size} col {c}"
            );
            assert_eq!(
                d.coeffs.as_ref().unwrap().coeffs,
                scalar_coeffs.coeffs,
                "coeffs log_size {log_size} col {c}"
            );
        }
    }
}

#[test]
fn mixed_size_commit_partition_matches_scalar_in_order() {
    const LOG_BLOWUP: u32 = 1;
    // Adjacent pairs put both input representations through every size class.
    let logs = [5u32, 5, 9, 9, 10, 10, 13, 13, 14, 14, 20, 20];
    let twiddles = precompute_twiddles(CanonicCoset::new(21).circle_domain().half_coset);
    let mut columns = Vec::with_capacity(logs.len());
    let mut expected = Vec::with_capacity(logs.len());

    for (column_index, &log_size) in logs.iter().enumerate() {
        let values: Vec<M31> = (0..1usize << log_size)
            .map(|row| {
                m((row as u32)
                    .wrapping_mul(2654435761)
                    .wrapping_add((column_index as u32 + 1) * 97)
                    >> 1)
            })
            .collect();
        let domain = CanonicCoset::new(log_size).circle_domain();
        let scalar_coeffs = if column_index % 2 == 0 {
            columns.push(EvalsOrCoeffs::Evals(CircleEvaluation::new(domain, values.clone())));
            interpolate_scalar(CircleEvaluation::new(domain, values), &twiddles)
        } else {
            columns.push(EvalsOrCoeffs::Coeffs(CircleCoefficients::new(values.clone())));
            CircleCoefficients::new(values)
        };
        let ext_domain = CanonicCoset::new(log_size + LOG_BLOWUP).circle_domain();
        let scalar_evals =
            evaluate_into_scalar(&scalar_coeffs, ext_domain, &twiddles, zeros(ext_domain.size()));
        expected.push((scalar_coeffs, scalar_evals));
    }

    let mut pool = BaseColumnPool::new();
    let dispatched =
        interpolate_and_evaluate_polynomials(columns, LOG_BLOWUP, &twiddles, true, &mut pool);

    assert_eq!(dispatched.len(), logs.len());
    for (index, (actual, (expected_coeffs, expected_evals))) in
        dispatched.iter().zip(expected).enumerate()
    {
        assert_eq!(
            actual.coeffs.as_ref().unwrap().coeffs,
            expected_coeffs.coeffs,
            "coefficient order or value mismatch at input index {index}"
        );
        assert_eq!(
            actual.evals.values, expected_evals.values,
            "evaluation order or value mismatch at input index {index}"
        );
    }
}

#[test]
fn mixed_size_commit_without_stored_coefficients_matches_scalar() {
    const LOG_BLOWUP: u32 = 1;
    let logs = [9u32, 10, 14];
    let twiddles = precompute_twiddles(CanonicCoset::new(15).circle_domain().half_coset);
    let mut columns = Vec::new();
    let mut expected = Vec::new();
    for (index, &log_size) in logs.iter().enumerate() {
        let domain = CanonicCoset::new(log_size).circle_domain();
        let values: Vec<M31> = (0..1usize << log_size)
            .map(|row| m((row as u32 + 1) * (index as u32 + 3)))
            .collect();
        let scalar_coeffs =
            interpolate_scalar(CircleEvaluation::new(domain, values.clone()), &twiddles);
        let ext_domain = CanonicCoset::new(log_size + LOG_BLOWUP).circle_domain();
        expected.push(evaluate_into_scalar(
            &scalar_coeffs,
            ext_domain,
            &twiddles,
            zeros(ext_domain.size()),
        ));
        columns.push(EvalsOrCoeffs::Evals(CircleEvaluation::new(domain, values)));
    }

    let mut pool = BaseColumnPool::new();
    let dispatched =
        interpolate_and_evaluate_polynomials(columns, LOG_BLOWUP, &twiddles, false, &mut pool);
    for (actual, expected) in dispatched.iter().zip(expected) {
        assert!(actual.coeffs.is_none());
        assert_eq!(actual.evals.values, expected.values);
    }
}

#[test]
fn decompose_coeff_out_fft_space_test() {
    for domain_log_size in 5..12 {
        let domain_log_half_size = domain_log_size - 1;
        let s = CanonicCoset::new(domain_log_size);
        let domain = s.circle_domain();

        let mut coeffs = zeros(1 << domain_log_size);

        // Polynomial is out of FFT space.
        coeffs[1 << domain_log_half_size] = m(1);
        assert!(!coeffs[1 << domain_log_half_size..].iter().all(|c| c.is_zero()));

        let poly = CircleCoefficients::new(coeffs);
        let values = canonic_evaluation(&poly, domain_log_size).values;
        let secure_column = SecureColumnByCoords {
            columns: [values.clone(), values.clone(), values.clone(), values.clone()],
        };
        let secure_eval = SecureEvaluation::new(domain, secure_column);

        let (g, lambda) = decompose(&secure_eval);

        // Sanity check.
        assert_ne!(lambda, QM31::zero());

        // Assert the new polynomial is in the FFT space.
        for i in 0..4 {
            let eval = CircleEvaluation::new(domain, g.values.columns[i].clone());
            let coeffs = interpolate(eval, &canonic_twiddles(domain_log_size)).coeffs;
            assert!(coeffs[1 << domain_log_half_size..].iter().all(|c| c.is_zero()));
        }
    }
}

#[test]
fn basis_dot_product_is_the_value() {
    let poly = sampled_poly();
    for point in sampled_points() {
        let basis = eval_basis_at_point(3, point);
        assert_eq!(basis.len(), 8);
        let value = eval_at_point(&poly, point);
        assert_eq!(eval_at_point_with_basis(&poly, &basis), value);
        assert_eq!(eval_many_at_point_with_basis(&vec![&poly, &poly], &basis), vec![value, value]);
    }
}

#[test]
fn barycentric_many_is_one_by_one() {
    let evals = canonic_evaluation(&sampled_poly(), 5);
    let other = canonic_evaluation(&CircleCoefficients::new(numbers(1, 16)), 5);
    let point = CirclePoint::get_point(348);
    let weights = barycentric_weights(CanonicCoset::new(5), point);
    assert_eq!(
        barycentric_eval_many_at_point(&vec![&evals, &other], &weights),
        vec![
            barycentric_eval_at_point(&evals, &weights),
            barycentric_eval_at_point(&other, &weights)
        ]
    );
}

#[test]
fn extension_keeps_the_polynomial() {
    let poly = sampled_poly();
    let longer = extend(&poly, 6);
    assert_eq!(longer.coeffs.len(), 64);
    for point in sampled_points() {
        assert_eq!(eval_at_point(&longer, point), eval_at_point(&poly, point));
    }
}

#[test]
fn right_sized_twiddles_give_the_same_transforms() {
    let full = canonic_twiddles(12);
    for log_size in [5u32, 8, 11] {
        let sized = twiddles_for_circle_log_size(&full, log_size);
        assert_eq!(sized.twiddles.len(), 1 << (log_size - 1));
        let domain = CanonicCoset::new(log_size).circle_domain();
        let values = test_values(log_size);
        let a = interpolate(CircleEvaluation::new(domain, values.clone()), &full);
        let b = interpolate(CircleEvaluation::new(domain, values), &sized);
        assert_eq!(a.coeffs, b.coeffs);
        assert_eq!(evaluate(&a, domain, &full).values, evaluate(&b, domain, &sized).values);
    }
}

fn secure_poly_eval(log_size: u32) -> (Vec<CircleCoefficients>, SecureEvaluation) {
    let polys: Vec<CircleCoefficients> = (0..4u32)
        .map(|k| CircleCoefficients::new((0..1u32 << log_size).map(|i| m(i * 17 + k)).collect()))
        .collect();
    let columns: Vec<Vec<M31>> =
        polys.iter().map(|p| canonic_evaluation(p, log_size).values).collect();
    let domain = CanonicCoset::new(log_size).circle_domain();
    let mut columns = columns.into_iter();
    let mut next = || columns.next().unwrap();
    let values = SecureColumnByCoords { columns: [next(), next(), next(), next()] };
    (polys, SecureEvaluation::new(domain, values))
}

#[test]
fn folds_combine_neighbours_by_their_coordinate() {
    let (_, evals) = secure_poly_eval(5);
    let alpha = QM31::from_u32_unchecked(1, 2, 3, 4);
    let folded = fold_circle_into_line_cpu(&evals, alpha);
    assert_eq!(folded.values.len(), 16);
    // The first pair lies at the first point of the half coset and its reflection.
    let y = evals.domain.at(0).y;
    let (f0, f1) = (evals.values.at(0), evals.values.at(1));
    let expected = f0.add(f1).add(alpha.mul(f0.sub(f1).mul_m31(y.inverse())));
    assert_eq!(folded.values.at(0), expected);

    let line = fold_line_cpu(&folded, alpha);
    assert_eq!(line.values.len(), 8);
    let x = folded.domain.coset.at(0).x;
    let (f0, f1) = (folded.values.at(0), folded.values.at(1));
    let expected = f0.add(f1).add(alpha.mul(f0.sub(f1).mul_m31(x.inverse())));
    assert_eq!(line.values.at(0), expected);

    let twice = fold_line(&folded, &[alpha, alpha]);
    let again = fold_line_cpu(&line, alpha);
    for i in 0..4 {
        assert_eq!(twice.values.at(i), again.values.at(i));
    }
}

#[test]
fn folding_by_the_points_own_coordinates_evaluates() {
    let (polys, evals) = secure_poly_eval(4);
    let point = CirclePoint::get_point(977);
    let alphas = get_folding_alphas(point, 4);
    assert_eq!(alphas.len(), 4);
    let folded = fold_circle_into_line_cpu(&evals, alphas[0]);
    let line = LineEvaluation {
        domain: LineDomain::new(folded.domain.coset),
        values: folded.values,
    };
    let last = fold_line(&line, &alphas[1..]);
    // Four folds scale the value by 2^4.
    let values: Vec<QM31> = polys.iter().map(|p| eval_at_point(p, point)).collect();
    let unit = |k: u32| match k {
        0 => QM31::from_u32_unchecked(1, 0, 0, 0),
        1 => QM31::from_u32_unchecked(0, 1, 0, 0),
        2 => QM31::from_u32_unchecked(0, 0, 1, 0),
        _ => QM31::from_u32_unchecked(0, 0, 0, 1),
    };
    let mut value = QM31::zero();
    for k in 0..4 {
        value = value.add(unit(k).mul(values[k as usize]));
    }
    assert_eq!(last.values.at(0), value.mul_m31(m(16)));
}

#[test]
fn field_operations_have_their_exact_values() {
    let p = 2147483647u32;
    assert_eq!(m(p - 1).add(m(5)), M31(4));
    assert_eq!(m(3).sub(m(7)), M31(p - 4));
    assert_eq!(m(1 << 16).mul(m(1 << 16)), M31(2));
    assert_eq!(M31(p).canonical(), M31(0));
    assert_eq!(m(2).inverse(), M31(1 << 30));
    let i = CM31(M31(0), M31(1));
    assert_eq!(i.mul(i), CM31(M31(p - 1), M31(0)));
    let u = QM31(CM31(M31(0), M31(0)), CM31(M31(1), M31(0)));
    assert_eq!(u.mul(u), QM31(CM31(M31(2), M31(1)), CM31(M31(0), M31(0))));
    let x = QM31::from_u32_unchecked(1, 2, 3, 4);
    assert_eq!(x.mul(x.inverse()), QM31::one());
    assert_eq!(x.complex_conjugate().complex_conjugate(), x);
}

#[test]
fn cosets_walk_in_equal_steps() {
    let coset = Coset::new(CirclePointIndex(3), 4);
    for k in 0..15 {
        assert_eq!(coset.at(k).add(coset.step), coset.at(k + 1));
    }
    assert_eq!(coset.at(0), CirclePointIndex(3).to_point());
    let domain = CircleDomain::new(CanonicCoset::new(4).circle_domain().half_coset);
    for i in 0..8 {
        assert_eq!(domain.at(i + 8), domain.at(i).conjugate());
    }
    assert_eq!(bit_reverse_index(6, 3), 3);
    assert_eq!(bit_reverse(&vec![0u32, 1, 2, 3], 2), vec![0, 2, 1, 3]);
}

#[test]
fn simd_twiddle_layers_independent_of_tree_root() {
    let domain = CanonicCoset::new(17).circle_domain();
    let t17 = canonic_twiddles(17);
    let t18 = canonic_twiddles(18);
    let l17 = domain_line_twiddles_from_tree(domain, &t17.itwiddles);
    let l18 = domain_line_twiddles_from_tree(domain, &t18.itwiddles);
    assert_eq!(l17.len(), l18.len());
    for (i, (a, b)) in l17.iter().zip(l18.iter()).enumerate() {
        assert_eq!(a, b, "itwiddle layer {i} differs between root 17 and root 18");
    }
}

#[test]
fn right_sized_simd_twiddles_preserve_exact_transform_results() {
    const ROOT_LOG_SIZE: u32 = 18;
    for initial_multiplier in [1usize, 3] {
        let root =
            Coset::new(CirclePointIndex::generator().scale(initial_multiplier), ROOT_LOG_SIZE);
        let full_twiddles = precompute_twiddles(root);
        for source_log_size in 10u32..=13 {
            let eval_log_size = source_log_size + 1;
            let sized_twiddles = twiddles_for_circle_log_size(&full_twiddles, eval_log_size);
            let expected_root = root.repeated_double(ROOT_LOG_SIZE - (eval_log_size - 1));
            assert_eq!(sized_twiddles.root_coset, expected_root);
            assert_eq!(sized_twiddles.twiddles.len(), 1 << (eval_log_size - 1));
            assert_eq!(sized_twiddles.itwiddles.len(), 1 << (eval_log_size - 1));
            let direct = precompute_twiddles(expected_root);
            assert_eq!(sized_twiddles.twiddles, direct.twiddles);
            assert_eq!(sized_twiddles.itwiddles, direct.itwiddles);

            let source_domain =
                CircleDomain::new(root.repeated_double(ROOT_LOG_SIZE - (source_log_size - 1)));
            let eval_domain = CircleDomain::new(expected_root);
            let values = test_values(source_log_size);
            let full_coeffs =
                interpolate(CircleEvaluation::new(source_domain, values.clone()), &full_twiddles);
            let sized_coeffs =
                interpolate(CircleEvaluation::new(source_domain, values), &sized_twiddles);
            assert_eq!(
                sized_coeffs.coeffs, full_coeffs.coeffs,
                "IFFT mismatch for source log {source_log_size}, root multiplier {initial_multiplier}"
            );
            assert_eq!(
                evaluate(&sized_coeffs, eval_domain, &sized_twiddles).values,
                evaluate(&full_coeffs, eval_domain, &full_twiddles).values,
                "extended RFFT mismatch for source log {source_log_size}, root multiplier {initial_multiplier}"
            );
        }
    }
    let sized_root = |multiplier: usize| {
        let root = Coset::new(CirclePointIndex::generator().scale(multiplier), ROOT_LOG_SIZE);
        twiddles_for_circle_log_size(&precompute_twiddles(root), 14).root_coset
    };
    assert_ne!(sized_root(1), sized_root(3));
}

#[test]
fn subgroups_start_at_the_identity() {
    let subgroup = Coset::subgroup(3);
    assert_eq!(subgroup.at(0), CirclePoint { x: m(1), y: m(0) });
    assert_eq!(subgroup.size(), 8);
    assert_eq!(subgroup.at(4), CirclePoint { x: m(1).neg(), y: m(0) });
}

#[test]
fn canonical_domains_of_different_sizes_are_disjoint() {
    for (n, m) in [(1u32, 2u32), (3, 5), (4, 6)] {
        let trace = CanonicCoset::new(n).circle_domain();
        let committed = CanonicCoset::new(m).circle_domain();
        for i in 0..trace.size() {
            for j in 0..committed.size() {
                assert_ne!(trace.at(i), committed.at(j));
            }
        }
    }
}

#[test]
fn interpolation_undoes_evaluation_on_a_shifted_domain() {
    let domain = subdomain_eval_domain(4, 1);
    assert_ne!(domain, CanonicCoset::new(4).circle_domain());
    let twiddles = precompute_twiddles(domain.half_coset);
    let poly =
        CircleCoefficients::new((0..16u32).map(|i| M31::from_u32(i * i * 5 + 3)).collect());
    let evals = evaluate(&poly, domain, &twiddles);
    assert_eq!(interpolate(evals, &twiddles).coeffs, poly.coeffs);
}
