//! Quotients of sampled columns.

use stwo::circle::{secure_field_circle_gen, CirclePoint};
use stwo::fields::m31::M31;
use stwo::fields::qm31::QM31;
use stwo::fields::Field;
use stwo::metal::groups::{accumulate_groups, select_batches};
use stwo::poly::circle_poly::{CircleCoefficients, CircleEvaluation};
use stwo::poly::domain::CanonicCoset;
use stwo::poly::eval::eval_at_point;
use stwo::poly::extension::evaluate;
use stwo::poly::twiddles::precompute_twiddles;
use stwo::quotients::{
    accumulate_numerator_groups, accumulate_numerators, complex_conjugate_line_coeffs,
    compute_quotients_and_combine, denominator, domain_xy, AccumulatedNumerators,
    ColumnSampleBatch, NumeratorBatchGroup, NumeratorData,
};

fn sample_points() -> [CirclePoint<QM31>; 2] {
    [secure_field_circle_gen(), secure_field_circle_gen().mul(98_765)]
}

fn coefficients(log_size: u32, seed: u32) -> CircleCoefficients {
    CircleCoefficients::new((0..1u32 << log_size).map(|i| M31::from_u32(i * 7 + seed)).collect())
}

fn column(log_size: u32, seed: u32) -> CircleEvaluation {
    let domain = CanonicCoset::new(log_size).circle_domain();
    let values = (0..1u32 << log_size).map(|i| M31::from_u32(i * i + seed)).collect();
    CircleEvaluation::new(domain, values)
}

fn batch(point: CirclePoint<QM31>, n: usize, seed: u32) -> ColumnSampleBatch {
    ColumnSampleBatch {
        point,
        cols_vals_randpows: (0..n)
            .map(|k| NumeratorData {
                column_index: k,
                sample_value: QM31::from_u32_unchecked(seed, k as u32, 3, 5),
                random_coeff: QM31::from_u32_unchecked(k as u32 + 1, seed, 7, 2),
            })
            .collect(),
    }
}

#[test]
fn lines_pass_through_the_sample_and_its_conjugate() {
    let alpha = QM31::from_u32_unchecked(9, 8, 7, 6);
    let value = QM31::from_u32_unchecked(1, 22, 333, 4444);
    for point in sample_points() {
        let line = complex_conjugate_line_coeffs(point, value, alpha);
        for (y, v) in [
            (point.y, value),
            (point.y.complex_conjugate(), value.complex_conjugate()),
        ] {
            assert_eq!(line.a.mul(y).add(line.b), line.c.mul(v));
        }
    }
}

fn same_entries(a: &[AccumulatedNumerators], b: &[AccumulatedNumerators]) {
    assert_eq!(a.len(), b.len());
    for (a, b) in a.iter().zip(b) {
        assert_eq!(a.sample_point, b.sample_point);
        assert_eq!(a.first_linear_term_acc, b.first_linear_term_acc);
        assert_eq!(a.partial_numerators_acc.columns, b.partial_numerators_acc.columns);
    }
}

#[test]
fn groups_give_the_same_numerators_in_one_submission() {
    let [p, q] = sample_points();
    let small = [column(6, 1), column(6, 2)];
    let large = [column(15, 3), column(15, 4), column(15, 5)];
    let groups = vec![
        NumeratorBatchGroup {
            columns: small.iter().collect(),
            sample_batches: vec![batch(p, 2, 11), batch(q, 1, 12)],
        },
        NumeratorBatchGroup {
            columns: large.iter().collect(),
            sample_batches: vec![batch(q, 3, 13), batch(p, 2, 14)],
        },
    ];
    let (batches, positions) = select_batches(&groups, 1);
    assert_eq!(positions, vec![2, 3]);
    assert_eq!(batches.len(), 2);
    assert_eq!(batches[0].columns.len(), 3);
    assert_eq!(batches[1].n_rows, 1 << 14);

    let mut submitted = vec![];
    accumulate_groups(&groups, &mut submitted, 1);
    let mut plain = vec![];
    accumulate_numerator_groups(&groups, &mut plain, 1);
    same_entries(&submitted, &plain);

    let mut one_by_one = vec![];
    for group in &groups {
        accumulate_numerators(&group.columns, &group.sample_batches, &mut one_by_one, 1);
    }
    same_entries(&plain, &one_by_one);
}

#[test]
fn quotients_divide_the_distance_to_the_line() {
    let log_size = 5;
    let coset = CanonicCoset::new(log_size);
    let domain = coset.circle_domain();
    let twiddles = precompute_twiddles(domain.half_coset);
    let poly = coefficients(log_size - 1, 3);
    let evals = evaluate(&poly, domain, &twiddles);
    let point = secure_field_circle_gen().mul(123);
    let value = eval_at_point(&poly, point);
    let alpha = QM31::from_u32_unchecked(4, 3, 2, 1);
    let batches = vec![ColumnSampleBatch {
        point,
        cols_vals_randpows: vec![NumeratorData {
            column_index: 0,
            sample_value: value,
            random_coeff: alpha,
        }],
    }];
    let mut accumulations = vec![];
    accumulate_numerators(&vec![&evals], &batches, &mut accumulations, 1);
    let quotients = compute_quotients_and_combine(&accumulations, log_size, 1, &twiddles);

    let line = complex_conjugate_line_coeffs(point, value, alpha);
    let (subdomain, _) = domain.split(1);
    let xy = domain_xy(subdomain);
    for row in 0..subdomain.size() {
        let numerator = line
            .c
            .mul_m31(evals.values[row])
            .sub(line.a.mul_m31(xy.ys[row]))
            .sub(line.b);
        let expected = numerator.mul_cm31(denominator(point, xy.xs[row], xy.ys[row]).inverse());
        assert_eq!(quotients.values.at(row), expected, "row={row}");
    }
}
