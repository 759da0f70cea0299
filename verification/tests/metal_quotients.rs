//! Quotient rows in device passes.

use stwo::circle::{secure_field_circle_gen, CirclePoint};
use stwo::fields::batch::batch_inverse;
use stwo::fields::cm31::CM31;
use stwo::fields::m31::{M31, P};
use stwo::fields::qm31::QM31;
use stwo::fields::Field;
use stwo::metal::context::CommandStatus;
use stwo::metal::quotients::{
    combine_quotients_metal, combine_quotients_metal_with_xy, decode_pole_report,
    sample_params, settle_quotients, should_use_metal_quotients, QuotientMetalError, MIN_METAL_QUOTIENT_LOG_SIZE,
};
use stwo::poly::domain::{CanonicCoset, CircleDomain};
use stwo::quotients::{combine_rows, denominators, AccumulatedNumerators};
use stwo::secure_column::SecureColumnByCoords;
use stwo::utils::bit_reverse_index;

fn seeded_accumulation(
    subdomain_log_size: u32,
    log_ratio: u32,
    sample: usize,
) -> AccumulatedNumerators {
    let column_len = 1usize << (subdomain_log_size - log_ratio);
    let columns = [0u32, 1, 2, 3].map(|coordinate| {
        (0..column_len)
            .map(|row| {
                let raw = (row as u32)
                    .wrapping_mul(0x045d_9f3b ^ (sample as u32 * 0x0101_0101))
                    .wrapping_add(17 + coordinate * 101 + sample as u32 * 1009)
                    % P;
                M31::from_u32_unchecked(raw)
            })
            .collect()
    });
    AccumulatedNumerators {
        sample_point: secure_field_circle_gen().mul(1_234_567 + sample as u128 * 97),
        partial_numerators_acc: SecureColumnByCoords { columns },
        first_linear_term_acc: QM31::from_u32_unchecked(
            13 + sample as u32,
            29 + sample as u32,
            47 + sample as u32,
            71 + sample as u32,
        ),
    }
}

fn copied(accumulation: &AccumulatedNumerators) -> AccumulatedNumerators {
    AccumulatedNumerators {
        sample_point: accumulation.sample_point,
        partial_numerators_acc: SecureColumnByCoords {
            columns: accumulation.partial_numerators_acc.columns.clone(),
        },
        first_linear_term_acc: accumulation.first_linear_term_acc,
    }
}

fn sample_points(accumulations: &[AccumulatedNumerators]) -> Vec<CirclePoint<QM31>> {
    accumulations.iter().map(|accumulation| accumulation.sample_point).collect()
}

fn row_quotient(
    accumulations: &[AccumulatedNumerators],
    log_size: u32,
    row: usize,
    y: M31,
    inverses: &[CM31],
) -> QM31 {
    let mut quotient = QM31::default();
    for (accumulation, inverse) in accumulations.iter().zip(inverses) {
        let log_ratio = log_size - accumulation.partial_numerators_acc.len().ilog2();
        let lifted = ((row >> (log_ratio + 1)) << 1) | (row & 1);
        let numerator = accumulation
            .partial_numerators_acc
            .at(lifted)
            .sub(accumulation.first_linear_term_acc.mul_m31(y));
        quotient = quotient.add(numerator.mul_cm31(*inverse));
    }
    quotient
}

fn direct_reference(
    accumulations: &[AccumulatedNumerators],
    subdomain: CircleDomain,
) -> SecureColumnByCoords {
    let log_size = subdomain.log_size();
    let mut result = SecureColumnByCoords::zeros(subdomain.size());
    let points = sample_points(accumulations);
    for row in 0..subdomain.size() {
        let point = subdomain.at(bit_reverse_index(row, log_size));
        let inverses: Vec<CM31> =
            denominators(&points, point).iter().map(|d| d.inverse()).collect();
        result.set(row, row_quotient(accumulations, log_size, row, point.y, &inverses));
    }
    result
}

fn domain_xy(subdomain: CircleDomain) -> (Vec<M31>, Vec<M31>) {
    let log_size = subdomain.log_size();
    (0..subdomain.size())
        .map(|row| subdomain.at(bit_reverse_index(row, log_size)))
        .map(|point| (point.x, point.y))
        .unzip()
}

fn batched_reference(
    accumulations: &[AccumulatedNumerators],
    subdomain: CircleDomain,
) -> SecureColumnByCoords {
    let (xs, ys) = domain_xy(subdomain);
    batched_reference_with_xy(accumulations, subdomain.log_size(), &xs, &ys)
}

fn batched_reference_with_xy(
    accumulations: &[AccumulatedNumerators],
    log_size: u32,
    xs: &[M31],
    ys: &[M31],
) -> SecureColumnByCoords {
    const CHUNK_ROWS: usize = 4096;
    let points = sample_points(accumulations);
    let mut result = SecureColumnByCoords::zeros(xs.len());
    for start in (0..xs.len()).step_by(CHUNK_ROWS) {
        let end = (start + CHUNK_ROWS).min(xs.len());
        let row_denominators: Vec<CM31> = (start..end)
            .flat_map(|row| denominators(&points, CirclePoint { x: xs[row], y: ys[row] }))
            .collect();
        let inverses = batch_inverse(&row_denominators);
        for row in start..end {
            let at = (row - start) * accumulations.len();
            let slice = &inverses[at..at + accumulations.len()];
            result.set(row, row_quotient(accumulations, log_size, row, ys[row], slice));
        }
    }
    result
}

#[test]
fn batched_one_sample_log16_matches_direct_cpu() {
    let log_size = MIN_METAL_QUOTIENT_LOG_SIZE;
    let subdomain = CanonicCoset::new(log_size).circle_domain();
    let accumulations = vec![seeded_accumulation(log_size, 0, 0)];
    let expected = direct_reference(&accumulations, subdomain);
    let actual = combine_quotients_metal(&accumulations, subdomain, subdomain.size())
        .expect("submitted Metal quotient command must succeed")
        .expect("eligible quotient shape must dispatch");
    let (xs, ys) = domain_xy(subdomain);
    let direct = combine_rows(&accumulations, log_size, subdomain.size(), &xs, &ys);
    assert_eq!(actual.columns, expected.columns);
    assert_eq!(direct.columns, expected.columns);
}

#[test]
fn batched_metal_matches_cpu_across_required_shape_matrix() {
    for log_size in [16, 17, 18] {
        let subdomain = CanonicCoset::new(log_size).circle_domain();
        for n_samples in [1, 2, 6] {
            for log_ratio in [0, 1, 3] {
                let accumulations: Vec<AccumulatedNumerators> = (0..n_samples)
                    .map(|sample| seeded_accumulation(log_size, log_ratio, sample))
                    .collect();
                let expected = batched_reference(&accumulations, subdomain);
                let actual = combine_quotients_metal(&accumulations, subdomain, subdomain.size())
                    .expect("submitted Metal quotient command must succeed")
                    .expect("eligible quotient shape must dispatch");
                assert_eq!(
                    actual.columns, expected.columns,
                    "log_size={log_size}, n_samples={n_samples}, log_ratio={log_ratio}"
                );
            }
        }
    }
}

#[test]
fn batched_metal_canonicalizes_raw_zero_across_all_load_paths() {
    let log_size = 16;
    let subdomain = CanonicCoset::new(log_size).circle_domain();
    let (mut canonical_xs, mut canonical_ys) = domain_xy(subdomain);
    let (mut raw_xs, mut raw_ys) = (canonical_xs.clone(), canonical_ys.clone());
    let zero_representations = [(0, 0), (P, 0), (0, P), (P, P)];
    for (&row, &(raw_x, raw_y)) in
        [0, 127, 32768, subdomain.size() - 1].iter().zip(&zero_representations)
    {
        canonical_xs[row] = M31::from_u32_unchecked(0);
        canonical_ys[row] = M31::from_u32_unchecked(0);
        raw_xs[row] = M31::from_u32_unchecked(raw_x);
        raw_ys[row] = M31::from_u32_unchecked(raw_y);
    }

    let mut canonical: Vec<AccumulatedNumerators> = (0..6)
        .map(|sample| seeded_accumulation(log_size, [0, 1, 3][sample % 3], sample))
        .collect();
    let mut raw: Vec<AccumulatedNumerators> = canonical.iter().map(copied).collect();
    for sample in 0..canonical.len() {
        let (raw_a, raw_b) = zero_representations[sample % zero_representations.len()];
        let pix = [11 + sample as u32, 17 + sample as u32];
        let pry = [23 + sample as u32, 29 + sample as u32];
        let piy = [31 + sample as u32, 37 + sample as u32];
        canonical[sample].sample_point = CirclePoint {
            x: QM31::from_u32_unchecked(0, 0, pix[0], pix[1]),
            y: QM31::from_u32_unchecked(pry[0], pry[1], piy[0], piy[1]),
        };
        raw[sample].sample_point = CirclePoint {
            x: QM31::from_u32_unchecked(raw_a, raw_b, pix[0], pix[1]),
            y: canonical[sample].sample_point.y,
        };
        let flt = canonical[sample].first_linear_term_acc.to_m31_array();
        canonical[sample].first_linear_term_acc =
            QM31::from_u32_unchecked(0, 0, flt[2].0, flt[3].0);
        raw[sample].first_linear_term_acc =
            QM31::from_u32_unchecked(raw_a, raw_b, flt[2].0, flt[3].0);

        let column_len = canonical[sample].partial_numerators_acc.len();
        for (offset, &(coordinate_a, coordinate_b)) in zero_representations.iter().enumerate() {
            let row = [0, 1, 257, column_len - 1][offset];
            canonical[sample].partial_numerators_acc.columns[0][row] = M31(0);
            canonical[sample].partial_numerators_acc.columns[1][row] = M31(0);
            raw[sample].partial_numerators_acc.columns[0][row] = M31(coordinate_a);
            raw[sample].partial_numerators_acc.columns[1][row] = M31(coordinate_b);
        }
    }

    let expected = batched_reference_with_xy(&canonical, log_size, &canonical_xs, &canonical_ys);
    let actual = combine_quotients_metal_with_xy(&raw, log_size, raw_xs.len(), &raw_xs, &raw_ys)
        .expect("submitted raw-representation command must succeed")
        .expect("raw-representation shape must dispatch");
    assert_eq!(actual.columns, expected.columns);
}

struct Axes<'a> {
    xs: &'a [M31],
    ys: &'a [M31],
}

fn check(
    canonical: &Vec<AccumulatedNumerators>,
    raw: &Vec<AccumulatedNumerators>,
    canonical_axes: Axes<'_>,
    raw_axes: Axes<'_>,
    case: &str,
) {
    let log_size = 16;
    let expected =
        batched_reference_with_xy(canonical, log_size, canonical_axes.xs, canonical_axes.ys);
    let actual = combine_quotients_metal_with_xy(
        raw,
        log_size,
        raw_axes.xs.len(),
        raw_axes.xs,
        raw_axes.ys,
    )
    .unwrap_or_else(|error| panic!("{case}: unexpected terminal error: {error:?}"))
    .unwrap_or_else(|| panic!("{case}: eligible shape declined"));
    assert_eq!(actual.columns, expected.columns, "{case}");
}

#[test]
fn raw_p_axis_trials_cover_every_loaded_coordinate() {
    let log_size = 16;
    let subdomain = CanonicCoset::new(log_size).circle_domain();
    let (xs, ys) = domain_xy(subdomain);
    let axes = || Axes { xs: &xs, ys: &ys };

    // All four partial-numerator coordinate buffers.
    let mut canonical = vec![seeded_accumulation(log_size, 3, 0)];
    let mut raw = vec![copied(&canonical[0])];
    for coordinate in 0..4 {
        let row = 19 + coordinate * 257;
        canonical[0].partial_numerators_acc.columns[coordinate][row] = M31(0);
        raw[0].partial_numerators_acc.columns[coordinate][row] = M31(P);
        assert_eq!(raw[0].partial_numerators_acc.columns[coordinate][row].0, P);
    }
    check(&canonical, &raw, axes(), axes(), "partial coordinates");

    // All four first-linear-term parameter coordinates.
    let mut canonical = vec![seeded_accumulation(log_size, 1, 1)];
    let mut raw = vec![copied(&canonical[0])];
    canonical[0].first_linear_term_acc = QM31::from_u32_unchecked(0, 0, 0, 0);
    raw[0].first_linear_term_acc = QM31::from_u32_unchecked(P, P, P, P);
    assert!(raw[0]
        .first_linear_term_acc
        .to_m31_array()
        .iter()
        .all(|value| value.0 == P));
    check(&canonical, &raw, axes(), axes(), "FLT coordinates");

    // All eight sample-point words.
    for axis in 0..8 {
        let mut canonical = vec![seeded_accumulation(log_size, 0, 2)];
        let mut raw = vec![copied(&canonical[0])];
        let x = canonical[0].sample_point.x.to_m31_array();
        let y = canonical[0].sample_point.y.to_m31_array();
        let mut canonical_words =
            [x[0].0, x[1].0, x[2].0, x[3].0, y[0].0, y[1].0, y[2].0, y[3].0];
        let mut raw_words = canonical_words;
        canonical_words[axis] = 0;
        raw_words[axis] = P;
        let point = |words: [u32; 8]| CirclePoint {
            x: QM31::from_u32_unchecked(words[0], words[1], words[2], words[3]),
            y: QM31::from_u32_unchecked(words[4], words[5], words[6], words[7]),
        };
        canonical[0].sample_point = point(canonical_words);
        raw[0].sample_point = point(raw_words);
        let raw_x = raw[0].sample_point.x.to_m31_array();
        let raw_y = raw[0].sample_point.y.to_m31_array();
        assert_eq!(if axis < 4 { raw_x[axis].0 } else { raw_y[axis - 4].0 }, P);
        check(&canonical, &raw, axes(), axes(), &format!("sample-point axis {axis}"));
    }

    // Both domain coordinate loads, including a shared row where both are raw P.
    let canonical = vec![seeded_accumulation(log_size, 3, 3)];
    let raw = vec![copied(&canonical[0])];
    let (mut canonical_xs, mut canonical_ys) = (xs.clone(), ys.clone());
    let (mut raw_xs, mut raw_ys) = (xs.clone(), ys.clone());
    for row in [0, 257] {
        canonical_xs[row] = M31(0);
        raw_xs[row] = M31(P);
    }
    for row in [1, 257] {
        canonical_ys[row] = M31(0);
        raw_ys[row] = M31(P);
    }
    assert_eq!(raw_xs[0].0, P);
    assert_eq!(raw_ys[1].0, P);
    assert_eq!((raw_xs[257].0, raw_ys[257].0), (P, P));
    check(
        &canonical,
        &raw,
        Axes { xs: &canonical_xs, ys: &canonical_ys },
        Axes { xs: &raw_xs, ys: &raw_ys },
        "domain x/y coordinates",
    );
}

#[test]
fn inactive_tail_lanes_are_identity_and_cross_all_barriers() {
    let log_size = 16;
    let subdomain = CanonicCoset::new(log_size).circle_domain();
    let n_rows = subdomain.size() - 13;
    let (xs, ys) = domain_xy(subdomain);
    let accumulations: Vec<AccumulatedNumerators> = (0..6)
        .map(|sample| seeded_accumulation(log_size, [0, 1, 3][sample % 3], sample))
        .collect();
    let expected =
        batched_reference_with_xy(&accumulations, log_size, &xs[..n_rows], &ys[..n_rows]);
    let actual = combine_quotients_metal_with_xy(&accumulations, log_size, n_rows, &xs, &ys)
        .expect("tail-lane command must succeed")
        .expect("tail-lane shape must dispatch");
    assert_eq!(actual.columns, expected.columns);
}

#[test]
fn malformed_shapes_decline_before_submission() {
    let log_size = 16;
    let subdomain = CanonicCoset::new(log_size).circle_domain();
    let (xs, ys) = domain_xy(subdomain);
    let accumulation = vec![seeded_accumulation(log_size, 0, 0)];
    for (n_rows, xs_len, ys_len) in [
        (0, xs.len(), ys.len()),
        (xs.len() + 1, xs.len(), ys.len()),
        (xs.len(), xs.len() - 1, ys.len()),
        (ys.len(), xs.len(), ys.len() - 1),
    ] {
        let result = combine_quotients_metal_with_xy(
            &accumulation,
            log_size,
            n_rows,
            &xs[..xs_len],
            &ys[..ys_len],
        )
        .expect("malformed shape must be a pre-submit decline");
        assert!(result.is_none());
    }

    let mut uneven = vec![copied(&accumulation[0])];
    uneven[0].partial_numerators_acc.columns[3].pop();
    assert!(combine_quotients_metal_with_xy(&uneven, log_size, xs.len(), &xs, &ys)
        .expect("uneven coordinate lengths must decline pre-submit")
        .is_none());
}

fn tangent_sample_point(
    subdomain: CircleDomain,
    row: usize,
    raw_zero: (u32, u32),
) -> CirclePoint<QM31> {
    let point = subdomain.at(bit_reverse_index(row, subdomain.log_size()));
    // The tangent x0*x + y0*y - 1 has exactly one intersection with the circle, so the
    // denominator vanishes at exactly one row.
    let y_inverse = point.y.inverse();
    CirclePoint {
        x: QM31::from_u32_unchecked(raw_zero.0, raw_zero.1, point.y.0, 0),
        y: QM31::from_u32_unchecked(y_inverse.0, 0, point.x.neg().0, 0),
    }
}

#[test]
fn pole_reports_each_sample_at_first_middle_and_last_rows() {
    let log_size = 16;
    let subdomain = CanonicCoset::new(log_size).circle_domain();
    let rows = [0, subdomain.size() / 2, subdomain.size() - 1];
    let zero_representations = [(0, 0), (P, 0), (0, P), (P, P)];
    for sample in 0..6 {
        for &row in &rows {
            let mut accumulations: Vec<AccumulatedNumerators> = (0..6)
                .map(|index| seeded_accumulation(log_size, index as u32 % 4, index))
                .collect();
            accumulations[sample].sample_point = tangent_sample_point(
                subdomain,
                row,
                zero_representations[sample % zero_representations.len()],
            );
            let Err(error) =
                combine_quotients_metal(&accumulations, subdomain, subdomain.size())
            else {
                panic!("a denominator pole must be terminal after submission")
            };
            match error {
                QuotientMetalError::Pole { sample_mask, first_row, sample_first_rows } => {
                    assert_eq!(sample_mask, 1 << sample);
                    assert_eq!(first_row, row);
                    assert_eq!(sample_first_rows[sample], Some(row));
                    for (other, first) in sample_first_rows.iter().enumerate() {
                        if other != sample {
                            assert_eq!(*first, None);
                        }
                    }
                }
                other => panic!("unexpected terminal error: {other:?}"),
            }
        }
    }
}

#[test]
fn pole_report_preserves_distinct_samples_at_distinct_rows() {
    let log_size = 16;
    let subdomain = CanonicCoset::new(log_size).circle_domain();
    let rows =
        [0, 19, 257, subdomain.size() / 2, subdomain.size() - 2, subdomain.size() - 1];
    let zero_representations = [(0, 0), (P, 0), (0, P), (P, P)];
    let mut accumulations: Vec<AccumulatedNumerators> =
        (0..6).map(|sample| seeded_accumulation(log_size, sample as u32 % 4, sample)).collect();
    for sample in 0..6 {
        accumulations[sample].sample_point = tangent_sample_point(
            subdomain,
            rows[sample],
            zero_representations[sample % zero_representations.len()],
        );
    }
    let Err(error) = combine_quotients_metal(&accumulations, subdomain, subdomain.size()) else {
        panic!("all six distinct poles must be terminal after submission")
    };
    match error {
        QuotientMetalError::Pole { sample_mask, first_row, sample_first_rows } => {
            assert_eq!(sample_mask, 0b11_1111);
            assert_eq!(first_row, rows[0]);
            assert_eq!(sample_first_rows, rows.map(Some));
        }
        other => panic!("unexpected terminal error: {other:?}"),
    }
}

#[test]
fn degenerate_all_row_pole_is_terminal_at_row_zero() {
    let log_size = 16;
    let subdomain = CanonicCoset::new(log_size).circle_domain();
    let mut accumulation = seeded_accumulation(log_size, 0, 0);
    // A denominator that is zero everywhere, with raw P in every loaded coordinate.
    accumulation.sample_point = CirclePoint {
        x: QM31::from_u32_unchecked(P, P, P, P),
        y: QM31::from_u32_unchecked(P, P, P, P),
    };
    let Err(error) = combine_quotients_metal(&vec![accumulation], subdomain, subdomain.size())
    else {
        panic!("an all-row denominator pole must be terminal")
    };
    match error {
        QuotientMetalError::Pole { sample_mask, first_row, sample_first_rows } => {
            assert_eq!(sample_mask, 1);
            assert_eq!(first_row, 0);
            assert_eq!(sample_first_rows, [Some(0), None, None, None, None, None]);
        }
        other => panic!("unexpected terminal error: {other:?}"),
    }
}

#[test]
fn reports_without_a_pole_are_fine() {
    assert!(!should_use_metal_quotients(15));
    assert!(should_use_metal_quotients(16));
    let none = u32::MAX;
    assert!(decode_pole_report(&[0, none, none, none, none, none, none]).is_ok());
    let Err(QuotientMetalError::Pole { sample_mask, first_row, sample_first_rows }) =
        decode_pole_report(&[0b1010, none, 7, none, 3, none, none])
    else {
        panic!("a reported row is a pole")
    };
    assert_eq!((sample_mask, first_row), (0b1010, 3));
    assert_eq!(sample_first_rows, [None, Some(7), None, Some(3), None, None]);
    let failed = QuotientMetalError::CommandFailed { status: CommandStatus::Error };
    assert!(matches!(failed, QuotientMetalError::CommandFailed { .. }));
}

#[test]
fn sample_parameters_name_the_point_and_the_ratio() {
    let accumulation = seeded_accumulation(9, 3, 2);
    let params = sample_params(&accumulation, 9);
    let x = accumulation.sample_point.x.to_m31_array().map(|v| v.0);
    let y = accumulation.sample_point.y.to_m31_array().map(|v| v.0);
    assert_eq!((params.prx, params.pix), ([x[0], x[1]], [x[2], x[3]]));
    assert_eq!((params.pry, params.piy), ([y[0], y[1]], [y[2], y[3]]));
    assert_eq!((params.flt0, params.flt1), ([15, 31], [49, 73]));
    assert_eq!((params.log_ratio, params.pad), (3, 0));
}

#[test]
fn failed_combinations_are_final_and_declined_ones_are_not() {
    let accumulations = vec![seeded_accumulation(5, 0, 0)];
    let xs: Vec<M31> = (0..32).map(|i| M31(3 * i + 1)).collect();
    let ys: Vec<M31> = (0..32).map(|i| M31(5 * i + 2)).collect();
    assert!(matches!(
        settle_quotients(&accumulations, 5, 32, &xs, &ys, CommandStatus::Error),
        Err(QuotientMetalError::CommandFailed { status: CommandStatus::Error })
    ));
    assert!(matches!(
        settle_quotients(&accumulations, 5, 64, &xs, &ys, CommandStatus::Error),
        Ok(None)
    ));
    let settled = settle_quotients(&accumulations, 5, 32, &xs, &ys, CommandStatus::Completed);
    let direct = combine_quotients_metal_with_xy(&accumulations, 5, 32, &xs, &ys);
    assert_eq!(
        settled.unwrap().unwrap().columns,
        direct.unwrap().unwrap().columns
    );
}

#[test]
fn single_rows_are_combined_and_no_more_than_one_is_read_from_them() {
    let mut accumulation = seeded_accumulation(0, 0, 1);
    let (xs, ys) = ([M31(3), M31(9)], [M31(5), M31(11)]);
    let column = combine_quotients_metal_with_xy(&vec![copied(&accumulation)], 0, 1, &xs, &ys)
        .unwrap()
        .unwrap();
    assert_eq!(column.len(), 1);
    let expected = accumulation
        .partial_numerators_acc
        .at(0)
        .sub(accumulation.first_linear_term_acc.mul_m31(ys[0]))
        .mul_cm31(denominators(
            &vec![accumulation.sample_point],
            CirclePoint { x: xs[0], y: ys[0] },
        )[0]
        .inverse());
    assert_eq!(column.at(0), expected);
    // A second row has no numerator, and a larger subdomain no more rows than a word can count.
    let one = vec![copied(&accumulation)];
    assert!(combine_quotients_metal_with_xy(&one, 1, 2, &xs, &ys).unwrap().is_none());
    assert!(combine_quotients_metal_with_xy(&one, 1, 1, &xs, &ys).unwrap().is_some());
    assert!(combine_quotients_metal_with_xy(&one, 40, 1, &xs, &ys).unwrap().is_some());
    assert!(combine_quotients_metal_with_xy(&one, 64, 1, &xs, &ys).unwrap().is_none());
    // Neither is it submitted for poles, which are reported where every row has its numerator.
    accumulation.sample_point = CirclePoint { x: QM31::zero(), y: QM31::zero() };
    let one = vec![accumulation];
    assert!(combine_quotients_metal_with_xy(&one, 1, 2, &xs, &ys).unwrap().is_none());
    let Err(QuotientMetalError::Pole { sample_mask, first_row, .. }) =
        combine_quotients_metal_with_xy(&one, 1, 1, &xs, &ys)
    else {
        panic!("a pole is an error")
    };
    assert_eq!((sample_mask, first_row), (1, 0));
}
