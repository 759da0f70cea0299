//! Numerators in device passes.

use stwo::fields::m31::{M31, P};
use stwo::fields::qm31::QM31;
use stwo::fields::Field;
use stwo::metal::context::CommandStatus;
use stwo::metal::numerators::{
    accumulate_numerators_metal, deduplicate_inputs, dispatch_params, input_key, preflight,
    settle_numerators, NumeratorBatch,
};
use stwo::metal::quotients::{
    should_use_metal_numerators, QuotientMetalError, MIN_METAL_NUMERATOR_LOG_SIZE,
};
use stwo::secure_column::SecureColumnByCoords;

fn preflight_for_test(batches: &Vec<NumeratorBatch<'_>>) -> Option<(usize, usize)> {
    preflight(batches).map(|plan| (plan.max_rows, plan.dispatch_count))
}

fn cpu_reference(batch: &NumeratorBatch<'_>) -> SecureColumnByCoords {
    let mut result = SecureColumnByCoords::zeros(batch.n_rows);
    for row in 0..batch.n_rows {
        let mut accumulator = batch.neg_b_sum.canonical();
        for (column, coefficient) in batch.columns.iter().zip(&batch.coeffs) {
            accumulator =
                accumulator.add(coefficient.canonical().mul_m31(column[row].canonical()));
        }
        result.set(row, accumulator);
    }
    result
}

fn seeded_column(log_rows: u32, salt: u32) -> Vec<M31> {
    (0..1usize << log_rows)
        .map(|row| {
            M31::from_u32_unchecked(
                (row as u32).wrapping_mul(0x045d_9f3b ^ salt).wrapping_add(17 + salt) % P,
            )
        })
        .collect()
}

fn coefficient(batch: usize, column: usize) -> QM31 {
    let seed = 1 + batch as u32 * 97 + column as u32 * 13;
    QM31::from_u32_unchecked(seed, seed + 2, seed + 4, seed + 6)
}

fn batches_for_shapes<'a>(
    storage: &'a [Vec<M31>],
    shapes: &[(u32, &[usize])],
) -> Vec<NumeratorBatch<'a>> {
    let mut batch_index = 0usize;
    let mut batches = Vec::new();
    for ((log_rows, column_counts), column) in shapes.iter().zip(storage) {
        assert_eq!(column.len(), 1usize << log_rows);
        for &column_count in *column_counts {
            batches.push(NumeratorBatch {
                columns: vec![column.as_slice(); column_count],
                coeffs: (0..column_count).map(|column| coefficient(batch_index, column)).collect(),
                neg_b_sum: QM31::from_u32_unchecked(
                    11 + batch_index as u32,
                    23 + batch_index as u32,
                    37 + batch_index as u32,
                    53 + batch_index as u32,
                ),
                n_rows: column.len(),
            });
            batch_index += 1;
        }
    }
    batches
}

fn assert_batches_match_cpu(batches: &Vec<NumeratorBatch<'_>>) {
    let expected: Vec<SecureColumnByCoords> = batches.iter().map(cpu_reference).collect();
    let actual = accumulate_numerators_metal(batches)
        .expect("submitted bulk numerator command must succeed")
        .expect("valid Metal numerator shape must dispatch");
    assert_eq!(actual.len(), expected.len());
    for (batch, (actual, expected)) in actual.iter().zip(&expected).enumerate() {
        assert_eq!(actual.columns, expected.columns, "stable batch {batch}");
    }
}

#[test]
fn column_chunk_boundaries_and_mixed_logs_match_cpu() {
    const COUNTS: &[usize] = &[1, 15, 16, 17, 31, 32, 33];
    const SHAPES: &[(u32, &[usize])] = &[(8, COUNTS), (12, COUNTS), (16, COUNTS)];
    let storage: Vec<Vec<M31>> = SHAPES
        .iter()
        .enumerate()
        .map(|(index, (log_rows, _))| seeded_column(*log_rows, 71 + index as u32))
        .collect();
    let batches = batches_for_shapes(&storage, SHAPES);
    assert_eq!(preflight_for_test(&batches), Some((1 << 16, 36)));
    assert_batches_match_cpu(&batches);
}

#[test]
fn distinct_allocations_across_multiple_batches_match_cpu() {
    const SHAPES: &[(u32, usize)] = &[(8, 3), (9, 17), (8, 5)];
    let storage: Vec<Vec<Vec<M31>>> = SHAPES
        .iter()
        .enumerate()
        .map(|(batch, &(log_rows, column_count))| {
            (0..column_count)
                .map(|column| seeded_column(log_rows, 101 + (batch * 31 + column) as u32))
                .collect()
        })
        .collect();
    let batches: Vec<NumeratorBatch<'_>> = storage
        .iter()
        .zip(SHAPES)
        .enumerate()
        .map(|(batch, (columns, &(log_rows, column_count)))| NumeratorBatch {
            columns: columns.iter().map(Vec::as_slice).collect(),
            coeffs: (0..column_count).map(|column| coefficient(batch, column)).collect(),
            neg_b_sum: QM31::from_u32_unchecked(
                7 + batch as u32,
                11 + batch as u32,
                13 + batch as u32,
                17 + batch as u32,
            ),
            n_rows: 1 << log_rows,
        })
        .collect();

    let input_keys: Vec<(usize, usize)> = batches
        .iter()
        .flat_map(|batch| batch.columns.iter().map(|column| input_key(column)))
        .collect();
    let (unique, places) = deduplicate_inputs(&input_keys);
    assert_eq!(
        unique.len(),
        input_keys.len(),
        "every input must have a distinct live allocation"
    );
    assert_eq!(places, (0..input_keys.len()).collect::<Vec<usize>>());
    assert_eq!(preflight_for_test(&batches), Some((1 << 9, 4)));
    assert_batches_match_cpu(&batches);
}

#[test]
fn raw_p_is_canonicalized_on_columns_coefficients_init_and_output() {
    const N_ROWS: usize = 256;
    const N_COLS: usize = 17;
    let mut canonical_columns: Vec<Vec<M31>> = (0..N_COLS)
        .map(|column| (0..N_ROWS).map(|row| M31::from_u32((row + column + 1) as u32)).collect())
        .collect();
    let mut raw_columns = canonical_columns.clone();
    canonical_columns[0][19] = M31(0);
    raw_columns[0][19] = M31(P);

    let mut canonical_coeffs: Vec<QM31> =
        (0..N_COLS).map(|column| coefficient(3, column)).collect();
    let mut raw_coeffs = canonical_coeffs.clone();
    for coordinate in 0..4 {
        let column = coordinate + 1;
        let mut canonical = canonical_coeffs[column].to_m31_array();
        let mut raw = raw_coeffs[column].to_m31_array();
        canonical[coordinate] = M31(0);
        raw[coordinate] = M31(P);
        canonical_coeffs[column] = QM31::from_m31_array(canonical);
        raw_coeffs[column] = QM31::from_m31_array(raw);
    }
    let canonical = vec![NumeratorBatch {
        columns: canonical_columns.iter().map(Vec::as_slice).collect(),
        coeffs: canonical_coeffs,
        neg_b_sum: QM31::from_u32_unchecked(0, 0, 0, 0),
        n_rows: N_ROWS,
    }];
    let raw = vec![NumeratorBatch {
        columns: raw_columns.iter().map(Vec::as_slice).collect(),
        coeffs: raw_coeffs,
        neg_b_sum: QM31::from_u32_unchecked(P, P, P, P),
        n_rows: N_ROWS,
    }];
    assert_eq!(raw[0].columns[0][19].0, P);
    let canonical_output =
        accumulate_numerators_metal(&canonical).unwrap().unwrap().pop().unwrap();
    let raw_output = accumulate_numerators_metal(&raw).unwrap().unwrap().pop().unwrap();
    assert_eq!(raw_output.columns, canonical_output.columns);
    assert!(raw_output.columns.iter().flatten().all(|value| value.0 < P));
}

#[test]
fn returned_results_keep_caller_batch_order() {
    let storage = [seeded_column(8, 1), seeded_column(9, 2), seeded_column(8, 3)];
    let sentinels = [17, 29, 43];
    let batches: Vec<NumeratorBatch<'_>> = storage
        .iter()
        .zip(sentinels)
        .map(|(column, sentinel)| NumeratorBatch {
            columns: vec![column.as_slice()],
            coeffs: vec![QM31::default()],
            neg_b_sum: QM31::from_u32_unchecked(sentinel, 0, 0, 0),
            n_rows: column.len(),
        })
        .collect();
    let outputs = accumulate_numerators_metal(&batches).unwrap().unwrap();
    assert_eq!(outputs.len(), sentinels.len());
    for (output, sentinel) in outputs.iter().zip(sentinels) {
        assert!(output.columns[0].iter().all(|value| value.0 == sentinel));
    }
}

#[test]
fn malformed_shapes_decline_during_preflight_before_submission() {
    let column = seeded_column(8, 9);
    let empty = NumeratorBatch {
        columns: vec![],
        coeffs: vec![],
        neg_b_sum: QM31::default(),
        n_rows: 256,
    };
    assert!(preflight_for_test(&vec![empty]).is_none());

    let mismatch = NumeratorBatch {
        columns: vec![column.as_slice()],
        coeffs: vec![],
        neg_b_sum: QM31::default(),
        n_rows: 256,
    };
    assert!(preflight_for_test(&vec![mismatch]).is_none());

    for n_rows in [0, 127, 512] {
        let malformed = NumeratorBatch {
            columns: vec![column.as_slice()],
            coeffs: vec![QM31::default()],
            neg_b_sum: QM31::default(),
            n_rows,
        };
        assert!(preflight_for_test(&vec![malformed]).is_none());
    }
}

#[test]
fn input_deduplication_key_is_exact_pointer_and_bound_length() {
    let first = seeded_column(9, 17);
    let second = first.clone();
    assert_eq!(input_key(&first[..256]), input_key(&first[..256]));
    assert_ne!(input_key(&first[..256]), input_key(&first[..512]));
    assert_ne!(input_key(&first[..256]), input_key(&second[..256]));
}

#[test]
fn bulk_numerator_admission_boundary_is_pinned() {
    assert_eq!(MIN_METAL_NUMERATOR_LOG_SIZE, 14);
    assert!(!should_use_metal_numerators(13));
    assert!(should_use_metal_numerators(14));
    assert!(should_use_metal_numerators(20));
}

#[test]
fn malformed_work_is_declined() {
    let column = seeded_column(12, 101);
    let malformed = NumeratorBatch {
        columns: vec![column.as_slice()],
        coeffs: vec![],
        neg_b_sum: QM31::default(),
        n_rows: column.len(),
    };
    assert!(accumulate_numerators_metal(&vec![malformed])
        .expect("malformed work must be a pre-submit decline")
        .is_none());
}

#[test]
fn passes_take_sixteen_columns_each() {
    let column = seeded_column(8, 4);
    let batch = NumeratorBatch {
        columns: vec![column.as_slice(); 20],
        coeffs: (0..20).map(|c| coefficient(0, c)).collect(),
        neg_b_sum: QM31::from_u32_unchecked(1, 2, 3, 4),
        n_rows: 256,
    };
    let first = dispatch_params(&batch, 0);
    let second = dispatch_params(&batch, 1);
    assert_eq!((first.n_rows, first.n_cols), (256, 16));
    assert_eq!((second.n_rows, second.n_cols), (256, 4));
    assert_eq!(first.init_acc, [1, 2, 3, 4]);
    assert_eq!(first.coeffs[..4], [1, 3, 5, 7]);
}

#[test]
fn commands_that_did_not_complete_are_final() {
    let column = seeded_column(14, 1);
    let storage = [column];
    let batches = batches_for_shapes(&storage, &[(14, &[17, 2])]);
    for status in [CommandStatus::Error, CommandStatus::Scheduled] {
        let Err(QuotientMetalError::NumeratorCommandFailed {
            status: reported,
            batch_count,
            dispatch_count,
        }) = settle_numerators(&batches, status)
        else {
            panic!("a failed command is an error")
        };
        assert_eq!((reported, batch_count, dispatch_count), (status, 2, 3));
    }
    assert!(settle_numerators(&batches, CommandStatus::Completed).unwrap().is_some());
    assert!(settle_numerators(&vec![], CommandStatus::Error).unwrap().is_none());
}

#[test]
fn inputs_are_bound_once_in_order_of_first_use() {
    let keys = vec![(7, 4), (3, 4), (7, 4), (7, 2), (3, 4)];
    let (distinct, index) = deduplicate_inputs(&keys);
    assert_eq!(distinct, vec![(7, 4), (3, 4), (7, 2)]);
    assert_eq!(index, vec![0, 1, 0, 2, 1]);
}
