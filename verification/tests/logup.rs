//! Lookup columns.

use stwo::fields::m31::{M31, P};
use stwo::fields::qm31::QM31;
use stwo::fields::Field;
use stwo::framework::logup::{LogupPole, LogupTraceGenerator};
use stwo::framework::packed::{PackedSecureField, LOG_N_LANES, N_LANES};
use stwo::framework::rows::coset_row_index;
use stwo::poly::circle_poly::CircleEvaluation;

fn q(a: u32, b: u32, c: u32, d: u32) -> QM31 {
    QM31::from_u32_unchecked(a, b, c, d)
}

#[test]
fn test_frac_writer() {
    let expected_sum = q(1, 2, 3, 4).mul(q(5, 6, 7, 8).inverse()).mul_m31(M31(1 << 6));

    let mut log_gen = LogupTraceGenerator::new(6);
    let mut col_gen = log_gen.new_col();
    for vec_row in 0..1 << (6 - LOG_N_LANES) {
        let num = PackedSecureField::broadcast(q(1, 2, 3, 4));
        let den = PackedSecureField::broadcast(q(5, 6, 7, 8));
        assert!(col_gen.writer(vec_row).write_frac(num, den).is_ok());
    }

    col_gen.finalize_col();
    let (_, sum) = log_gen.finalize_last();
    assert_eq!(sum, expected_sum);
}

#[test]
fn test_col_from_iter() {
    let log_size = 8;
    let expected_sum = q(1, 2, 3, 4).mul(q(5, 6, 7, 8).inverse()).mul_m31(M31(1 << log_size));

    let mut log_gen = LogupTraceGenerator::new(log_size);
    let fracs = (0..1 << (log_size - LOG_N_LANES))
        .map(|_| {
            let num = PackedSecureField::broadcast(q(1, 2, 3, 4));
            let den = PackedSecureField::broadcast(q(5, 6, 7, 8));
            (num, den)
        })
        .collect();
    assert!(log_gen.col_from_iter(fracs).is_ok());

    let (_, sum) = log_gen.finalize_last();
    assert_eq!(sum, expected_sum);
}

fn denominator_with_one_zero_lane(zero: QM31) -> PackedSecureField {
    let mut lanes = [QM31::zero(); 16];
    for (lane, slot) in lanes.iter_mut().enumerate() {
        *slot = q(lane as u32 + 1, lane as u32 + 2, lane as u32 + 3, lane as u32 + 4);
    }
    lanes[N_LANES / 2] = zero;
    PackedSecureField::from_array(lanes)
}

fn single_fraction_rejects(denominator: PackedSecureField) -> bool {
    let mut generator = LogupTraceGenerator::new(LOG_N_LANES);
    generator.col_from_iter(vec![(PackedSecureField::broadcast(q(1, 2, 3, 4)), denominator)])
        == Err(LogupPole)
}

#[test]
fn test_one_zero_denominator_lane_amid_nonzero_lanes_is_rejected() {
    assert!(single_fraction_rejects(denominator_with_one_zero_lane(QM31::zero())));
}

#[test]
fn test_every_raw_zero_coordinate_variant_is_rejected() {
    // Both 0 and P are raw representatives of zero. Every one of the 2^4 coordinate combinations
    // below is therefore a pole.
    for p_mask in 0_u32..1 << 4 {
        let raw = |coordinate: u32| {
            if p_mask & (1 << coordinate) == 0 {
                0
            } else {
                P
            }
        };
        let zero = QM31::from_u32_unchecked(raw(0), raw(1), raw(2), raw(3));
        assert!(
            single_fraction_rejects(denominator_with_one_zero_lane(zero)),
            "raw P mask {p_mask:#06b} was accepted"
        );
    }
}

#[test]
fn test_cols_from_fn_rejects_a_zero_denominator_lane() {
    let mut generator = LogupTraceGenerator::new(LOG_N_LANES);
    let result = generator.cols_from_fn(1, |_: usize, _: usize| {
        (
            PackedSecureField::broadcast(q(1, 2, 3, 4)),
            denominator_with_one_zero_lane(q(P, 0, P, 0)),
        )
    });
    assert!(result.is_err());
}

#[test]
fn every_writer_rejects_a_pole() {
    let numerator = PackedSecureField::broadcast(q(1, 2, 3, 4));
    let pole = denominator_with_one_zero_lane(q(P, P, 0, 0));
    let mut generator = LogupTraceGenerator::new(LOG_N_LANES);
    let mut column = generator.new_col();
    assert_eq!(column.write_frac(0, numerator, pole), Err(LogupPole));
    assert_eq!(column.writer(0).write_frac(numerator, pole), Err(LogupPole));
    let fine = PackedSecureField::broadcast(q(1, 0, 0, 0));
    assert_eq!(column.write_frac(0, numerator, fine), Ok(()));
}

fn mul(a: PackedSecureField, b: PackedSecureField) -> PackedSecureField {
    let mut lanes = a.0;
    for (lane, slot) in lanes.iter_mut().enumerate() {
        *slot = slot.mul(b.0[lane]);
    }
    PackedSecureField::from_array(lanes)
}

fn add(a: PackedSecureField, b: PackedSecureField) -> PackedSecureField {
    let mut lanes = a.0;
    for (lane, slot) in lanes.iter_mut().enumerate() {
        *slot = slot.add(b.0[lane]);
    }
    PackedSecureField::from_array(lanes)
}

fn assert_same_trace(a: &[CircleEvaluation], b: &[CircleEvaluation], case: &str) {
    assert_eq!(a.len(), b.len());
    for (left, right) in a.iter().zip(b) {
        assert_eq!(left.domain, right.domain);
        assert_eq!(left.values, right.values, "{case}");
    }
}

fn entry_fraction(entry: usize, vec_row: usize) -> (PackedSecureField, PackedSecureField) {
    let mut numerator = [QM31::zero(); 16];
    let mut denominator = [QM31::zero(); 16];
    for lane in 0..16 {
        let raw_zero = if (entry + vec_row + lane) % 31 == 0 { P } else { 0 };
        numerator[lane] = q(
            raw_zero,
            (entry * 17 + vec_row * 11 + lane + 2) as u32,
            (entry * 13 + vec_row * 3 + lane + 3) as u32,
            (entry * 5 + vec_row * 19 + lane + 4) as u32,
        );
        // A non-zero real coordinate makes every lane's denominator non-zero.
        denominator[lane] = q(
            (entry * 97 + vec_row * 23 + lane + 5) as u32,
            (entry * 29 + vec_row * 31 + lane + 6) as u32,
            (entry * 37 + vec_row * 41 + lane + 7) as u32,
            (entry * 43 + vec_row * 47 + lane + 8) as u32,
        );
    }
    (PackedSecureField::from_array(numerator), PackedSecureField::from_array(denominator))
}

fn batched_fraction(
    entry_count: usize,
    batch: usize,
    output_col: usize,
    vec_row: usize,
) -> (PackedSecureField, PackedSecureField) {
    let first = output_col * batch;
    let (n0, d0) = entry_fraction(first, vec_row);
    if batch == 1 || first + 1 == entry_count {
        (n0, d0)
    } else {
        let (n1, d1) = entry_fraction(first + 1, vec_row);
        (add(mul(n0, d1), mul(n1, d0)), mul(d0, d1))
    }
}

#[test]
fn test_cols_from_fn_matches_legacy_batching_for_odd_and_even_entry_counts() {
    let log_size = 14;
    let packed_len = 1 << (log_size - LOG_N_LANES);
    for (batch, entry_count) in [(1_usize, 3_usize), (1, 4), (2, 3), (2, 4)] {
        let output_cols = entry_count.div_ceil(batch);

        let mut legacy = LogupTraceGenerator::new(log_size);
        for output_col in 0..output_cols {
            let mut col = legacy.new_col();
            for vec_row in 0..packed_len {
                let (numerator, denominator) =
                    batched_fraction(entry_count, batch, output_col, vec_row);
                assert!(col.write_frac(vec_row, numerator, denominator).is_ok());
            }
            col.finalize_col();
        }
        let (legacy_trace, legacy_sum) = legacy.finalize_last();

        let mut fused = LogupTraceGenerator::new(log_size);
        assert!(fused
            .cols_from_fn(output_cols, |output_col: usize, vec_row: usize| {
                batched_fraction(entry_count, batch, output_col, vec_row)
            })
            .is_ok());
        let (fused_trace, fused_sum) = fused.finalize_last();

        assert_eq!(legacy_sum, fused_sum, "batch={batch}, entry_count={entry_count}");
        assert_eq!(legacy_trace.len(), fused_trace.len());
        for (legacy_col, fused_col) in legacy_trace.iter().zip(&fused_trace) {
            assert_eq!(legacy_col.domain, fused_col.domain);
            assert_eq!(
                legacy_col.values, fused_col.values,
                "batch={batch}, entry_count={entry_count}"
            );
        }
    }
}

fn pseudo_random_word(mut state: u64) -> u32 {
    state ^= state >> 30;
    state = state.wrapping_mul(0xbf58_476d_1ce4_e5b9);
    state ^= state >> 27;
    state = state.wrapping_mul(0x94d0_49bb_1331_11eb);
    ((state ^ (state >> 31)) % P as u64) as u32
}

fn randomized_fraction(
    seed: u64,
    output_col: usize,
    vec_row: usize,
) -> (PackedSecureField, PackedSecureField) {
    let lane_values = |is_denominator: bool| {
        let mut lanes = [QM31::zero(); 16];
        for (lane, slot) in lanes.iter_mut().enumerate() {
            let mut coordinates = [0u32; 4];
            for (coordinate, word) in coordinates.iter_mut().enumerate() {
                let key = seed
                    ^ ((output_col as u64) << 48)
                    ^ ((vec_row as u64) << 16)
                    ^ ((lane as u64) << 8)
                    ^ coordinate as u64;
                *word = if (key.wrapping_mul(0x9e37_79b9) & 7) == 0 {
                    P
                } else {
                    pseudo_random_word(key)
                };
            }
            if is_denominator {
                coordinates[3] = pseudo_random_word(
                    seed ^ (output_col as u64) ^ (vec_row as u64) ^ lane as u64,
                ) % (P - 1)
                    + 1;
            }
            *slot = q(coordinates[0], coordinates[1], coordinates[2], coordinates[3]);
        }
        PackedSecureField::from_array(lanes)
    };
    (lane_values(false), lane_values(true))
}

#[test]
fn test_cols_from_fn_randomized_raw_parity_across_full_and_partial_bands() {
    let mut state = 0x5e71_5eed_cafe_f00d_u64;
    for log_size in [8_u32, 12, 13, 14] {
        for round in 0..3_u64 {
            state = state.wrapping_mul(6364136223846793005).wrapping_add(round + 1);
            let n_cols = (pseudo_random_word(state) % 10 + 1) as usize;
            let seed = state;
            let packed_len = 1 << (log_size - LOG_N_LANES);

            let mut legacy = LogupTraceGenerator::new(log_size);
            for output_col in 0..n_cols {
                let fracs = (0..packed_len)
                    .map(|vec_row| randomized_fraction(seed, output_col, vec_row))
                    .collect();
                assert!(legacy.col_from_iter(fracs).is_ok());
            }
            let (legacy_trace, legacy_sum) = legacy.finalize_last();

            let mut fused = LogupTraceGenerator::new(log_size);
            assert!(fused
                .cols_from_fn(n_cols, |output_col: usize, vec_row: usize| {
                    randomized_fraction(seed, output_col, vec_row)
                })
                .is_ok());
            let (fused_trace, fused_sum) = fused.finalize_last();

            assert_eq!(
                legacy_sum, fused_sum,
                "raw claimed-sum mismatch: log_size={log_size}, n_cols={n_cols}, seed={seed:#x}"
            );
            let case = format!("log_size={log_size}, n_cols={n_cols}, seed={seed:#x}");
            assert_same_trace(&legacy_trace, &fused_trace, &case);
        }
    }
}

#[test]
fn the_last_column_steps_by_the_rows_all_the_way_round() {
    let log_size = 6;
    let n = 1usize << log_size;
    let mut generator = LogupTraceGenerator::new(log_size);
    let fracs: Vec<_> = (0..n / 16).map(|vec_row| entry_fraction(1, vec_row)).collect();
    let plain: Vec<QM31> = (0..n)
        .map(|row| {
            let (num, den) = entry_fraction(1, row / 16);
            num.0[row % 16].mul(den.0[row % 16].inverse())
        })
        .collect();
    assert!(generator.col_from_iter(fracs).is_ok());
    let (trace, sum) = generator.finalize_last();
    assert_eq!(trace.len(), 4);
    let mut total = QM31::zero();
    for value in &plain {
        total = total.add(*value);
    }
    assert_eq!(sum, total);
    let shift = sum.mul_m31(M31(n as u32).inverse());
    let at = |i: usize| {
        let row = coset_row_index(i % n, log_size);
        QM31::from_m31(
            trace[0].values[row],
            trace[1].values[row],
            trace[2].values[row],
            trace[3].values[row],
        )
    };
    for i in 0..n {
        let grown = at(i).sub(at(i + n - 1)).add(shift);
        assert_eq!(grown, plain[coset_row_index(i, log_size)].canonical());
    }
    assert_eq!(at(n - 1), QM31::zero());
}

#[test]
fn test_col_from_par_iter() {
    let log_size = 8;
    let expected_sum = q(1, 2, 3, 4).mul(q(5, 6, 7, 8).inverse()).mul_m31(M31(1 << log_size));

    let mut log_gen = LogupTraceGenerator::new(log_size);
    let frac_at = |_vec_row: usize| {
        let num = PackedSecureField::broadcast(q(1, 2, 3, 4));
        let den = PackedSecureField::broadcast(q(5, 6, 7, 8));
        (num, den)
    };
    assert!(log_gen.col_from_par_iter(frac_at).is_ok());

    let (_, sum) = log_gen.finalize_last();
    assert_eq!(sum, expected_sum);
}

#[test]
fn parallel_fractions_keep_their_rows() {
    let frac_at = |row: usize| randomized_fraction(7, 0, row);
    let mut parallel = LogupTraceGenerator::new(9);
    assert!(parallel.col_from_par_iter(frac_at).is_ok());
    let mut sequential = LogupTraceGenerator::uninitialized(9);
    assert_eq!(sequential.log_size(), 9);
    assert!(sequential.col_from_iter((0..1 << (9 - LOG_N_LANES)).map(frac_at).collect()).is_ok());
    let (parallel_trace, parallel_sum) = parallel.finalize_last();
    let (sequential_trace, sequential_sum) = sequential.finalize_last();
    assert_eq!(parallel_sum, sequential_sum);
    assert_same_trace(&parallel_trace, &sequential_trace, "log_size=9");
}
