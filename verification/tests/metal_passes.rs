//! Hashing, transforms, folds, twiddles and constraints in device passes.

use stwo::fields::m31::M31;
use stwo::fields::qm31::QM31;
use stwo::fields::Field;
use stwo::fri::{fold_circle_into_line_cpu, fold_line};
use stwo::line::{LineDomain, LineEvaluation};
use stwo::metal::blake2s::{
    absorb_plan, build_layers_metal, build_leaves_metal, build_next_layer_metal,
    build_packed_tree_metal, compact_leaves, layer_sizes, plan_compact, CHUNK_COLS,
    MIN_METAL_LOG_SIZE,
};
use stwo::metal::commit::commit_polynomials_metal;
use stwo::metal::constraints::{
    accumulate_constraints_metal, constraint_params, power_words,
};
use stwo::metal::fft::{
    fused_transform_metal, ifft_batch_metal, ifft_metal, ifft_passes, pack_twiddles, pass_split,
    repack_column, rfft_metal, rfft_passes, unpack_column,
};
use stwo::metal::fri::{fold_line_chain_and_packed_tree_metal, fold_metal, fold_params};
use stwo::metal::twiddles::{layer_passes, point_by_doubling, precompute_twiddles_metal};
use stwo::poly::circle_poly::{CircleCoefficients, CircleEvaluation, EvalsOrCoeffs};
use stwo::poly::domain::CanonicCoset;
use stwo::poly::extension::{evaluate, interpolate};
use stwo::poly::twiddles::{precompute_twiddles, TwiddleTree};
use stwo::secure_column::{SecureColumnByCoords, SecureEvaluation};
use stwo::vcs::blake2s::{blake2s_words, Blake2sHash, Blake2sMerkleHasherGeneric};
use stwo::vcs::merkle::{build_layers, build_leaves, build_next_layer};
use stwo::vcs::prover::MerkleProverLifted;

fn test_columns(n_cols: usize, log_rows: u32) -> Vec<Vec<M31>> {
    (0..n_cols)
        .map(|c| {
            (0..1u32 << log_rows)
                .map(|i| M31((i.wrapping_mul(2654435761).wrapping_add(c as u32 * 97)) >> 1))
                .collect()
        })
        .collect()
}

fn metal_leaves_match_simd_reference(n_cols: usize, log_rows: u32) {
    let columns = test_columns(n_cols, log_rows);
    let refs: Vec<&Vec<M31>> = columns.iter().collect();
    let gpu = build_leaves_metal::<false>(&refs, log_rows).unwrap();
    let reference = build_leaves::<Blake2sMerkleHasherGeneric<false>>(&refs, log_rows);
    assert_eq!(gpu, reference, "n_cols {n_cols}");
    let gpu = build_leaves_metal::<true>(&refs, log_rows).unwrap();
    let reference = build_leaves::<Blake2sMerkleHasherGeneric<true>>(&refs, log_rows);
    assert_eq!(gpu, reference, "n_cols {n_cols}");
    // Each leaf is the digest of its row.
    for row in [0usize, 5, (1 << log_rows) - 1] {
        let words: Vec<M31> = columns.iter().map(|c| c[row]).collect();
        assert_eq!(gpu[row], blake2s_words(&words, true));
    }
}

#[test]
fn metal_one_chunk_leaves_match_simd_reference() {
    for n_cols in [4, CHUNK_COLS] {
        metal_leaves_match_simd_reference(n_cols, 8);
    }
}

#[test]
fn metal_multiple_chunk_leaves_match_simd_reference() {
    for n_cols in [CHUNK_COLS + 1, 104] {
        metal_leaves_match_simd_reference(n_cols, 8);
    }
}

fn compact_columns(logs: &[u32]) -> Vec<Vec<M31>> {
    logs.iter()
        .enumerate()
        .map(|(column, &log)| {
            (0..1u32 << log)
                .map(|row| M31(row.wrapping_mul(2654435761).wrapping_add(column as u32 * 97) >> 1))
                .collect()
        })
        .collect()
}

fn assert_compact_tree_matches_reference<const IS_M31: bool>(logs: &Vec<u32>, lifting_log: u32) {
    let columns = compact_columns(logs);
    let refs: Vec<&Vec<M31>> = columns.iter().collect();
    let leaves = compact_leaves::<IS_M31>(&refs, logs, lifting_log)
        .expect("strict compact Metal encoding must succeed");
    let gpu = build_layers::<Blake2sMerkleHasherGeneric<IS_M31>>(leaves, lifting_log);
    let leaves = build_leaves::<Blake2sMerkleHasherGeneric<IS_M31>>(&refs, lifting_log);
    let reference = build_layers::<Blake2sMerkleHasherGeneric<IS_M31>>(leaves, lifting_log);
    assert_eq!(gpu, reference, "mixed tree differs, is_m31={IS_M31}");
}

#[test]
fn metal_compact_mixed_tree_matches_simd_reference() {
    // The first block exercises lifted-index ratios 4, 3, 1, and 0; the following blocks add ratio
    // 2 and a distinct final state lift.
    let logs = [vec![10; 3], vec![11; 3], vec![13; 3], vec![14; 11], vec![16; 13]].concat();
    assert_compact_tree_matches_reference::<false>(&logs, 18);
    let small: Vec<u32> = logs.iter().map(|log| log - 6).collect();
    assert_compact_tree_matches_reference::<true>(&small, 12);
}

#[test]
fn metal_compact_full_final_block_matches_simd_reference() {
    let logs = [vec![12; 16], vec![16; 16]].concat();
    assert_compact_tree_matches_reference::<true>(&logs, 18);
}

#[test]
fn metal_compact_rejects_invalid_layouts() {
    let columns = test_columns(2, 12);
    let lens: Vec<usize> = columns.iter().map(Vec::len).collect();
    assert!(plan_compact(&lens, &vec![13], 14).is_none());
    assert!(plan_compact(&lens, &vec![13, 12], 14).is_none());
    assert!(plan_compact(&lens, &vec![12, 15], 14).is_none());
    // Declared logs must exactly describe the bound columns.
    assert!(plan_compact(&lens, &vec![11, 12], 14).is_none());
    assert!(plan_compact(&lens, &vec![12, 12], 32).is_none());
    assert!(plan_compact(&vec![], &vec![], 14).is_none());
    let stages = plan_compact(&lens, &vec![12, 12], 14).unwrap();
    assert_eq!(stages.len(), 1);
    assert_eq!((stages[0].n_rows, stages[0].n_cols, stages[0].mode), (1 << 14, 2, 3));
    assert_eq!(stages[0].column_logs[..3], [12, 12, 14]);
}

#[test]
fn metal_next_layer_matches_simd_reference() {
    let leaves: Vec<Blake2sHash> =
        (0..1u32 << (MIN_METAL_LOG_SIZE + 1)).map(|i| Blake2sHash([i; 8])).collect();
    let gpu = build_next_layer_metal::<true>(&leaves).unwrap();
    assert_eq!(gpu, build_next_layer::<Blake2sMerkleHasherGeneric<true>>(&leaves));
    assert!(build_next_layer_metal::<true>(&gpu).is_none());
    let layers = build_layers_metal::<true>(leaves, 5).unwrap();
    assert_eq!(layers.len(), 2);
    assert_eq!(layers[1], gpu);
    assert_eq!(build_layers_metal::<true>(gpu.clone(), 5), Err(gpu));
}

#[test]
fn layers_are_planned_down_to_the_threshold() {
    assert_eq!(layer_sizes(1 << 20, 10), vec![1 << 19, 1 << 18, 1 << 17]);
    assert_eq!(layer_sizes(1 << 20, 2), vec![1 << 19, 1 << 18]);
    assert!(layer_sizes(1 << 17, 10).is_empty());
    let plan = absorb_plan(8, 33, true);
    assert_eq!(plan.len(), 3);
    assert_eq!((plan[0].mode, plan[1].mode, plan[2].mode), (1, 0, 2));
    assert_eq!((plan[2].n_cols, plan[2].byte_count_base), (1, 128));
    assert_eq!(absorb_plan(8, 16, false)[0].mode, 3);
}

#[test]
fn packed_leaves_take_four_rows_of_all_coordinates() {
    let log_leaves = 17;
    let columns = test_columns(4, log_leaves + 2);
    let mut columns = columns.into_iter();
    let mut next = || columns.next().unwrap();
    let coords = [next(), next(), next(), next()];
    let layers = build_packed_tree_metal::<false>(&coords, log_leaves).unwrap();
    assert_eq!(layers.len(), 1);
    for leaf in [0usize, 77, (1 << log_leaves) - 1] {
        let words: Vec<M31> = (0..16).map(|c| coords[c % 4][4 * leaf + c / 4]).collect();
        assert_eq!(layers[0][leaf], blake2s_words(&words, false));
    }
    let short = [vec![M31(0); 8], vec![M31(0); 8], vec![M31(0); 8], vec![M31(0); 8]];
    assert!(build_packed_tree_metal::<false>(&short, 1).is_none());
}

#[test]
fn passes_split_the_layers_in_order() {
    assert_eq!(pass_split(14), vec![(0, 13), (13, 1)]);
    assert_eq!(pass_split(22), vec![(0, 13), (13, 8), (21, 1)]);
    assert_eq!(pass_split(5), vec![(0, 5)]);
    let offsets: Vec<u32> = (0..22).map(|i| 100 + i).collect();
    let up = ifft_passes(22, &offsets);
    assert_eq!(up.len(), 3);
    assert_eq!((up[0].0.c_log, up[1].0.c_log, up[2].0.c_log), (0, 5, 12));
    assert_eq!((up[0].0.scale, up[1].0.scale), (1, 1));
    assert_eq!(M31(up[2].0.scale).mul(M31(1 << 22)), M31::one());
    assert_eq!(up[1].0.twiddle_offsets[..3], [113, 114, 115]);
    assert_eq!((up[0].1, up[1].1, up[2].1), (1 << 9, 1 << 9, 1 << 9));
    let down = rfft_passes(22, 1 << 20, &offsets);
    assert_eq!((down[0].0.i0, down[0].0.src_len), (21, 1 << 20));
    assert_eq!((down[2].0.i0, down[2].0.src_len), (0, 0));
    assert_eq!((down[0].0.descending, down[0].0.inverse), (1, 0));
}

fn canonic_twiddles(log_size: u32) -> TwiddleTree {
    precompute_twiddles(CanonicCoset::new(log_size).circle_domain().half_coset)
}

#[test]
fn packed_twiddles_hold_every_layer() {
    let twiddles = canonic_twiddles(6);
    let domain = CanonicCoset::new(5).circle_domain();
    let packed = pack_twiddles(domain, &twiddles.twiddles);
    assert_eq!(packed.layer_offsets, vec![0, 16, 24, 28, 30]);
    assert_eq!(packed.packed.len(), 31);
    // The circle layer holds the second coordinates, the line layers the first ones.
    assert_eq!(packed.packed[0], domain.at(0).y.0);
    assert_eq!(packed.packed[16], domain.at(0).x.0);
    assert_eq!(packed.packed[30], domain.half_coset.repeated_double(3).at(0).x.0);
}

#[test]
fn large_transforms_are_those_of_the_library() {
    let twiddles = canonic_twiddles(15);
    let domain = CanonicCoset::new(14).circle_domain();
    let values: Vec<M31> = (0..1u32 << 14).map(|i| M31(i * 3 + 1)).collect();
    let eval = || CircleEvaluation::new(domain, values.clone());
    let coeffs = interpolate(eval(), &twiddles);
    let Ok(fast) = ifft_metal(eval(), &twiddles) else { panic!("a large column") };
    assert_eq!(fast.coeffs, coeffs.coeffs);
    let Ok(batch) = ifft_batch_metal(vec![eval(), eval()], &twiddles) else {
        panic!("large columns")
    };
    assert_eq!(batch[1].coeffs, coeffs.coeffs);
    let ext = CanonicCoset::new(15).circle_domain();
    let Ok(evals) = rfft_metal(&coeffs, ext, &twiddles, vec![M31(0); 1 << 15]) else {
        panic!("a large domain")
    };
    assert_eq!(evals.values, evaluate(&coeffs, ext, &twiddles).values);
    // Small ones go back.
    let small = CanonicCoset::new(5).circle_domain();
    let Err(same) =
        ifft_metal(CircleEvaluation::new(small, vec![M31(4); 32]), &twiddles)
    else {
        panic!("a small column")
    };
    assert_eq!(same.values, vec![M31(4); 32]);
    let p = CircleCoefficients::new(vec![M31(1); 32]);
    assert!(rfft_metal(&p, small, &twiddles, vec![M31(0); 32]).is_err());
}

#[test]
fn columns_are_made_ready_and_put_back() {
    let domain = CanonicCoset::new(5).circle_domain();
    let column = EvalsOrCoeffs::Evals(CircleEvaluation::new(domain, vec![M31(7); 32]));
    let work = unpack_column(column, 2);
    assert!(work.needs_ifft);
    assert_eq!(work.ext_size, 128);
    let EvalsOrCoeffs::Evals(evals) = repack_column(work) else { panic!("an evaluation") };
    assert_eq!((evals.domain, evals.values), (domain, vec![M31(7); 32]));
    let column = EvalsOrCoeffs::Coeffs(CircleCoefficients::new(vec![M31(9); 16]));
    let work = unpack_column(column, 1);
    assert!(!work.needs_ifft);
    let EvalsOrCoeffs::Coeffs(coeffs) = repack_column(work) else { panic!("coefficients") };
    assert_eq!(coeffs.coeffs, vec![M31(9); 16]);
}

fn large_columns(logs: &[u32]) -> Vec<EvalsOrCoeffs> {
    logs.iter()
        .enumerate()
        .map(|(c, &log)| {
            let domain = CanonicCoset::new(log).circle_domain();
            let values = (0..1u32 << log).map(|i| M31(i * 5 + c as u32)).collect();
            EvalsOrCoeffs::Evals(CircleEvaluation::new(domain, values))
        })
        .collect()
}

#[test]
fn commitments_in_passes_are_those_of_the_tree() {
    let twiddles = canonic_twiddles(17);
    let logs = [15u32, 14, 15];
    let Ok((polys, layers)) =
        commit_polynomials_metal::<true>(large_columns(&logs), 1, &twiddles, true, Some(17))
    else {
        panic!("large columns are accepted")
    };
    let Ok(direct) = fused_transform_metal(large_columns(&logs), 1, &twiddles, true) else {
        panic!("large columns are accepted")
    };
    for (a, b) in polys.iter().zip(&direct) {
        assert_eq!(a.evals.values, b.evals.values);
    }
    let values: Vec<&Vec<M31>> = polys.iter().map(|p| &p.evals.values).collect();
    let tree =
        MerkleProverLifted::<Blake2sMerkleHasherGeneric<true>>::commit(&values, 17, None);
    let layers = layers.unwrap();
    assert_eq!(layers.len(), 18);
    assert_eq!(layers[17][0], tree.root());
    assert_eq!(&layers[0], tree.layers.last().unwrap());
}

#[test]
fn unfit_columns_are_declined() {
    let twiddles = canonic_twiddles(16);
    let commit = |logs: &[u32], lifting| {
        commit_polynomials_metal::<false>(large_columns(logs), 1, &twiddles, false, lifting)
    };
    assert!(commit(&[], None).is_err());
    assert!(commit(&[5, 6], None).is_err());
    assert!(commit(&[14, 6], None).is_err());
    let Err(columns) = commit(&[14, 15], Some(15)) else { panic!("a tree too small") };
    assert_eq!(columns.len(), 2);
    assert!(commit(&[14], None).is_ok());
}

fn secure_values(n: usize) -> SecureColumnByCoords {
    let mut column = SecureColumnByCoords::new_empty();
    for i in 0..n as u32 {
        column.push(QM31::from_u32_unchecked(i, 2 * i + 1, 3 * i + 2, 7));
    }
    column
}

#[test]
fn folds_in_passes_are_those_of_the_library() {
    let alpha = QM31::from_u32_unchecked(3, 1, 4, 1);
    let domain = CanonicCoset::new(17).circle_domain();
    let circle = fold_metal(&secure_values(1 << 17), domain.half_coset, 16, true, alpha).unwrap();
    let evals = SecureEvaluation::new(domain, secure_values(1 << 17));
    assert_eq!(circle.columns, fold_circle_into_line_cpu(&evals, alpha).values.columns);
    assert!(fold_metal(&secure_values(32), CanonicCoset::new(5).circle_domain().half_coset, 4, true, alpha)
        .is_none());
    let params = fold_params(&domain.half_coset, 16, true, alpha);
    assert_eq!(params.alpha, [3, 1, 4, 1, 0, 0, 0, 0]);
    assert_eq!((params.coord_is_y, params.half_log), (1, 16));

    let coset = CanonicCoset::new(18).circle_domain().half_coset;
    let (chained, tree) = fold_line_chain_and_packed_tree_metal::<false>(
        secure_values(1 << 17),
        coset,
        &[alpha],
    )
    .unwrap();
    let line = LineEvaluation {
        domain: LineDomain::new(coset),
        values: secure_values(1 << 17),
    };
    assert_eq!(chained.columns, fold_line(&line, &[alpha]).values.columns);
    assert!(tree.is_none());
    assert!(fold_line_chain_and_packed_tree_metal::<false>(secure_values(1 << 17), coset, &[])
        .is_none());
    assert!(fold_line_chain_and_packed_tree_metal::<false>(
        secure_values(1 << 17),
        coset,
        &[alpha, alpha]
    )
    .is_none());
}

#[test]
fn twiddles_in_passes_are_those_of_the_library() {
    let coset = CanonicCoset::new(17).circle_domain().half_coset;
    let tree = precompute_twiddles_metal(coset).unwrap();
    assert_eq!(tree.twiddles, precompute_twiddles(coset).twiddles);
    assert!(precompute_twiddles_metal(CanonicCoset::new(16).circle_domain().half_coset).is_none());
    for k in [0u32, 1, 5, 4000] {
        assert_eq!(point_by_doubling(coset, k), coset.at(k as usize));
    }
    let passes = layer_passes(coset);
    assert_eq!(passes.len(), 16);
    assert_eq!((passes[0].layer_log, passes[0].out_offset), (15, 0));
    assert_eq!((passes[1].layer_log, passes[1].out_offset), (14, 1 << 15));
    assert_eq!(passes[1].initial_x, coset.double().at(0).x.0);
}

#[test]
fn constraint_rows_are_weighed_and_divided() {
    let params = constraint_params(&vec![2, 3, 4], 16, 3);
    assert_eq!(params.interaction_base, [0, 2, 5, 0]);
    let powers = [QM31::from_u32_unchecked(1, 2, 3, 4), QM31::from_u32_unchecked(5, 6, 7, 8)];
    assert_eq!(power_words(&powers), vec![1, 2, 3, 4, 5, 6, 7, 8]);
    let values: Vec<Vec<M31>> = (0..16u32).map(|row| vec![M31(row), M31(row * row)]).collect();
    let denom_inv = [M31(3), M31(11)];
    let accum = secure_values(16);
    let after = accumulate_constraints_metal(&values, &powers, &denom_inv, &accum, 3);
    for row in 0..16 {
        let sum = powers[0].mul_m31(values[row][0]).add(powers[1].mul_m31(values[row][1]));
        let expected = accum.at(row).add(sum.mul_m31(denom_inv[row >> 3]));
        assert_eq!(after.at(row), expected);
    }
}

#[test]
fn passes_tile_any_number_of_layers() {
    assert!(pass_split(0).is_empty());
    for n_log in [13u32, 64, 65, 100, 1000] {
        let passes = pass_split(n_log);
        let mut next = 0;
        for (k, (first, layers)) in passes.iter().enumerate() {
            assert_eq!(*first, next);
            assert!(*layers >= 1 && *layers <= if k == 0 { 13 } else { 8 });
            next += layers;
        }
        assert_eq!(next, n_log);
    }
    assert_eq!(pass_split(100).len(), 12);
}
