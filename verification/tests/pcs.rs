//! The commitment scheme.

use stwo::circle::{secure_field_circle_gen, CirclePoint};
use stwo::fields::m31::{M31, P};
use stwo::fields::qm31::QM31;
use stwo::pcs::channel::Channel;
use stwo::pcs::config::{FriConfig, PcsConfig};
use stwo::pcs::openings::{
    prepare_preprocessed_query_positions, sort_positions, FriOutcome,
};
use stwo::pcs::groups::sample_key;
use stwo::pcs::resident::{batch_evaluation_samples_resident, resident_barycentric_min_log_size};
use stwo::pcs::samples::{batch_evaluation_samples, build_map};
use stwo::pcs::scheme::CommitmentSchemeProver;
use stwo::pcs::transcript::Blake2sChannel;
use stwo::pcs::weights::WeightsHashMap;
use stwo::pcs::tree::CommitmentTreeProver;
use stwo::pcs::trees::MaybeOwned;
use stwo::poly::barycentric::{barycentric_eval_at_point, barycentric_weights};
use stwo::poly::circle_poly::{CircleCoefficients, CircleEvaluation, EvalsOrCoeffs, Poly};
use stwo::poly::domain::CanonicCoset;
use stwo::poly::eval::{eval_at_point, eval_basis_at_point};
use stwo::poly::extension::evaluate;
use stwo::poly::pool::BaseColumnPool;
use stwo::poly::twiddles::{precompute_twiddles, TwiddleTree};
use stwo::vcs::blake2s::{Blake2sHash, Blake2sM31MerkleHasher, Blake2sMerkleHasher};
use stwo::vcs::hasher::MerkleHasherLifted;

#[test]
fn test_security_bits() {
    let config = PcsConfig {
        pow_bits: 42,
        fri_config: FriConfig::new(10, 10, 70, 1),
        lifting_log_size: None,
        ..Default::default()
    };
    assert!(config.security_bits() == 10 * 70 + 42);
}

fn test_poly(log_size: u32, seed: u32) -> Poly {
    let domain = CanonicCoset::new(log_size).circle_domain();
    let values = (0..1 << log_size)
        .map(|i| match i {
            0 => M31(0),
            1 => M31(P),
            _ => M31::from_u32((i as u32).wrapping_mul(17).wrapping_add(seed)),
        })
        .collect();
    Poly::new(None, CircleEvaluation::new(domain, values))
}

#[test]
fn grouped_evaluation_samples_match_legacy_in_canonical_order() {
    const LIFTING_LOG_SIZE: u32 = 6;
    let owned = vec![
        vec![test_poly(5, 1), test_poly(6, 2), test_poly(5, 3)],
        vec![test_poly(6, 4), test_poly(5, 5)],
    ];
    let polys: Vec<Vec<&Poly>> = owned.iter().map(|tree| tree.iter().collect()).collect();
    let p0 = secure_field_circle_gen();
    let p1 = secure_field_circle_gen().mul(1_234_567);
    let sampled_points = vec![
        vec![vec![p0, p1], vec![p1], vec![p0, p0, p1]],
        vec![vec![p1, p0], vec![p1]],
    ];

    // Log-5 groups are prebuilt, while log-6 groups have their weights computed on demand.
    let mut weights = WeightsHashMap::new();
    for (cols, point_cols) in polys.iter().zip(sampled_points.iter()) {
        for (poly, points) in cols.iter().zip(point_cols) {
            let log_size = poly.evals.domain.log_size();
            if log_size >= LIFTING_LOG_SIZE {
                continue;
            }
            for point in points {
                let folded = point.repeated_double(LIFTING_LOG_SIZE - log_size);
                let column = barycentric_weights(CanonicCoset::new(log_size), folded);
                weights.insert(sample_key(log_size, folded), column);
            }
        }
    }
    assert_eq!(weights.len(), 2);
    let built =
        build_map(&polys, &sampled_points, LIFTING_LOG_SIZE, false, Some(LIFTING_LOG_SIZE));
    assert_eq!(built.len(), 2);

    let actual =
        batch_evaluation_samples(&polys, &sampled_points, Some(&weights), LIFTING_LOG_SIZE);
    for (tree_index, (cols, point_cols)) in polys.iter().zip(sampled_points.iter()).enumerate() {
        for (column_index, (poly, points)) in cols.iter().zip(point_cols).enumerate() {
            let log_size = poly.evals.domain.log_size();
            for (point_index, point) in points.iter().enumerate() {
                let folded = point.repeated_double(LIFTING_LOG_SIZE - log_size);
                let reference_weights =
                    barycentric_weights(CanonicCoset::new(log_size), folded);
                let expected = barycentric_eval_at_point(&poly.evals, &reference_weights);
                let sample = &actual[tree_index][column_index][point_index];
                assert_eq!(sample.point, *point);
                assert_eq!(sample.value, expected);
            }
        }
    }

    let original_order: Vec<CirclePoint<QM31>> =
        sampled_points.iter().flatten().flatten().copied().collect();
    let actual_order: Vec<CirclePoint<QM31>> =
        actual.iter().flatten().flatten().map(|sample| sample.point).collect();
    assert_eq!(actual_order, original_order);
}

fn twiddles() -> TwiddleTree {
    precompute_twiddles(CanonicCoset::new(8).circle_domain().half_coset)
}

fn column_coeffs(log_size: u32, seed: u32) -> CircleCoefficients {
    CircleCoefficients::new((0..1u32 << log_size).map(|i| M31::from_u32(i * 13 + seed)).collect())
}

fn rebuilt_root(leaf: Blake2sHash, position: usize, witness: &[Blake2sHash]) -> Blake2sHash {
    let mut node = leaf;
    let mut at = position;
    for sibling in witness {
        node = if at % 2 == 0 {
            Blake2sMerkleHasher::hash_children(node, *sibling)
        } else {
            Blake2sMerkleHasher::hash_children(*sibling, node)
        };
        at /= 2;
    }
    node
}

fn open_scheme(store_coefficients: bool, zk: bool) {
    let twiddles = twiddles();
    let config = PcsConfig { zk, ..Default::default() };
    let mut scheme: CommitmentSchemeProver<'_, Blake2sMerkleHasher> =
        CommitmentSchemeProver::new(config, &twiddles);
    if store_coefficients {
        scheme.set_store_polynomials_coefficients();
    }
    let mut channel = Blake2sChannel::new();
    let mut expected = Blake2sChannel::new();
    config.mix_into::<Blake2sMerkleHasher, Blake2sChannel>(&mut channel);
    config.mix_into::<Blake2sMerkleHasher, Blake2sChannel>(&mut expected);
    let mut builder = scheme.tree_builder();
    let span = builder.extend_polys(vec![column_coeffs(4, 1), column_coeffs(5, 2)]);
    assert_eq!((span.tree_index, span.col_start, span.col_end), (0, 0, 2));
    builder.commit(&mut channel).unwrap();
    scheme.commit(vec![EvalsOrCoeffs::Coeffs(column_coeffs(5, 3))], &mut channel).unwrap();
    assert_eq!(scheme.roots().len(), 2);
    assert_eq!(scheme.evaluations()[0][1].values.len(), 64);
    assert_eq!(scheme.trees.get(0).commitment.salt_seed.is_some(), false);
    assert_eq!(scheme.trees.get(1).commitment.salt_seed.is_some(), zk);

    let point = secure_field_circle_gen().mul(977);
    let points = vec![vec![vec![point], vec![point]], vec![vec![point, secure_field_circle_gen()]]];
    let opened = scheme.prove_values(&points, &mut channel);
    // The transcript takes the roots, the sampled values, and a draw.
    for t in 0..opened.scheme.trees.len() {
        let root = opened.scheme.trees.get(t).commitment.root();
        Channel::<Blake2sMerkleHasher>::mix_root(&mut expected, root);
    }
    let values: Vec<QM31> =
        opened.samples.iter().flatten().flatten().map(|sample| sample.value).collect();
    assert_eq!(values.len(), 4);
    Channel::<Blake2sMerkleHasher>::mix_felts(&mut expected, &values);
    let drawn = Channel::<Blake2sMerkleHasher>::draw_secure_felt(&mut expected);
    assert_eq!(opened.random_coeff, drawn);
    assert_eq!(channel.next_challenge(), expected.next_challenge());
    assert_eq!(opened.lifting_log_size, 6);
    // A column one size below the tree is sampled at the doubled point.
    assert_eq!(
        opened.samples[0][0][0].value,
        eval_at_point(&column_coeffs(4, 1), point.double())
    );
    assert_eq!(opened.samples[0][1][0].value, eval_at_point(&column_coeffs(5, 2), point));
    assert_eq!(opened.samples[1][0][0].value, eval_at_point(&column_coeffs(5, 3), point));

    let values: Vec<M31> = opened.scheme.trees.get(1).polynomials[0].evals.values.clone();
    let outcome = FriOutcome {
        query_positions: vec![13],
        unsorted_query_locations: vec![13],
        fri_proof: "low degree",
        fri_aux: "folded values",
    };
    // The proof of work goes into the transcript before the rows are drawn.
    let ground = opened.mix_proof_of_work(&mut channel, 42);
    Channel::<Blake2sMerkleHasher>::mix_u64(&mut expected, 42);
    assert_eq!(channel.next_challenge(), expected.next_challenge());
    let (extended, _pool) = ground.finish(outcome);
    assert_eq!(extended.aux.fri, "folded values");
    let proof = extended.proof;
    assert_eq!(proof.proof_of_work, 42);
    assert_eq!(proof.fri_proof, "low degree");
    assert_eq!(proof.sampled_values[1][0].len(), 2);
    assert_eq!(proof.queried_values[1], vec![vec![values[13]]]);
    // The opened row rebuilds the root.
    let mut hasher = Blake2sMerkleHasher::fresh();
    hasher.update_leaf(&[values[13]]);
    let mut leaf = hasher.finalize();
    assert_eq!(proof.decommitments[1].salts.len(), zk as usize);
    if zk {
        leaf = Blake2sMerkleHasher::hash_children(leaf, proof.decommitments[1].salts[0]);
    }
    let root = rebuilt_root(leaf, 13, &proof.decommitments[1].hash_witness);
    assert_eq!(root, proof.commitments[1]);
}

#[test]
fn openings_rebuild_the_commitments() {
    open_scheme(false, false);
    open_scheme(true, false);
}

#[test]
fn salted_openings_rebuild_the_commitments() {
    open_scheme(true, true);
}

#[test]
fn positions_follow_the_rows_of_another_size() {
    assert_eq!(sort_positions(&vec![5, 1, 5, 0]), vec![0, 1, 5, 5]);
    // Rows keep their lowest bit; the others move by the ratio of the sizes.
    assert_eq!(prepare_preprocessed_query_positions(&vec![13, 2], 6, 5), vec![0, 7]);
    assert_eq!(prepare_preprocessed_query_positions(&vec![13, 2], 6, 7), vec![4, 25]);
    assert_eq!(prepare_preprocessed_query_positions(&vec![13, 2], 6, 6), vec![2, 13]);
    assert!(prepare_preprocessed_query_positions(&vec![13], 6, 0).is_empty());
}

#[test]
fn default_parameters_and_their_security() {
    let config = PcsConfig::default();
    assert_eq!(config.security_bits(), 13);
    assert_eq!(config.fri_config.security_bits(), 3);
    assert_eq!(config.lifting_log_size, None);
    assert!(!config.zk);
}

#[test]
fn every_step_changes_the_challenge() {
    let mut channel = Blake2sChannel::new();
    let mut seen = vec![channel.next_challenge()];
    let root = Blake2sHash([9; 8]);
    Channel::<Blake2sMerkleHasher>::mix_u64(&mut channel, 1 << 40);
    seen.push(channel.next_challenge());
    Channel::<Blake2sMerkleHasher>::mix_root(&mut channel, root);
    seen.push(channel.next_challenge());
    Channel::<Blake2sMerkleHasher>::mix_felts(&mut channel, &[seen[0], seen[1]]);
    seen.push(channel.next_challenge());
    let drawn = Channel::<Blake2sMerkleHasher>::draw_secure_felt(&mut channel);
    assert_eq!(drawn, seen[3]);
    seen.push(channel.next_challenge());
    for i in 0..seen.len() {
        for j in 0..i {
            assert_ne!(seen[i], seen[j]);
        }
    }
}

#[test]
fn reduced_hashes_are_field_elements() {
    let mut hasher = Blake2sM31MerkleHasher::fresh();
    hasher.update_leaf(&[M31(1), M31(2)]);
    let hash = hasher.finalize();
    assert!(hash.0.iter().all(|word| *word < P));
}

#[test]
fn trees_made_elsewhere_and_columns_of_values_are_the_same_commitment() {
    let twiddles = twiddles();
    let config = PcsConfig::default();
    let log_blowup = config.fri_config.log_blowup_factor;
    let coeffs = column_coeffs(5, 3);
    let domain = CanonicCoset::new(5).circle_domain();
    let values = evaluate(&coeffs, domain, &twiddles);

    let mut by_values: CommitmentSchemeProver<'_, Blake2sMerkleHasher> =
        CommitmentSchemeProver::with_memory_pool(config, &twiddles, BaseColumnPool::new());
    let mut channel = Blake2sChannel::new();
    let mut builder = by_values.tree_builder();
    let span = builder.extend_evals(vec![values]);
    assert_eq!((span.tree_index, span.col_start, span.col_end), (0, 0, 1));
    builder.commit(&mut channel).unwrap();

    let mut pool = BaseColumnPool::new();
    let tree = CommitmentTreeProver::<Blake2sMerkleHasher>::new(
        vec![EvalsOrCoeffs::Coeffs(coeffs)],
        log_blowup,
        &twiddles,
        false,
        None,
        None,
        &mut pool,
    );
    let mut by_tree: CommitmentSchemeProver<'_, Blake2sMerkleHasher> =
        CommitmentSchemeProver::new(config, &twiddles);
    let mut other = Blake2sChannel::new();
    by_tree.commit_tree(MaybeOwned::Owned(tree), &mut other);
    assert_eq!(by_values.roots(), by_tree.roots());
    assert_eq!(channel.next_challenge(), other.next_challenge());
}

#[test]
fn maps_hold_the_weights_and_bases_of_the_samples() {
    let twiddles = twiddles();
    let mut scheme: CommitmentSchemeProver<'_, Blake2sMerkleHasher> =
        CommitmentSchemeProver::new(PcsConfig::default(), &twiddles);
    scheme.set_store_polynomials_coefficients();
    let mut channel = Blake2sChannel::new();
    let committed = scheme.commit(
        vec![
            EvalsOrCoeffs::Coeffs(column_coeffs(4, 1)),
            EvalsOrCoeffs::Coeffs(column_coeffs(5, 2)),
        ],
        &mut channel,
    );
    assert!(committed.is_ok());
    let point = secure_field_circle_gen().mul(977);
    let points = vec![vec![vec![point], vec![point]]];
    let weights = scheme.build_weights_hash_map(&points, 6);
    assert_eq!(weights.len(), 2);
    assert_eq!(
        *weights.get(&sample_key(5, point.double())).unwrap(),
        barycentric_weights(CanonicCoset::new(5), point.double())
    );
    assert_eq!(
        *weights.get(&sample_key(6, point)).unwrap(),
        barycentric_weights(CanonicCoset::new(6), point)
    );
    let small = scheme.build_weights_hash_map_below(&points, 6, Some(6));
    assert_eq!(small.len(), 1);
    assert!(small.get(&sample_key(6, point)).is_none());
    let bases = scheme.build_eval_basis_map(&points, 6);
    assert_eq!(bases.len(), 2);
    assert_eq!(
        *bases.get(&sample_key(4, point.double())).unwrap(),
        eval_basis_at_point(4, point.double())
    );
}

#[test]
fn resident_groups_give_the_same_samples() {
    assert_eq!(resident_barycentric_min_log_size(true), Some(16));
    assert_eq!(resident_barycentric_min_log_size(false), None);
    let owned = vec![vec![test_poly(16, 1), test_poly(5, 2)], vec![test_poly(16, 3)]];
    let polys: Vec<Vec<&Poly>> = owned.iter().map(|tree| tree.iter().collect()).collect();
    let p = secure_field_circle_gen().mul(4321);
    let points = vec![vec![vec![p], vec![p]], vec![vec![p]]];
    let small = build_map(&polys, &points, 16, false, Some(16));
    assert_eq!(small.len(), 1);
    let resident = batch_evaluation_samples_resident(&polys, &points, Some(&small), 16);
    let plain = batch_evaluation_samples(&polys, &points, None, 16);
    for (a, b) in resident.iter().flatten().flatten().zip(plain.iter().flatten().flatten()) {
        assert_eq!((a.point, a.value), (b.point, b.value));
    }
}

#[test]
fn lent_trees_commit_alike_and_keep_their_buffers() {
    let twiddles = twiddles();
    let config = PcsConfig::default();
    let mut pool = BaseColumnPool::new();
    let lent = CommitmentTreeProver::<Blake2sMerkleHasher>::new(
        vec![EvalsOrCoeffs::Coeffs(column_coeffs(5, 3))],
        config.fri_config.log_blowup_factor,
        &twiddles,
        false,
        None,
        None,
        &mut pool,
    );
    let mut scheme: CommitmentSchemeProver<'_, Blake2sMerkleHasher> =
        CommitmentSchemeProver::new(config, &twiddles);
    let mut channel = Blake2sChannel::new();
    scheme.commit_tree(MaybeOwned::Borrowed(&lent), &mut channel);
    assert!(scheme
        .commit(vec![EvalsOrCoeffs::Coeffs(column_coeffs(5, 4))], &mut channel)
        .is_ok());
    assert_eq!(scheme.roots()[0], lent.commitment.root());
    let point = secure_field_circle_gen().mul(55);
    let opened = scheme.prove_values(&vec![vec![vec![point]], vec![vec![point]]], &mut channel);
    assert_eq!(opened.samples[0][0][0].value, eval_at_point(&column_coeffs(5, 3), point));
    let outcome = FriOutcome {
        query_positions: vec![7],
        unsorted_query_locations: vec![7],
        fri_proof: (),
        fri_aux: (),
    };
    let (extended, _pool) = opened.mix_proof_of_work(&mut channel, 5).finish(outcome);
    let proof = extended.proof;
    assert_eq!(proof.proof_of_work, 5);
    assert_eq!(proof.queried_values[0], vec![vec![lent.polynomials[0].evals.values[7]]]);
}

#[test]
fn keeping_coefficients_keeps_the_proof() {
    let twiddles = twiddles();
    let values: Vec<M31> = (0..32u32).map(|i| M31::from_u32(i * i + 7)).collect();
    let mut proofs = vec![];
    for keep in [true, false] {
        let mut scheme: CommitmentSchemeProver<'_, Blake2sMerkleHasher> =
            CommitmentSchemeProver::new(PcsConfig::default(), &twiddles);
        if keep {
            scheme.set_store_polynomials_coefficients();
        }
        let mut channel = Blake2sChannel::new();
        let evals = CircleEvaluation::new(CanonicCoset::new(5).circle_domain(), values.clone());
        let first = vec![EvalsOrCoeffs::Coeffs(column_coeffs(3, 1)), EvalsOrCoeffs::Evals(evals)];
        assert!(scheme.commit(first, &mut channel).is_ok());
        let second = vec![EvalsOrCoeffs::Coeffs(column_coeffs(5, 9))];
        assert!(scheme.commit(second, &mut channel).is_ok());
        assert_eq!(scheme.trees.get(0).polynomials[1].coeffs.is_some(), keep);
        let p = secure_field_circle_gen().mul(31);
        let q = secure_field_circle_gen().mul(1009);
        let points = vec![vec![vec![p], vec![p, q]], vec![vec![q]]];
        let opened = scheme.prove_values(&points, &mut channel);
        let challenge = opened.random_coeff;
        let ground = opened.mix_proof_of_work(&mut channel, 3);
        let outcome = FriOutcome {
            query_positions: vec![2, 9, 40],
            unsorted_query_locations: vec![40, 2, 9],
            fri_proof: 17,
            fri_aux: (),
        };
        let (extended, _pool) = ground.finish(outcome);
        assert_eq!(extended.aux.unsorted_query_locations, vec![40, 2, 9]);
        proofs.push((extended.proof, challenge, channel.next_challenge()));
    }
    let (a, b) = (&proofs[0], &proofs[1]);
    assert_eq!((a.1, a.2), (b.1, b.2));
    assert_eq!(a.0.commitments, b.0.commitments);
    assert_eq!(a.0.sampled_values, b.0.sampled_values);
    assert_eq!(a.0.queried_values, b.0.queried_values);
    for t in 0..2 {
        assert_eq!(a.0.decommitments[t].hash_witness, b.0.decommitments[t].hash_witness);
        assert_eq!(a.0.decommitments[t].salts, b.0.decommitments[t].salts);
    }
}
