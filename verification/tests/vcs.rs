//! Merkle trees over columns.

use stwo::fields::m31::{M31, P};
use stwo::vcs::blake2s::{blake2s_words, Blake2sHash, Blake2sMerkleHasher};
use stwo::vcs::hasher::MerkleHasherLifted;
use stwo::vcs::merkle::{build_layers, build_leaves, build_next_layer, pack_leaves_input};
use stwo::vcs::prover::{sort_columns, MerkleProverLifted};
use stwo::vcs::zk::{derive_salt, fold_salts, salt_seed, salts_for_positions, ZkRng};

#[test]
fn blake2s_digests_have_their_known_values() {
    let empty = blake2s_words(&[], false);
    assert_eq!(
        empty.0,
        [
            0x307a2169, 0x94809079, 0xd02111e1, 0x7c4a3542, 0x48b6551f, 0x1ea5a12c, 0xfd0d251b,
            0xf9eed01e
        ]
    );
    let reduced = blake2s_words(&[], true);
    for (word, full) in reduced.0.iter().zip(empty.0) {
        assert_eq!(*word, full % P);
    }
    // A full block is the last one; one word more starts another.
    let block: Vec<M31> = (0..16).map(M31).collect();
    let longer: Vec<M31> = (0..17).map(M31).collect();
    assert_ne!(blake2s_words(&block, false), blake2s_words(&longer, false));
}

fn lifted(column: &[M31], row: usize, log_size: u32) -> M31 {
    let ratio = log_size - column.len().ilog2();
    column[((row >> (ratio + 1)) << 1) | (row & 1)]
}

#[test]
fn blake2s_fast_path_matches_generic_absorption() {
    const MAX_LOG_N_ROWS: u32 = 9;
    let mut cols: Vec<Vec<M31>> = (0..40u32)
        .map(|i| (0..1 << MAX_LOG_N_ROWS).map(|j| M31::from_u32(100 * i + j)).collect())
        .collect();
    cols[0] = (0..1 << (MAX_LOG_N_ROWS - 3)).map(M31::from_u32_unchecked).collect();
    cols[1] = (0..1 << (MAX_LOG_N_ROWS - 2)).map(M31::from_u32_unchecked).collect();
    let col_refs: Vec<&Vec<M31>> = cols.iter().collect();

    let fast = build_leaves::<Blake2sMerkleHasher>(&col_refs, MAX_LOG_N_ROWS + 1);
    // The generic absorption: every row by itself, value by value.
    let reference: Vec<Blake2sHash> = (0..1usize << (MAX_LOG_N_ROWS + 1))
        .map(|row| {
            let mut hasher = Blake2sMerkleHasher::fresh();
            for column in &cols {
                hasher.update_leaf(&[lifted(column, row, MAX_LOG_N_ROWS + 1)]);
            }
            hasher.finalize()
        })
        .collect();
    assert_eq!(fast, reference);

    let fast_next = build_next_layer::<Blake2sMerkleHasher>(&fast);
    let reference_next: Vec<Blake2sHash> = reference
        .chunks(2)
        .map(|pair| Blake2sMerkleHasher::hash_children(pair[0], pair[1]))
        .collect();
    assert_eq!(fast_next, reference_next);
}

#[test]
fn trees_order_their_columns_by_size() {
    let long: Vec<M31> = (0..8).map(M31).collect();
    let short: Vec<M31> = (0..4).map(|i| M31(50 + i)).collect();
    let other: Vec<M31> = (0..8).map(|i| M31(90 + i)).collect();
    let columns = vec![&long, &short, &other];
    assert_eq!(sort_columns(&columns), vec![&short, &long, &other]);
    let tree = MerkleProverLifted::<Blake2sMerkleHasher>::commit(&columns, 3, None);
    let leaves = build_leaves::<Blake2sMerkleHasher>(&vec![&short, &long, &other], 3);
    let layers = build_layers::<Blake2sMerkleHasher>(leaves, 3);
    assert_eq!(tree.root(), layers[3][0]);
    let (values, opening) = tree.decommit(&[2, 5], &columns);
    assert_eq!(values.len(), 3);
    assert_eq!(values[0], vec![long[2], long[5]]);
    assert_eq!(values[1], vec![short[lifted_row(2)], short[lifted_row(5)]]);
    // Two leaves in different halves need two siblings each below the root.
    assert_eq!(opening.hash_witness.len(), 4);
    assert!(opening.salts.is_empty());
}

fn lifted_row(row: usize) -> usize {
    ((row >> 2) << 1) | (row & 1)
}

#[test]
fn an_empty_tree_is_the_leaf_of_nothing() {
    let tree = MerkleProverLifted::<Blake2sMerkleHasher>::commit(&vec![], 0, None);
    assert_eq!(tree.root(), blake2s_words(&[], false));
}

#[test]
fn packed_columns_hold_four_rows_of_each_coordinate() {
    let values = [0u32, 1, 2, 3].map(|c| (0..8u32).map(|i| M31(10 * c + i)).collect::<Vec<M31>>());
    let packed = pack_leaves_input(&values);
    assert_eq!(packed.len(), 16);
    for (c, column) in packed.iter().enumerate() {
        assert_eq!(*column, vec![values[c % 4][c / 4], values[c % 4][4 + c / 4]]);
    }
}

#[test]
fn salts_depend_on_the_seed_and_the_leaf() {
    let seed = salt_seed([1, 2, 3, 4, 5, 6, 7, 8]);
    let other = salt_seed([1, 2, 3, 4, 5, 6, 7, 9]);
    let salt = derive_salt::<Blake2sMerkleHasher>(&seed, 3);
    let words: Vec<M31> = (1..=8).map(M31).chain([M31(3)]).collect();
    assert_eq!(salt, blake2s_words(&words, false));
    assert_ne!(salt, derive_salt::<Blake2sMerkleHasher>(&seed, 4));
    assert_ne!(salt, derive_salt::<Blake2sMerkleHasher>(&other, 3));
    assert_eq!(
        salts_for_positions::<Blake2sMerkleHasher>(&seed, &vec![3, 1]),
        vec![salt, derive_salt::<Blake2sMerkleHasher>(&seed, 1)]
    );
    let leaves = vec![Blake2sHash([7; 8]); 4];
    let salted = fold_salts::<Blake2sMerkleHasher>(&leaves, &seed);
    assert_eq!(salted[3], Blake2sMerkleHasher::hash_children(leaves[3], salt));
}

#[test]
fn drawn_seeds_are_field_elements() {
    let mut rng = ZkRng::from_test_seed(17);
    let first = rng.draw_salt_seed();
    let second = rng.draw_salt_seed();
    assert_ne!(first, second);
    assert!(first.0.iter().chain(&second.0).all(|limb| limb.0 < P));
    assert_eq!(ZkRng::from_test_seed(17).draw_salt_seed(), first);
    assert_ne!(ZkRng::from_test_seed(18).draw_salt_seed(), first);
    let fresh = || ZkRng::from_os().map(|mut source| source.draw_salt_seed());
    let (a, b) = (fresh().unwrap(), fresh().unwrap());
    assert_ne!(a, b);
}

#[test]
fn parents_are_built_over_the_largest_power_of_two() {
    let hash = |k: u32| Blake2sHash([k; 8]);
    let six: Vec<Blake2sHash> = (0..6).map(hash).collect();
    let parents = build_next_layer::<Blake2sMerkleHasher>(&six);
    let expected: Vec<Blake2sHash> = (0..2)
        .map(|i| Blake2sMerkleHasher::hash_children(hash(2 * i), hash(2 * i + 1)))
        .collect();
    assert_eq!(parents, expected);
    let layers = build_layers::<Blake2sMerkleHasher>(six.clone(), 2);
    assert_eq!(layers[0], six);
    assert_eq!(layers[1], expected);
    assert_eq!(layers[2], build_next_layer::<Blake2sMerkleHasher>(&expected));
    assert_eq!(build_layers::<Blake2sMerkleHasher>(vec![], 0), vec![vec![]]);
}
