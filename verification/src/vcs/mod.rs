//! Vector commitments: hashers, lifted Merkle trees and salts.

pub mod blake2s;
pub mod blake2s_known;
pub mod blake2s_laws;
pub mod contents;
pub mod hasher;
pub mod merkle;
pub mod opening;
pub mod prover;
pub mod sorting_laws;
pub mod tree_laws;
pub mod zk;
