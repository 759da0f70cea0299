//! The polynomial commitment scheme.

pub mod agreement;
pub mod channel;
pub mod config;
pub mod groups;
pub mod lifting;
pub mod mixing_laws;
pub mod opening_laws;
pub mod openings;
pub mod pool_laws;
pub mod resident;
pub mod samples;
pub mod scheme;
pub mod transcript;
pub mod transcript_laws;
pub mod tree;
pub mod trees;
pub mod weights;
pub mod whole_proof;
