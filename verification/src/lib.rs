pub mod circle;
pub mod composition_stage;
pub mod constraint_laws;
pub mod constraints;
pub mod decompose;
pub mod fields;
pub mod framework;
pub mod fri;
pub mod line;
pub mod metal;
pub mod parallel;
pub mod pcs;
pub mod poly;
pub mod quotient_laws;
pub mod quotients;
pub mod secure_column;
pub mod utils;
pub mod vcs;
