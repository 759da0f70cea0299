//! The constraint framework: formal constraint expressions, their evaluators, relations and
//! lookup columns.

use vstd::prelude::*;

pub mod column_laws;
pub mod column_map;
pub mod component;
pub mod component_laws;
pub mod degree;
pub mod degree_laws;
pub mod domain;
pub mod evaluator;
pub mod evaluator_laws;
pub mod expr;
pub mod finalize;
pub mod format;
pub mod fractions;
pub mod intermediates;
pub mod logup;
pub mod logup_laws;
pub mod names;
pub mod naming_laws;
pub mod packed;
pub mod polynomials;
pub mod quotient;
pub mod relation;
pub mod report;
pub mod row_laws;
pub mod rows;
pub mod simplify;
pub mod vanishing;
pub mod vanishing_laws;
pub mod variables;

verus! {

/// The tree of preprocessed columns.
pub const PREPROCESSED_TRACE_IDX: usize = 0;

/// The tree of the execution trace.
pub const ORIGINAL_TRACE_IDX: usize = 1;

/// The tree of the lookup columns.
pub const INTERACTION_TRACE_IDX: usize = 2;

/// How many trees a component reads at most.
pub const MAX_N_INTERACTIONS: usize = 4;

} // verus!
