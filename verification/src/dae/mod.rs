//! Flat differential-algebraic systems.
pub mod condition_finalize;
pub mod condition_laws;
pub mod conditions;
pub mod const_eval;
pub mod equation;
pub mod error;
pub mod finalize_laws;
pub mod lowering_laws;
pub mod meaning;
pub mod meaning_laws;
pub mod memory_laws;
pub mod model;
pub mod model_laws;
pub mod pre_laws;
pub mod pre_lowering;
pub mod pre_resolve;
pub mod pre_rewrite;
pub mod pre_targets;
pub mod relation_memory;
pub mod resolve_laws;
pub mod scalar_name;
pub mod shape;
pub mod shape_laws;
pub mod size_laws;
pub mod subscript_laws;
pub mod variable;
pub mod variance;
