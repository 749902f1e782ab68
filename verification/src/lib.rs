//! Verified core of a Modelica compiler.
//!
//! Qualified names and modification environments (`ir`), instantiation of
//! models (`instantiate`), the flat DAE with its shapes, canonical conditions
//! and `pre` lowering (`dae`), checking and running of solve rows (`solve`),
//! rendering of solve blocks (`codegen`), and the session that keeps the
//! documents (`session`).
pub mod codegen;
pub mod dae;
pub mod expr;
pub mod instantiate;
pub mod ir;
pub mod session;
pub mod solve;
pub mod span;
pub mod text;
