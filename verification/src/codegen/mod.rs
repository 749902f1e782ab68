//! Rendering of solve programs as source text.
pub mod fill;
pub mod linsolve_laws;
pub mod linsolve_mlir;
pub mod matmul_laws;
pub mod matmul_mlir;
pub mod matmul_text;
pub mod mlir_laws;
pub mod mlir_ops;
pub mod shape;
pub mod shown;
pub mod targets;
pub mod template;
pub mod value;
