//! Evaluation rules of solve rows.
pub mod adjoint;
pub mod block;
pub mod block_laws;
pub mod error;
pub mod event;
pub mod event_laws;
pub mod input_laws;
pub mod inputs;
pub mod linear_op;
pub mod registers;
pub mod row;
pub mod row_eval;
pub mod row_fast;
pub mod row_laws;
pub mod runtime_state;
pub mod trace;
pub mod train_laws;
pub mod train_run;
pub mod training;
