//! Running solve rows: one instruction, a stretch of a row, and the unchecked
//! variant for rows whose register flow is known to be valid.
use crate::solve::error::{EvalErrorView, EvalSolveError, Real};
use crate::solve::linear_op::{linear_op_name, LinearOp, Reg};
use crate::solve::registers::checked_square_len;
use crate::solve::row::{
    no_seed, random_step, read_input, step, step_result, step_set, table_step, IndexedVector,
    RowAction, RowInput, RowInputView, RowMachine, RowState, StepView, ValueRequest,
};
use crate::span::Span;
use vstd::prelude::*;

verus! {

impl RowMachine {
    /// Looks at an instruction that reads a table.
    pub fn apply_table_op(&mut self, op: &LinearOp, span: Option<Span>) -> (r: Result<
        RowAction,
        EvalSolveError,
    >)
        ensures
            step_result(old(self)@, final(self)@, r, table_step(old(self)@, *op, span)),
    {
        match *op {
            LinearOp::TableBounds { dst, table_id, max } => {
                let table_id: Real = match self.get(table_id, span) {
                    Ok(v) => v,
                    Err(e) => {
                        return Err(e);
                    },
                };
                Ok(RowAction::Value { dst, request: ValueRequest::TableBounds { table_id, max } })
            },
            LinearOp::TableLookup { dst, table_id, column, input } => {
                let table_id: Real = match self.get(table_id, span) {
                    Ok(v) => v,
                    Err(e) => {
                        return Err(e);
                    },
                };
                let column: Real = match self.get(column, span) {
                    Ok(v) => v,
                    Err(e) => {
                        return Err(e);
                    },
                };
                let input: Real = match self.get(input, span) {
                    Ok(v) => v,
                    Err(e) => {
                        return Err(e);
                    },
                };
                Ok(
                    RowAction::Value {
                        dst,
                        request: ValueRequest::TableLookup { table_id, column, input },
                    },
                )
            },
            LinearOp::TableLookupSlope { dst, table_id, column, input } => {
                let table_id: Real = match self.get(table_id, span) {
                    Ok(v) => v,
                    Err(e) => {
                        return Err(e);
                    },
                };
                let column: Real = match self.get(column, span) {
                    Ok(v) => v,
                    Err(e) => {
                        return Err(e);
                    },
                };
                let input: Real = match self.get(input, span) {
                    Ok(v) => v,
                    Err(e) => {
                        return Err(e);
                    },
                };
                Ok(
                    RowAction::Value {
                        dst,
                        request: ValueRequest::TableLookupSlope { table_id, column, input },
                    },
                )
            },
            LinearOp::TableNextEvent { dst, table_id, time } => {
                let table_id: Real = match self.get(table_id, span) {
                    Ok(v) => v,
                    Err(e) => {
                        return Err(e);
                    },
                };
                let time: Real = match self.get(time, span) {
                    Ok(v) => v,
                    Err(e) => {
                        return Err(e);
                    },
                };
                Ok(
                    RowAction::Value {
                        dst,
                        request: ValueRequest::TableNextEvent { table_id, time },
                    },
                )
            },
            _ => Err(EvalSolveError::InvalidLinearOp { helper: "table", op: linear_op_name(op) }),
        }
    }

    /// Looks at an instruction that draws random numbers.
    pub fn apply_random_op(&mut self, op: &LinearOp, t: Real, span: Option<Span>) -> (r: Result<
        RowAction,
        EvalSolveError,
    >)
        ensures
            step_result(old(self)@, final(self)@, r, random_step(old(self)@, *op, t, span)),
    {
        match *op {
            LinearOp::RandomInitialState {
                dst,
                generator,
                local_seed,
                global_seed,
                state_len,
                state_index,
            } => {
                let local_seed: Real = match self.get(local_seed, span) {
                    Ok(v) => v,
                    Err(e) => {
                        return Err(e);
                    },
                };
                let global_seed: Real = match self.get(global_seed, span) {
                    Ok(v) => v,
                    Err(e) => {
                        return Err(e);
                    },
                };
                Ok(
                    RowAction::Value {
                        dst,
                        request: ValueRequest::RandomInitialState {
                            generator,
                            local_seed,
                            global_seed,
                            state_len,
                            state_index,
                        },
                    },
                )
            },
            LinearOp::RandomResult { dst, generator, state_start, state_len } => {
                match self.read_reg_range(state_start, state_len, "random state", span) {
                    Ok(state) => Ok(
                        RowAction::Value {
                            dst,
                            request: ValueRequest::RandomResult { generator, state },
                        },
                    ),
                    Err(e) => Err(e),
                }
            },
            LinearOp::RandomState { dst, generator, state_start, state_len, state_index } => {
                match self.read_reg_range(state_start, state_len, "random state", span) {
                    Ok(state) => Ok(
                        RowAction::Value {
                            dst,
                            request: ValueRequest::RandomState { generator, state, state_index },
                        },
                    ),
                    Err(e) => Err(e),
                }
            },
            LinearOp::ImpureRandomInit { dst, seed } => match self.get(seed, span) {
                Ok(seed) => Ok(
                    RowAction::Value { dst, request: ValueRequest::ImpureRandomInit { seed } },
                ),
                Err(e) => Err(e),
            },
            LinearOp::ImpureRandom { dst, id, call_site } => match self.get(id, span) {
                Ok(id) => Ok(
                    RowAction::Value {
                        dst,
                        request: ValueRequest::ImpureRandom { id, call_site, t },
                    },
                ),
                Err(e) => Err(e),
            },
            LinearOp::ImpureRandomInteger { dst, id, imin, imax, call_site } => {
                let id: Real = match self.get(id, span) {
                    Ok(v) => v,
                    Err(e) => {
                        return Err(e);
                    },
                };
                let imin: Real = match self.get(imin, span) {
                    Ok(v) => v,
                    Err(e) => {
                        return Err(e);
                    },
                };
                let imax: Real = match self.get(imax, span) {
                    Ok(v) => v,
                    Err(e) => {
                        return Err(e);
                    },
                };
                Ok(
                    RowAction::Value {
                        dst,
                        request: ValueRequest::ImpureRandomInteger { id, imin, imax, call_site, t },
                    },
                )
            },
            _ => Err(EvalSolveError::InvalidLinearOp { helper: "random", op: linear_op_name(op) }),
        }
    }

    fn set_done(&mut self, dst: Reg, value: Real, span: Option<Span>) -> (r: Result<
        RowAction,
        EvalSolveError,
    >)
        ensures
            step_result(old(self)@, final(self)@, r, step_set(old(self)@, dst, value, span)),
            r matches Ok(action) ==> action is Done,
    {
        match self.set(dst, value, span) {
            Ok(_) => Ok(RowAction::Done),
            Err(e) => Err(e),
        }
    }

    /// Looks at one instruction: runs it, or says what has to be computed.
    pub fn eval_op(&mut self, op: LinearOp, input: &RowInput) -> (r: Result<
        RowAction,
        EvalSolveError,
    >)
        ensures
            step_result(old(self)@, final(self)@, r, step(old(self)@, input@, op)),
    {
        reveal(step);
        let span: Option<Span> = input.source_span;
        match op {
            LinearOp::Const { dst, value } => self.set_done(dst, value, span),
            LinearOp::LoadTime { dst } => self.set_done(dst, input.t, span),
            LinearOp::LoadY { dst, index } => match read_input("y", input.y, index, span) {
                Ok(value) => self.set_done(dst, value, span),
                Err(e) => Err(e),
            },
            LinearOp::LoadP { dst, index } => match read_input("p", input.p, index, span) {
                Ok(value) => self.set_done(dst, value, span),
                Err(e) => Err(e),
            },
            LinearOp::LoadIndexedP { dst, base, count, index } => match self.get(index, span) {
                Ok(index) => Ok(
                    RowAction::Slot { dst, vector: IndexedVector::P, index, base, count },
                ),
                Err(e) => Err(e),
            },
            LinearOp::LoadIndexedSeed { dst, base, count, index } => match input.seed {
                None => Err(missing_seed(base, span)),
                Some(_) => match self.get(index, span) {
                    Ok(index) => Ok(
                        RowAction::Slot { dst, vector: IndexedVector::Seed, index, base, count },
                    ),
                    Err(e) => Err(e),
                },
            },
            LinearOp::LoadSeed { dst, index } => match input.seed {
                None => Err(missing_seed(index, span)),
                Some(seed) => match read_input("seed", seed, index, span) {
                    Ok(value) => self.set_done(dst, value, span),
                    Err(e) => Err(e),
                },
            },
            LinearOp::Move { dst, src } => match self.get(src, span) {
                Ok(value) => self.set_done(dst, value, span),
                Err(e) => Err(e),
            },
            LinearOp::LinearSolveComponent { dst, matrix_start, rhs_start, n, component } => {
                let square: usize = match checked_square_len(n, "linear solve matrix") {
                    Ok(len) => len,
                    Err(e) => {
                        return Err(e.with_source_span(span));
                    },
                };
                let matrix: Vec<Real> = match self.read_reg_range(
                    matrix_start,
                    square,
                    "linear solve matrix",
                    span,
                ) {
                    Ok(values) => values,
                    Err(e) => {
                        return Err(e);
                    },
                };
                match self.read_reg_range(rhs_start, n, "linear solve rhs", span) {
                    Ok(rhs) => Ok(
                        RowAction::Value {
                            dst,
                            request: ValueRequest::LinearSolve { matrix, rhs, component },
                        },
                    ),
                    Err(e) => Err(e),
                }
            },
            LinearOp::Unary { dst, op, arg } => match self.get(arg, span) {
                Ok(arg) => Ok(RowAction::Value { dst, request: ValueRequest::Unary { op, arg } }),
                Err(e) => Err(e),
            },
            LinearOp::Binary { dst, op, lhs, rhs } => {
                let lhs: Real = match self.get(lhs, span) {
                    Ok(v) => v,
                    Err(e) => {
                        return Err(e);
                    },
                };
                match self.get(rhs, span) {
                    Ok(rhs) => Ok(
                        RowAction::Value { dst, request: ValueRequest::Binary { op, lhs, rhs } },
                    ),
                    Err(e) => Err(e),
                }
            },
            LinearOp::Compare { dst, op, lhs, rhs } => {
                let lhs: Real = match self.get(lhs, span) {
                    Ok(v) => v,
                    Err(e) => {
                        return Err(e);
                    },
                };
                match self.get(rhs, span) {
                    Ok(rhs) => Ok(
                        RowAction::Value { dst, request: ValueRequest::Compare { op, lhs, rhs } },
                    ),
                    Err(e) => Err(e),
                }
            },
            LinearOp::Select { dst, cond, if_true, if_false } => {
                let cond: Real = match self.get(cond, span) {
                    Ok(v) => v,
                    Err(e) => {
                        return Err(e);
                    },
                };
                let chosen: Reg = if cond.is_zero() {
                    if_false
                } else {
                    if_true
                };
                match self.get(chosen, span) {
                    Ok(value) => self.set_done(dst, value, span),
                    Err(e) => Err(e),
                }
            },
            LinearOp::TableBounds { .. } => self.apply_table_op(&op, span),
            LinearOp::TableLookup { .. } => self.apply_table_op(&op, span),
            LinearOp::TableLookupSlope { .. } => self.apply_table_op(&op, span),
            LinearOp::TableNextEvent { .. } => self.apply_table_op(&op, span),
            LinearOp::RandomInitialState { .. } => self.apply_random_op(&op, input.t, span),
            LinearOp::RandomResult { .. } => self.apply_random_op(&op, input.t, span),
            LinearOp::RandomState { .. } => self.apply_random_op(&op, input.t, span),
            LinearOp::ImpureRandomInit { .. } => self.apply_random_op(&op, input.t, span),
            LinearOp::ImpureRandom { .. } => self.apply_random_op(&op, input.t, span),
            LinearOp::ImpureRandomInteger { .. } => self.apply_random_op(&op, input.t, span),
            LinearOp::StoreOutput { src } => match self.get(src, span) {
                Ok(value) => match self.sink.store(value) {
                    Ok(_) => Ok(RowAction::Done),
                    Err(e) => Err(e),
                },
                Err(e) => Err(e),
            },
        }
    }
}

fn missing_seed(index: usize, span: Option<Span>) -> (e: EvalSolveError)
    ensures
        e@ == no_seed(index, span),
{
    EvalSolveError::MissingInput { vector: "seed", index, len: 0, span }
}

/// Where a run over a stretch of a row stopped.
pub enum RunView {
    /// An instruction failed; the state is the one it found.
    Failed { state: RowState, error: EvalErrorView },
    /// The row is through.
    Finished { state: RowState },
    /// An instruction left something to do; `next` is the one after it.
    Waiting { state: RowState, next: int, left: StepView },
}

/// Runs instructions from `i` on until one fails or leaves something to do.
pub open spec fn run_from(s: RowState, input: RowInputView, row: Seq<LinearOp>, i: int) -> RunView
    decreases row.len() - i,
{
    if i < 0 || i >= row.len() {
        RunView::Finished { state: s }
    } else {
        match step(s, input, row[i]) {
            StepView::Failed(error) => RunView::Failed { state: s, error },
            StepView::Done(next) => run_from(next, input, row, i + 1),
            left => RunView::Waiting { state: s, next: i + 1, left },
        }
    }
}

/// What a run did to the machine and where it stopped.
pub open spec fn run_result(
    after: RowState,
    next: int,
    len: int,
    result: Result<RowAction, EvalSolveError>,
    expected: RunView,
) -> bool {
    match result {
        Err(e) => expected == (RunView::Failed { state: after, error: e@ }),
        Ok(RowAction::Done) => expected == (RunView::Finished { state: after }) && next == len,
        Ok(RowAction::Value { dst, request }) => expected == (RunView::Waiting {
            state: after,
            next,
            left: StepView::Value { dst, request: request@ },
        }),
        Ok(RowAction::Slot { dst, vector, index, base, count }) => expected == (RunView::Waiting {
            state: after,
            next,
            left: StepView::Slot { dst, vector, index, base, count },
        }),
    }
}

impl RowMachine {
    /// Runs a row from instruction `next` on, until one leaves something to do
    /// or the row is through; `next` then names the instruction to go on with.
    pub fn eval_row_prepared_with_context(
        &mut self,
        row: &[LinearOp],
        next: &mut usize,
        input: &RowInput,
    ) -> (r: Result<RowAction, EvalSolveError>)
        requires
            *old(next) <= row@.len(),
        ensures
            *final(next) <= row@.len(),
            run_result(
                final(self)@,
                *final(next) as int,
                row@.len() as int,
                r,
                run_from(old(self)@, input@, row@, *old(next) as int),
            ),
    {
        let mut i: usize = *next;
        while i < row.len()
            invariant
                i <= row@.len(),
                run_from(self@, input@, row@, i as int) == run_from(
                    old(self)@,
                    input@,
                    row@,
                    *old(next) as int,
                ),
            decreases row.len() - i,
        {
            let ghost found = self@;
            let result = self.eval_op(row[i], input);
            assert(step_result(found, self@, result, step(found, input@, row@[i as int])));
            i = i + 1;
            match result {
                Ok(RowAction::Done) => {},
                Ok(action) => {
                    *next = i;
                    return Ok(action);
                },
                Err(e) => {
                    *next = i;
                    return Err(e);
                },
            }
        }
        *next = i;
        Ok(RowAction::Done)
    }
}

} // verus!
