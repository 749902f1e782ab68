//! Stepping through a solve row.
//!
//! A [`RowMachine`] decides everything about a row but its arithmetic: which
//! registers and inputs an instruction reads, in which order the checks come,
//! where a result goes. Where an instruction needs a number computed, the
//! machine stops with a request and goes on when the number is supplied.
use crate::solve::error::{invalid_row, EvalErrorView, EvalSolveError, Real};
use crate::solve::linear_op::{
    linear_op_name_spec, BinaryOp, CompareOp, LinearOp, RandomGenerator, Reg, UnaryOp,
};
use crate::solve::registers::{checked_reg_range_last, range_error, range_last, row_error};
use crate::span::Span;
use crate::text::owned;
use vstd::prelude::*;

verus! {

/// Where stored values go.
///
/// Each store takes the next output slot: the next entry of `output_indices`
/// where there is one list for the whole block, else the next slot in order.
pub struct OutputCursor {
    pub out: Vec<Real>,
    pub output_indices: Option<Vec<usize>>,
    pub cursor: usize,
}

/// The mathematical content of an [`OutputCursor`].
pub struct OutputView {
    pub out: Seq<Real>,
    pub indices: Option<Seq<usize>>,
    pub cursor: nat,
}

impl View for OutputCursor {
    type V = OutputView;

    open spec fn view(&self) -> OutputView {
        OutputView {
            out: self.out@,
            indices: match self.output_indices {
                Some(indices) => Some(indices@),
                None => None,
            },
            cursor: self.cursor as nat,
        }
    }
}

impl OutputView {
    /// The slot that the next store takes, if the list of slots has one left.
    pub open spec fn next_slot(self) -> Option<int> {
        match self.indices {
            Some(indices) => if self.cursor < indices.len() {
                Some(indices[self.cursor as int] as int)
            } else {
                None
            },
            None => Some(self.cursor as int),
        }
    }

    /// The output after storing `value`, or why it cannot be stored.
    pub open spec fn store(self, value: Real) -> Result<OutputView, EvalErrorView> {
        match self.next_slot() {
            None => Err(row_error("StoreOutput exceeded scalar program output_indices"@)),
            Some(slot) => if slot < self.out.len() {
                Ok(
                    OutputView {
                        out: self.out.update(slot, value),
                        indices: self.indices,
                        cursor: self.cursor + 1,
                    },
                )
            } else if slot + 1 > usize::MAX {
                Err(row_error("scalar output index exceeds host limits"@))
            } else {
                Err(
                    EvalErrorView::OutputTooSmall {
                        required: (slot + 1) as usize,
                        len: self.out.len() as usize,
                        span: None,
                    },
                )
            },
        }
    }
}

impl OutputCursor {
    /// A cursor that fills the buffer in order.
    pub fn new(out: Vec<Real>) -> (c: OutputCursor)
        ensures
            c@ == (OutputView { out: out@, indices: None, cursor: 0 }),
    {
        OutputCursor { out, output_indices: None, cursor: 0 }
    }

    /// A cursor that fills the listed slots.
    pub fn with_output_indices(out: Vec<Real>, output_indices: Vec<usize>) -> (c: OutputCursor)
        ensures
            c@ == (OutputView { out: out@, indices: Some(output_indices@), cursor: 0 }),
    {
        OutputCursor { out, output_indices: Some(output_indices), cursor: 0 }
    }

    /// Stores a value in the next slot.
    pub fn store(&mut self, value: Real) -> (r: Result<(), EvalSolveError>)
        ensures
            match r {
                Ok(_) => old(self)@.store(value) == Ok::<OutputView, EvalErrorView>(final(self)@),
                Err(e) => old(self)@.store(value) == Err::<OutputView, EvalErrorView>(e@)
                    && final(self)@ == old(self)@,
            },
    {
        let slot: usize = match &self.output_indices {
            Some(indices) => {
                if self.cursor < indices.len() {
                    indices[self.cursor]
                } else {
                    return Err(
                        invalid_row(owned("StoreOutput exceeded scalar program output_indices")),
                    );
                }
            },
            None => self.cursor,
        };
        if slot < self.out.len() {
            self.out.set(slot, value);
            self.cursor = self.cursor + 1;
            Ok(())
        } else {
            match slot.checked_add(1) {
                Some(required) => Err(
                    EvalSolveError::OutputTooSmall { required, len: self.out.len(), span: None },
                ),
                None => Err(invalid_row(owned("scalar output index exceeds host limits"))),
            }
        }
    }
}

/// A stored value lands in the slot that was next, every other slot keeps its
/// value, and the cursor moves on by one.
pub proof fn law_store_fills_next_slot(before: OutputView, value: Real, after: OutputView, k: int)
    requires
        before.store(value) == Ok::<OutputView, EvalErrorView>(after),
        0 <= k < before.out.len(),
    ensures
        after.out.len() == before.out.len(),
        after.cursor == before.cursor + 1,
        before.next_slot() == Some(k) ==> after.out[k] == value,
        before.next_slot() != Some(k) ==> after.out[k] == before.out[k],
{
}

/// What a row reads besides its registers.
pub struct RowInput<'a> {
    pub y: &'a [Real],
    pub p: &'a [Real],
    pub t: Real,
    pub seed: Option<&'a [Real]>,
    pub source_span: Option<Span>,
}

/// The mathematical content of a [`RowInput`].
pub struct RowInputView {
    pub y: Seq<Real>,
    pub p: Seq<Real>,
    pub t: Real,
    pub seed: Option<Seq<Real>>,
    pub span: Option<Span>,
}

impl<'a> View for RowInput<'a> {
    type V = RowInputView;

    open spec fn view(&self) -> RowInputView {
        RowInputView {
            y: self.y@,
            p: self.p@,
            t: self.t,
            seed: match self.seed {
                Some(seed) => Some(seed@),
                None => None,
            },
            span: self.source_span,
        }
    }
}

/// Element `index` of an input vector, or the error that it is missing.
pub open spec fn input_at(
    vector: Seq<char>,
    values: Seq<Real>,
    index: int,
    span: Option<Span>,
) -> Result<Real, EvalErrorView> {
    if 0 <= index < values.len() {
        Ok(values[index])
    } else {
        Err(
            EvalErrorView::MissingInput {
                vector,
                index: index as usize,
                len: values.len() as usize,
                span,
            },
        )
    }
}

/// Element of an input vector.
pub fn read_input(vector: &'static str, values: &[Real], index: usize, span: Option<Span>) -> (r: Result<
    Real,
    EvalSolveError,
>)
    ensures
        match r {
            Ok(v) => input_at(vector@, values@, index as int, span) == Ok::<Real, EvalErrorView>(v),
            Err(e) => input_at(vector@, values@, index as int, span) == Err::<Real, EvalErrorView>(
                e@,
            ),
        },
{
    if index < values.len() {
        Ok(values[index])
    } else {
        Err(EvalSolveError::MissingInput { vector, index, len: values.len(), span })
    }
}

/// The error of a row that reads seeds where none were given.
pub open spec fn no_seed(index: usize, span: Option<Span>) -> EvalErrorView {
    EvalErrorView::MissingInput { vector: "seed"@, index, len: 0, span }
}

/// Registers of a row in progress, with the output they feed.
pub struct RowState {
    pub regs: Seq<Real>,
    pub ready: Seq<bool>,
    pub sink: OutputView,
}

/// Value of register `r`, or why it cannot be read.
pub open spec fn reg_at(s: RowState, r: Reg, span: Option<Span>) -> Result<Real, EvalErrorView> {
    if r >= s.regs.len() {
        Err(
            EvalErrorView::RegisterOutOfBounds {
                access: "read"@,
                register: r,
                len: s.regs.len() as usize,
                span,
            },
        )
    } else if !(r < s.ready.len() && s.ready[r as int]) {
        Err(EvalErrorView::UninitializedRegister { register: r, span })
    } else {
        Ok(s.regs[r as int])
    }
}

/// The state after writing register `r`, or why it cannot be written.
pub open spec fn reg_set(s: RowState, r: Reg, value: Real, span: Option<Span>) -> Result<
    RowState,
    EvalErrorView,
> {
    if r >= s.regs.len() {
        Err(
            EvalErrorView::RegisterOutOfBounds {
                access: "write"@,
                register: r,
                len: s.regs.len() as usize,
                span,
            },
        )
    } else {
        Ok(
            RowState {
                regs: s.regs.update(r as int, value),
                ready: if r < s.ready.len() {
                    s.ready.update(r as int, true)
                } else {
                    s.ready
                },
                sink: s.sink,
            },
        )
    }
}

/// Values of `len` registers from `start` on; the first that cannot be read
/// decides the error.
pub open spec fn regs_at(s: RowState, start: Reg, len: nat, span: Option<Span>) -> Result<
    Seq<Real>,
    EvalErrorView,
>
    decreases len,
{
    if len == 0 {
        Ok(Seq::empty())
    } else {
        match regs_at(s, start, (len - 1) as nat, span) {
            Err(e) => Err(e),
            Ok(values) => match reg_at(s, (start + len - 1) as Reg, span) {
                Err(e) => Err(e),
                Ok(v) => Ok(values.push(v)),
            },
        }
    }
}

/// Values of a register range that must have an index for each register.
pub open spec fn range_at(
    s: RowState,
    start: Reg,
    len: nat,
    kind: Seq<char>,
    span: Option<Span>,
) -> Result<Seq<Real>, EvalErrorView> {
    match range_error(start, len as int, kind) {
        Some(e) => Err(e.with_source_span(span)),
        None => regs_at(s, start, len, span),
    }
}

/// A number that the row needs computed.
#[allow(inconsistent_fields)]
pub enum ValueRequest {
    Unary { op: UnaryOp, arg: Real },
    Binary { op: BinaryOp, lhs: Real, rhs: Real },
    Compare { op: CompareOp, lhs: Real, rhs: Real },
    LinearSolve { matrix: Vec<Real>, rhs: Vec<Real>, component: usize },
    TableBounds { table_id: Real, max: bool },
    TableLookup { table_id: Real, column: Real, input: Real },
    TableLookupSlope { table_id: Real, column: Real, input: Real },
    TableNextEvent { table_id: Real, time: Real },
    RandomInitialState {
        generator: RandomGenerator,
        local_seed: Real,
        global_seed: Real,
        state_len: usize,
        state_index: usize,
    },
    RandomResult { generator: RandomGenerator, state: Vec<Real> },
    RandomState { generator: RandomGenerator, state: Vec<Real>, state_index: usize },
    ImpureRandomInit { seed: Real },
    ImpureRandom { id: Real, call_site: usize, t: Real },
    ImpureRandomInteger { id: Real, imin: Real, imax: Real, call_site: usize, t: Real },
}

/// The mathematical content of a [`ValueRequest`].
#[allow(inconsistent_fields)]
pub enum RequestView {
    Unary { op: UnaryOp, arg: Real },
    Binary { op: BinaryOp, lhs: Real, rhs: Real },
    Compare { op: CompareOp, lhs: Real, rhs: Real },
    LinearSolve { matrix: Seq<Real>, rhs: Seq<Real>, component: usize },
    TableBounds { table_id: Real, max: bool },
    TableLookup { table_id: Real, column: Real, input: Real },
    TableLookupSlope { table_id: Real, column: Real, input: Real },
    TableNextEvent { table_id: Real, time: Real },
    RandomInitialState {
        generator: RandomGenerator,
        local_seed: Real,
        global_seed: Real,
        state_len: usize,
        state_index: usize,
    },
    RandomResult { generator: RandomGenerator, state: Seq<Real> },
    RandomState { generator: RandomGenerator, state: Seq<Real>, state_index: usize },
    ImpureRandomInit { seed: Real },
    ImpureRandom { id: Real, call_site: usize, t: Real },
    ImpureRandomInteger { id: Real, imin: Real, imax: Real, call_site: usize, t: Real },
}

impl View for ValueRequest {
    type V = RequestView;

    open spec fn view(&self) -> RequestView {
        match *self {
            ValueRequest::Unary { op, arg } => RequestView::Unary { op, arg },
            ValueRequest::Binary { op, lhs, rhs } => RequestView::Binary { op, lhs, rhs },
            ValueRequest::Compare { op, lhs, rhs } => RequestView::Compare { op, lhs, rhs },
            ValueRequest::LinearSolve { matrix, rhs, component } => RequestView::LinearSolve {
                matrix: matrix@,
                rhs: rhs@,
                component,
            },
            ValueRequest::TableBounds { table_id, max } => RequestView::TableBounds {
                table_id,
                max,
            },
            ValueRequest::TableLookup { table_id, column, input } => RequestView::TableLookup {
                table_id,
                column,
                input,
            },
            ValueRequest::TableLookupSlope { table_id, column, input } =>
                RequestView::TableLookupSlope { table_id, column, input },
            ValueRequest::TableNextEvent { table_id, time } => RequestView::TableNextEvent {
                table_id,
                time,
            },
            ValueRequest::RandomInitialState {
                generator,
                local_seed,
                global_seed,
                state_len,
                state_index,
            } => RequestView::RandomInitialState {
                generator,
                local_seed,
                global_seed,
                state_len,
                state_index,
            },
            ValueRequest::RandomResult { generator, state } => RequestView::RandomResult {
                generator,
                state: state@,
            },
            ValueRequest::RandomState { generator, state, state_index } =>
                RequestView::RandomState { generator, state: state@, state_index },
            ValueRequest::ImpureRandomInit { seed } => RequestView::ImpureRandomInit { seed },
            ValueRequest::ImpureRandom { id, call_site, t } => RequestView::ImpureRandom {
                id,
                call_site,
                t,
            },
            ValueRequest::ImpureRandomInteger { id, imin, imax, call_site, t } =>
                RequestView::ImpureRandomInteger { id, imin, imax, call_site, t },
        }
    }
}

/// Vector that an indexed load reads.
#[derive(Clone, Copy, Debug, PartialEq, Eq, Structural)]
pub enum IndexedVector {
    P,
    Seed,
}

/// What is left to do after an instruction was looked at.
pub enum RowAction {
    /// Nothing: the instruction has run.
    Done,
    /// Compute a number and supply it for `dst`.
    Value { dst: Reg, request: ValueRequest },
    /// Turn a run-time index into a slot of a window and supply it for `dst`.
    Slot { dst: Reg, vector: IndexedVector, index: Real, base: usize, count: usize },
}

/// The effect of looking at an instruction.
pub enum StepView {
    Failed(EvalErrorView),
    Done(RowState),
    Value { dst: Reg, request: RequestView },
    Slot { dst: Reg, vector: IndexedVector, index: Real, base: usize, count: usize },
}

pub open spec fn step_set(s: RowState, dst: Reg, value: Real, span: Option<Span>) -> StepView {
    match reg_set(s, dst, value, span) {
        Ok(next) => StepView::Done(next),
        Err(e) => StepView::Failed(e),
    }
}

pub open spec fn step_load(
    s: RowState,
    dst: Reg,
    value: Result<Real, EvalErrorView>,
    span: Option<Span>,
) -> StepView {
    match value {
        Ok(v) => step_set(s, dst, v, span),
        Err(e) => StepView::Failed(e),
    }
}

/// Effect of an instruction that reads a table.
pub open spec fn table_step(s: RowState, op: LinearOp, span: Option<Span>) -> StepView {
    match op {
        LinearOp::TableBounds { dst, table_id, max } => match reg_at(s, table_id, span) {
            Err(e) => StepView::Failed(e),
            Ok(table_id) => StepView::Value {
                dst,
                request: RequestView::TableBounds { table_id, max },
            },
        },
        LinearOp::TableLookup { dst, table_id, column, input } => match reg_at(s, table_id, span) {
            Err(e) => StepView::Failed(e),
            Ok(table_id) => match reg_at(s, column, span) {
                Err(e) => StepView::Failed(e),
                Ok(column) => match reg_at(s, input, span) {
                    Err(e) => StepView::Failed(e),
                    Ok(input) => StepView::Value {
                        dst,
                        request: RequestView::TableLookup { table_id, column, input },
                    },
                },
            },
        },
        LinearOp::TableLookupSlope { dst, table_id, column, input } => match reg_at(
            s,
            table_id,
            span,
        ) {
            Err(e) => StepView::Failed(e),
            Ok(table_id) => match reg_at(s, column, span) {
                Err(e) => StepView::Failed(e),
                Ok(column) => match reg_at(s, input, span) {
                    Err(e) => StepView::Failed(e),
                    Ok(input) => StepView::Value {
                        dst,
                        request: RequestView::TableLookupSlope { table_id, column, input },
                    },
                },
            },
        },
        LinearOp::TableNextEvent { dst, table_id, time } => match reg_at(s, table_id, span) {
            Err(e) => StepView::Failed(e),
            Ok(table_id) => match reg_at(s, time, span) {
                Err(e) => StepView::Failed(e),
                Ok(time) => StepView::Value {
                    dst,
                    request: RequestView::TableNextEvent { table_id, time },
                },
            },
        },
        _ => StepView::Failed(
            EvalErrorView::InvalidLinearOp { helper: "table"@, op: linear_op_name_spec(op) },
        ),
    }
}

/// Effect of an instruction that draws random numbers.
pub open spec fn random_step(s: RowState, op: LinearOp, t: Real, span: Option<Span>) -> StepView {
    match op {
        LinearOp::RandomInitialState {
            dst,
            generator,
            local_seed,
            global_seed,
            state_len,
            state_index,
        } => match reg_at(s, local_seed, span) {
            Err(e) => StepView::Failed(e),
            Ok(local_seed) => match reg_at(s, global_seed, span) {
                Err(e) => StepView::Failed(e),
                Ok(global_seed) => StepView::Value {
                    dst,
                    request: RequestView::RandomInitialState {
                        generator,
                        local_seed,
                        global_seed,
                        state_len,
                        state_index,
                    },
                },
            },
        },
        LinearOp::RandomResult { dst, generator, state_start, state_len } => match range_at(
            s,
            state_start,
            state_len as nat,
            "random state"@,
            span,
        ) {
            Err(e) => StepView::Failed(e),
            Ok(state) => StepView::Value {
                dst,
                request: RequestView::RandomResult { generator, state },
            },
        },
        LinearOp::RandomState { dst, generator, state_start, state_len, state_index } =>
            match range_at(s, state_start, state_len as nat, "random state"@, span) {
            Err(e) => StepView::Failed(e),
            Ok(state) => StepView::Value {
                dst,
                request: RequestView::RandomState { generator, state, state_index },
            },
        },
        LinearOp::ImpureRandomInit { dst, seed } => match reg_at(s, seed, span) {
            Err(e) => StepView::Failed(e),
            Ok(seed) => StepView::Value { dst, request: RequestView::ImpureRandomInit { seed } },
        },
        LinearOp::ImpureRandom { dst, id, call_site } => match reg_at(s, id, span) {
            Err(e) => StepView::Failed(e),
            Ok(id) => StepView::Value {
                dst,
                request: RequestView::ImpureRandom { id, call_site, t },
            },
        },
        LinearOp::ImpureRandomInteger { dst, id, imin, imax, call_site } => match reg_at(
            s,
            id,
            span,
        ) {
            Err(e) => StepView::Failed(e),
            Ok(id) => match reg_at(s, imin, span) {
                Err(e) => StepView::Failed(e),
                Ok(imin) => match reg_at(s, imax, span) {
                    Err(e) => StepView::Failed(e),
                    Ok(imax) => StepView::Value {
                        dst,
                        request: RequestView::ImpureRandomInteger { id, imin, imax, call_site, t },
                    },
                },
            },
        },
        _ => StepView::Failed(
            EvalErrorView::InvalidLinearOp { helper: "random"@, op: linear_op_name_spec(op) },
        ),
    }
}

/// Effect of one component of a dense linear solve.
pub open spec fn linear_solve_step(
    s: RowState,
    dst: Reg,
    matrix_start: Reg,
    rhs_start: Reg,
    n: usize,
    component: usize,
    span: Option<Span>,
) -> StepView {
    if n * n > usize::MAX {
        StepView::Failed(
            row_error("linear solve matrix"@ + " size overflow"@).with_source_span(span),
        )
    } else {
        match range_at(s, matrix_start, (n * n) as nat, "linear solve matrix"@, span) {
            Err(e) => StepView::Failed(e),
            Ok(matrix) => match range_at(s, rhs_start, n as nat, "linear solve rhs"@, span) {
                Err(e) => StepView::Failed(e),
                Ok(rhs) => StepView::Value {
                    dst,
                    request: RequestView::LinearSolve { matrix, rhs, component },
                },
            },
        }
    }
}

/// Effect of one instruction.
#[verifier::opaque]
pub open spec fn step(s: RowState, input: RowInputView, op: LinearOp) -> StepView {
    let span = input.span;
    match op {
        LinearOp::Const { dst, value } => step_set(s, dst, value, span),
        LinearOp::LoadTime { dst } => step_set(s, dst, input.t, span),
        LinearOp::LoadY { dst, index } => step_load(
            s,
            dst,
            input_at("y"@, input.y, index as int, span),
            span,
        ),
        LinearOp::LoadP { dst, index } => step_load(
            s,
            dst,
            input_at("p"@, input.p, index as int, span),
            span,
        ),
        LinearOp::LoadIndexedP { dst, base, count, index } => match reg_at(s, index, span) {
            Err(e) => StepView::Failed(e),
            Ok(index) => StepView::Slot { dst, vector: IndexedVector::P, index, base, count },
        },
        LinearOp::LoadIndexedSeed { dst, base, count, index } => match input.seed {
            None => StepView::Failed(no_seed(base, span)),
            Some(_) => match reg_at(s, index, span) {
                Err(e) => StepView::Failed(e),
                Ok(index) => StepView::Slot {
                    dst,
                    vector: IndexedVector::Seed,
                    index,
                    base,
                    count,
                },
            },
        },
        LinearOp::LoadSeed { dst, index } => match input.seed {
            None => StepView::Failed(no_seed(index, span)),
            Some(seed) => step_load(s, dst, input_at("seed"@, seed, index as int, span), span),
        },
        LinearOp::Move { dst, src } => step_load(s, dst, reg_at(s, src, span), span),
        LinearOp::LinearSolveComponent { dst, matrix_start, rhs_start, n, component } =>
            linear_solve_step(s, dst, matrix_start, rhs_start, n, component, span),
        LinearOp::Unary { dst, op, arg } => match reg_at(s, arg, span) {
            Err(e) => StepView::Failed(e),
            Ok(arg) => StepView::Value { dst, request: RequestView::Unary { op, arg } },
        },
        LinearOp::Binary { dst, op, lhs, rhs } => match reg_at(s, lhs, span) {
            Err(e) => StepView::Failed(e),
            Ok(lhs) => match reg_at(s, rhs, span) {
                Err(e) => StepView::Failed(e),
                Ok(rhs) => StepView::Value { dst, request: RequestView::Binary { op, lhs, rhs } },
            },
        },
        LinearOp::Compare { dst, op, lhs, rhs } => match reg_at(s, lhs, span) {
            Err(e) => StepView::Failed(e),
            Ok(lhs) => match reg_at(s, rhs, span) {
                Err(e) => StepView::Failed(e),
                Ok(rhs) => StepView::Value { dst, request: RequestView::Compare { op, lhs, rhs } },
            },
        },
        LinearOp::Select { dst, cond, if_true, if_false } => match reg_at(s, cond, span) {
            Err(e) => StepView::Failed(e),
            Ok(cond) => step_load(
                s,
                dst,
                reg_at(
                    s,
                    if cond.is_zero_spec() {
                        if_false
                    } else {
                        if_true
                    },
                    span,
                ),
                span,
            ),
        },
        LinearOp::TableBounds { .. } => table_step(s, op, span),
        LinearOp::TableLookup { .. } => table_step(s, op, span),
        LinearOp::TableLookupSlope { .. } => table_step(s, op, span),
        LinearOp::TableNextEvent { .. } => table_step(s, op, span),
        LinearOp::RandomInitialState { .. } => random_step(s, op, input.t, span),
        LinearOp::RandomResult { .. } => random_step(s, op, input.t, span),
        LinearOp::RandomState { .. } => random_step(s, op, input.t, span),
        LinearOp::ImpureRandomInit { .. } => random_step(s, op, input.t, span),
        LinearOp::ImpureRandom { .. } => random_step(s, op, input.t, span),
        LinearOp::ImpureRandomInteger { .. } => random_step(s, op, input.t, span),
        LinearOp::StoreOutput { src } => match reg_at(s, src, span) {
            Err(e) => StepView::Failed(e),
            Ok(value) => match s.sink.store(value) {
                Err(e) => StepView::Failed(e),
                Ok(sink) => StepView::Done(RowState { regs: s.regs, ready: s.ready, sink }),
            },
        },
    }
}

/// Registers and output of a row that is being evaluated.
pub struct RowMachine {
    pub regs: Vec<Real>,
    pub initialized: Vec<bool>,
    pub sink: OutputCursor,
}

impl View for RowMachine {
    type V = RowState;

    open spec fn view(&self) -> RowState {
        RowState { regs: self.regs@, ready: self.initialized@, sink: self.sink@ }
    }
}

/// What a step did to the machine and what it left to do.
pub open spec fn step_result(
    before: RowState,
    after: RowState,
    result: Result<RowAction, EvalSolveError>,
    expected: StepView,
) -> bool {
    match result {
        Err(e) => expected == StepView::Failed(e@) && after == before,
        Ok(RowAction::Done) => expected == StepView::Done(after),
        Ok(RowAction::Value { dst, request }) => expected == (StepView::Value {
            dst,
            request: request@,
        }) && after == before,
        Ok(RowAction::Slot { dst, vector, index, base, count }) => expected == (StepView::Slot {
            dst,
            vector,
            index,
            base,
            count,
        }) && after == before,
    }
}

impl RowMachine {
    /// A machine with `register_count` registers, none of which holds a value.
    pub fn new(register_count: usize, sink: OutputCursor) -> (m: RowMachine)
        ensures
            m@ == (RowState {
                regs: Seq::new(register_count as nat, |i: int| Real::zero_spec()),
                ready: Seq::new(register_count as nat, |i: int| false),
                sink: sink@,
            }),
    {
        let mut regs: Vec<Real> = Vec::new();
        regs.resize(register_count, Real::zero());
        let mut initialized: Vec<bool> = Vec::new();
        initialized.resize(register_count, false);
        assert(regs@ =~= Seq::new(register_count as nat, |i: int| Real::zero_spec()));
        assert(initialized@ =~= Seq::new(register_count as nat, |i: int| false));
        RowMachine { regs, initialized, sink }
    }

    /// Value of a register.
    pub fn get(&self, reg: Reg, span: Option<Span>) -> (r: Result<Real, EvalSolveError>)
        ensures
            match r {
                Ok(v) => reg_at(self@, reg, span) == Ok::<Real, EvalErrorView>(v),
                Err(e) => reg_at(self@, reg, span) == Err::<Real, EvalErrorView>(e@),
            },
    {
        let index: usize = reg as usize;
        if index >= self.regs.len() {
            return Err(
                EvalSolveError::RegisterOutOfBounds {
                    access: "read",
                    register: reg,
                    len: self.regs.len(),
                    span,
                },
            );
        }
        if !(index < self.initialized.len() && self.initialized[index]) {
            return Err(EvalSolveError::UninitializedRegister { register: reg, span });
        }
        Ok(self.regs[index])
    }

    /// Supplies the number of register `reg`.
    pub fn set(&mut self, reg: Reg, value: Real, span: Option<Span>) -> (r: Result<
        (),
        EvalSolveError,
    >)
        ensures
            match r {
                Ok(_) => reg_set(old(self)@, reg, value, span) == Ok::<RowState, EvalErrorView>(
                    final(self)@,
                ),
                Err(e) => reg_set(old(self)@, reg, value, span) == Err::<RowState, EvalErrorView>(
                    e@,
                ) && final(self)@ == old(self)@,
            },
    {
        let index: usize = reg as usize;
        if index >= self.regs.len() {
            return Err(
                EvalSolveError::RegisterOutOfBounds {
                    access: "write",
                    register: reg,
                    len: self.regs.len(),
                    span,
                },
            );
        }
        self.regs.set(index, value);
        if index < self.initialized.len() {
            self.initialized.set(index, true);
        }
        Ok(())
    }

    /// Supplies the slot of an indexed load: the window element that its
    /// run-time index stands for.
    pub fn load_slot(
        &mut self,
        dst: Reg,
        vector: IndexedVector,
        slot: usize,
        input: &RowInput,
    ) -> (r: Result<(), EvalSolveError>)
        requires
            vector is Seed ==> input.seed is Some,
        ensures
            ({
                let value = match vector {
                    IndexedVector::P => input_at("p"@, input@.p, slot as int, input@.span),
                    IndexedVector::Seed => input_at(
                        "seed"@,
                        input@.seed->0,
                        slot as int,
                        input@.span,
                    ),
                };
                match r {
                    Ok(_) => step_load(old(self)@, dst, value, input@.span) == StepView::Done(
                        final(self)@,
                    ),
                    Err(e) => step_load(old(self)@, dst, value, input@.span) == StepView::Failed(e@)
                        && final(self)@ == old(self)@,
                }
            }),
    {
        let value: Real = match vector {
            IndexedVector::P => match read_input("p", input.p, slot, input.source_span) {
                Ok(v) => v,
                Err(e) => {
                    return Err(e);
                },
            },
            IndexedVector::Seed => match input.seed {
                Some(seed) => match read_input("seed", seed, slot, input.source_span) {
                    Ok(v) => v,
                    Err(e) => {
                        return Err(e);
                    },
                },
                None => Real::zero(),
            },
        };
        self.set(dst, value, input.source_span)
    }

    /// Values of a register range.
    pub fn read_reg_range(
        &self,
        start: Reg,
        len: usize,
        kind: &'static str,
        span: Option<Span>,
    ) -> (r: Result<Vec<Real>, EvalSolveError>)
        ensures
            match r {
                Ok(values) => range_at(self@, start, len as nat, kind@, span) == Ok::<
                    Seq<Real>,
                    EvalErrorView,
                >(values@),
                Err(e) => range_at(self@, start, len as nat, kind@, span) == Err::<
                    Seq<Real>,
                    EvalErrorView,
                >(e@),
            },
    {
        let last: Reg = match checked_reg_range_last(start, len, kind) {
            Ok(last) => last,
            Err(e) => {
                return Err(e.with_source_span(span));
            },
        };
        let mut values: Vec<Real> = Vec::new();
        let mut i: usize = 0;
        while i < len
            invariant
                i <= len,
                last == range_last(start, len as int),
                regs_at(self@, start, i as nat, span) == Ok::<Seq<Real>, EvalErrorView>(values@),
            decreases len - i,
        {
            let reg: Reg = start + i as u32;
            match self.get(reg, span) {
                Ok(v) => values.push(v),
                Err(e) => {
                    proof {
                        lemma_first_bad_register_decides(self@, start, i as nat + 1, len as nat, span);
                    }
                    return Err(e);
                },
            }
            i = i + 1;
        }
        Ok(values)
    }
}

/// The slot of a window that a rounded index stands for, which counts from zero: the
/// first slot for an index before the window, the last for one behind it.
pub open spec fn indexed_slot(index: int, base: int, count: int) -> int {
    if index <= 0 || count <= 0 {
        base
    } else if index >= count {
        base + count - 1
    } else {
        base + index
    }
}

/// The slot of a window that a rounded index stands for.
pub fn resolve_indexed_slot(index: i64, base: usize, count: usize) -> (slot: usize)
    requires
        base + count <= usize::MAX,
    ensures
        slot == indexed_slot(index as int, base as int, count as int),
        count > 0 ==> base <= slot < base + count,
{
    if index <= 0 || count == 0 {
        base
    } else if index as u64 >= count as u64 {
        base + (count - 1)
    } else {
        base + index as usize
    }
}

proof fn lemma_first_bad_register_decides(
    s: RowState,
    start: Reg,
    i: nat,
    len: nat,
    span: Option<Span>,
)
    requires
        i <= len,
        regs_at(s, start, i, span) is Err,
    ensures
        regs_at(s, start, len, span) == regs_at(s, start, i, span),
    decreases len,
{
    if i < len {
        lemma_first_bad_register_decides(s, start, i, (len - 1) as nat, span);
    }
}

} // verus!
