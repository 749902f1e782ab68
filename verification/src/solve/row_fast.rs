//! Unchecked stepping for rows that were checked once beforehand.
use crate::solve::error::{EvalErrorView, EvalSolveError, Real};
use crate::solve::inputs::{
    law_met_requirements_cover_loads, requirements_error, row_input_error, row_requirements,
};
use crate::solve::linear_op::{linear_op_name, LinearOp, Reg};
use crate::solve::registers::{
    flow_valid, is_register_count, law_ready_sources_hold_values, lemma_ready_before_step,
    mark_dst, op_names, op_range_error, range_last, range_ready, ready_before, row_range_error,
    sources_ready,
};
use crate::solve::row_eval::{run_from, run_result, RunView};
use crate::solve::row::{
    random_step, reg_at, regs_at, step, step_set, table_step, IndexedVector, RowAction, RowInput,
    RowInputView, RowMachine, RowState, StepView, ValueRequest,
};
use crate::span::Span;
use vstd::prelude::*;

verus! {

/// The same state with every register holding a value.
pub open spec fn all_ready(s: RowState) -> RowState {
    RowState { regs: s.regs, ready: Seq::new(s.regs.len(), |i: int| true), sink: s.sink }
}

/// Two outcomes that differ at most in which registers count as written.
pub open spec fn same_effect(a: StepView, b: StepView) -> bool {
    match (a, b) {
        (StepView::Done(x), StepView::Done(y)) => x.regs == y.regs && x.sink == y.sink,
        _ => a == b,
    }
}

/// What an unchecked step did to the machine and what it left to do.
pub open spec fn fast_result(
    before: RowState,
    after: RowState,
    result: Result<RowAction, EvalSolveError>,
    expected: StepView,
) -> bool {
    match result {
        Err(e) => expected == StepView::Failed(e@) && after == before,
        Ok(RowAction::Done) => after.ready == before.ready && (expected matches StepView::Done(
            next,
        ) && next.regs == after.regs && next.sink == after.sink),
        Ok(RowAction::Value { dst, request }) => expected == (StepView::Value {
            dst,
            request: request@,
        }) && after == before,
        Ok(RowAction::Slot { dst, vector, index, base, count }) => expected == (StepView::Slot {
            dst,
            vector,
            index,
            base,
            count,
        }) && after == before,
    }
}

/// Every register that the instruction names exists, and every direct load is
/// inside its vector.
pub open spec fn fits(op: LinearOp, regs: nat, input: RowInputView) -> bool {
    &&& op_range_error(op) is None
    &&& forall|r: int| op_names(op, r) ==> r < regs
    &&& op matches LinearOp::LoadY { index, .. } ==> index < input.y.len()
    &&& op matches LinearOp::LoadP { index, .. } ==> index < input.p.len()
    &&& op matches LinearOp::LoadSeed { index, .. } ==> (input.seed matches Some(seed) ==> index
        < seed.len())
}

proof fn lemma_ready_range_reads(s: RowState, start: Reg, len: nat, span: Option<Span>)
    requires
        start + len <= s.regs.len(),
        s.ready.len() == s.regs.len(),
        range_ready(s.ready, start, len as int),
        len == 0 || range_last(start, len as int) <= u32::MAX,
    ensures
        regs_at(s, start, len, span) == Ok::<Seq<Real>, EvalErrorView>(
            s.regs.subrange(start as int, start + len),
        ),
    decreases len,
{
    if len > 0 {
        lemma_ready_range_reads(s, start, (len - 1) as nat, span);
        assert(s.ready[start + len - 1]);
        assert(s.regs.subrange(start as int, start + len) =~= s.regs.subrange(
            start as int,
            start + len - 1,
        ).push(s.regs[start + len - 1]));
    } else {
        assert(s.regs.subrange(start as int, start as int) =~= Seq::empty());
    }
}

impl RowMachine {
    fn peek(&self, reg: Reg) -> (v: Real)
        requires
            reg < self@.regs.len(),
        ensures
            v == self@.regs[reg as int],
            reg_at(all_ready(self@), reg, None) == Ok::<Real, EvalErrorView>(v),
            forall|span: Option<Span>| #[trigger]
                reg_at(all_ready(self@), reg, span) == Ok::<Real, EvalErrorView>(v),
    {
        self.regs[reg as usize]
    }

    fn peek_range(&self, start: Reg, len: usize, Ghost(span): Ghost<Option<Span>>) -> (values: Vec<
        Real,
    >)
        requires
            range_last(start, len as int) < self@.regs.len(),
            range_last(start, len as int) <= u32::MAX,
        ensures
            values@ == self@.regs.subrange(start as int, start + len),
            regs_at(all_ready(self@), start, len as nat, span) == Ok::<Seq<Real>, EvalErrorView>(
                values@,
            ),
    {
        let mut values: Vec<Real> = Vec::new();
        let available: usize = self.regs.len();
        let mut i: usize = 0;
        while i < len
            invariant
                i <= len,
                available == self@.regs.len(),
                len > 0 ==> start + len <= self@.regs.len(),
                values@ == self@.regs.subrange(start as int, start + i),
            decreases len - i,
        {
            values.push(self.regs[start as usize + i]);
            i = i + 1;
            assert(values@ =~= self@.regs.subrange(start as int, start + i));
        }
        proof {
            assert(values@ =~= self@.regs.subrange(start as int, start + len));
            lemma_ready_range_reads(all_ready(self@), start, len as nat, span);
        }
        values
    }

    fn put(&mut self, reg: Reg, value: Real)
        requires
            reg < old(self)@.regs.len(),
        ensures
            final(self)@ == (RowState {
                regs: old(self)@.regs.update(reg as int, value),
                ready: old(self)@.ready,
                sink: old(self)@.sink,
            }),
            forall|span: Option<Span>|
                (#[trigger] step_set(all_ready(old(self)@), reg, value, span)) matches StepView::Done(
                    next,
                ) && next.regs == final(self)@.regs && next.sink == final(self)@.sink,
    {
        self.regs.set(reg as usize, value);
    }

    fn fast_table_op(&mut self, op: &LinearOp, input: &RowInput) -> (r: Result<
        RowAction,
        EvalSolveError,
    >)
        requires
            fits(*op, old(self)@.regs.len(), input@),
        ensures
            fast_result(
                old(self)@,
                final(self)@,
                r,
                table_step(all_ready(old(self)@), *op, input@.span),
            ),
    {
        match *op {
            LinearOp::TableBounds { dst, table_id, max } => {
                assert(op_names(*op, table_id as int));
                let table_id: Real = self.peek(table_id);
                Ok(RowAction::Value { dst, request: ValueRequest::TableBounds { table_id, max } })
            },
            LinearOp::TableLookup { dst, table_id, column, input } => {
                assert(op_names(*op, table_id as int) && op_names(*op, column as int) && op_names(
                    *op,
                    input as int,
                ));
                let table_id: Real = self.peek(table_id);
                let column: Real = self.peek(column);
                let input: Real = self.peek(input);
                Ok(
                    RowAction::Value {
                        dst,
                        request: ValueRequest::TableLookup { table_id, column, input },
                    },
                )
            },
            LinearOp::TableLookupSlope { dst, table_id, column, input } => {
                assert(op_names(*op, table_id as int) && op_names(*op, column as int) && op_names(
                    *op,
                    input as int,
                ));
                let table_id: Real = self.peek(table_id);
                let column: Real = self.peek(column);
                let input: Real = self.peek(input);
                Ok(
                    RowAction::Value {
                        dst,
                        request: ValueRequest::TableLookupSlope { table_id, column, input },
                    },
                )
            },
            LinearOp::TableNextEvent { dst, table_id, time } => {
                assert(op_names(*op, table_id as int) && op_names(*op, time as int));
                let table_id: Real = self.peek(table_id);
                let time: Real = self.peek(time);
                Ok(
                    RowAction::Value {
                        dst,
                        request: ValueRequest::TableNextEvent { table_id, time },
                    },
                )
            },
            _ => Err(EvalSolveError::InvalidLinearOp { helper: "table", op: linear_op_name(op) }),
        }
    }

    fn fast_random_op(&mut self, op: &LinearOp, input: &RowInput) -> (r: Result<
        RowAction,
        EvalSolveError,
    >)
        requires
            fits(*op, old(self)@.regs.len(), input@),
        ensures
            fast_result(
                old(self)@,
                final(self)@,
                r,
                random_step(all_ready(old(self)@), *op, input@.t, input@.span),
            ),
    {
        let t: Real = input.t;
        match *op {
            LinearOp::RandomInitialState {
                dst,
                generator,
                local_seed,
                global_seed,
                state_len,
                state_index,
            } => {
                assert(op_names(*op, local_seed as int) && op_names(*op, global_seed as int));
                let local_seed: Real = self.peek(local_seed);
                let global_seed: Real = self.peek(global_seed);
                Ok(
                    RowAction::Value {
                        dst,
                        request: ValueRequest::RandomInitialState {
                            generator,
                            local_seed,
                            global_seed,
                            state_len,
                            state_index,
                        },
                    },
                )
            },
            LinearOp::RandomResult { dst, generator, state_start, state_len } => {
                assert(op_names(*op, range_last(state_start, state_len as int)));
                let state: Vec<Real> = self.peek_range(state_start, state_len, Ghost(input@.span));
                Ok(
                    RowAction::Value {
                        dst,
                        request: ValueRequest::RandomResult { generator, state },
                    },
                )
            },
            LinearOp::RandomState { dst, generator, state_start, state_len, state_index } => {
                assert(op_names(*op, range_last(state_start, state_len as int)));
                let state: Vec<Real> = self.peek_range(state_start, state_len, Ghost(input@.span));
                Ok(
                    RowAction::Value {
                        dst,
                        request: ValueRequest::RandomState { generator, state, state_index },
                    },
                )
            },
            LinearOp::ImpureRandomInit { dst, seed } => {
                assert(op_names(*op, seed as int));
                let seed: Real = self.peek(seed);
                Ok(RowAction::Value { dst, request: ValueRequest::ImpureRandomInit { seed } })
            },
            LinearOp::ImpureRandom { dst, id, call_site } => {
                assert(op_names(*op, id as int));
                let id: Real = self.peek(id);
                Ok(
                    RowAction::Value {
                        dst,
                        request: ValueRequest::ImpureRandom { id, call_site, t },
                    },
                )
            },
            LinearOp::ImpureRandomInteger { dst, id, imin, imax, call_site } => {
                assert(op_names(*op, id as int) && op_names(*op, imin as int) && op_names(
                    *op,
                    imax as int,
                ));
                let id: Real = self.peek(id);
                let imin: Real = self.peek(imin);
                let imax: Real = self.peek(imax);
                Ok(
                    RowAction::Value {
                        dst,
                        request: ValueRequest::ImpureRandomInteger { id, imin, imax, call_site, t },
                    },
                )
            },
            _ => Err(EvalSolveError::InvalidLinearOp { helper: "random", op: linear_op_name(op) }),
        }
    }

    /// Looks at one instruction of a row whose registers and direct loads are
    /// known to exist: the outcome is that of the checked step on a register
    /// file in which everything holds a value, and no flags are kept.
    pub fn eval_op_fast(&mut self, op: LinearOp, input: &RowInput) -> (r: Result<
        RowAction,
        EvalSolveError,
    >)
        requires
            fits(op, old(self)@.regs.len(), input@),
        ensures
            fast_result(old(self)@, final(self)@, r, step(all_ready(old(self)@), input@, op)),
    {
        reveal(step);
        proof {
            if let Some(dst) = op.dst() {
                assert(op_names(op, dst as int));
            }
        }
        match op {
            LinearOp::Const { dst, value } => {
                self.put(dst, value);
                Ok(RowAction::Done)
            },
            LinearOp::LoadTime { dst } => {
                self.put(dst, input.t);
                Ok(RowAction::Done)
            },
            LinearOp::LoadY { dst, index } => {
                self.put(dst, input.y[index]);
                Ok(RowAction::Done)
            },
            LinearOp::LoadP { dst, index } => {
                self.put(dst, input.p[index]);
                Ok(RowAction::Done)
            },
            LinearOp::LoadIndexedP { dst, base, count, index } => {
                assert(op_names(op, index as int));
                let index: Real = self.peek(index);
                Ok(RowAction::Slot { dst, vector: IndexedVector::P, index, base, count })
            },
            LinearOp::LoadIndexedSeed { dst, base, count, index } => match input.seed {
                None => Err(
                    EvalSolveError::MissingInput {
                        vector: "seed",
                        index: base,
                        len: 0,
                        span: input.source_span,
                    },
                ),
                Some(_) => {
                    assert(op_names(op, index as int));
                    let index: Real = self.peek(index);
                    Ok(RowAction::Slot { dst, vector: IndexedVector::Seed, index, base, count })
                },
            },
            LinearOp::LoadSeed { dst, index } => match input.seed {
                None => Err(
                    EvalSolveError::MissingInput {
                        vector: "seed",
                        index,
                        len: 0,
                        span: input.source_span,
                    },
                ),
                Some(seed) => {
                    self.put(dst, seed[index]);
                    Ok(RowAction::Done)
                },
            },
            LinearOp::Move { dst, src } => {
                assert(op_names(op, src as int));
                let value: Real = self.peek(src);
                self.put(dst, value);
                Ok(RowAction::Done)
            },
            LinearOp::LinearSolveComponent { dst, matrix_start, rhs_start, n, component } => {
                assert(op_names(op, range_last(matrix_start, n * n)) && op_names(
                    op,
                    range_last(rhs_start, n as int),
                ));
                assert(n * n <= usize::MAX);
                let matrix: Vec<Real> = self.peek_range(matrix_start, n * n, Ghost(input@.span));
                let rhs: Vec<Real> = self.peek_range(rhs_start, n, Ghost(input@.span));
                Ok(
                    RowAction::Value {
                        dst,
                        request: ValueRequest::LinearSolve { matrix, rhs, component },
                    },
                )
            },
            LinearOp::Unary { dst, op: operator, arg } => {
                assert(op_names(op, arg as int));
                let arg: Real = self.peek(arg);
                Ok(RowAction::Value { dst, request: ValueRequest::Unary { op: operator, arg } })
            },
            LinearOp::Binary { dst, op: operator, lhs, rhs } => {
                assert(op_names(op, lhs as int) && op_names(op, rhs as int));
                let lhs: Real = self.peek(lhs);
                let rhs: Real = self.peek(rhs);
                Ok(
                    RowAction::Value {
                        dst,
                        request: ValueRequest::Binary { op: operator, lhs, rhs },
                    },
                )
            },
            LinearOp::Compare { dst, op: operator, lhs, rhs } => {
                assert(op_names(op, lhs as int) && op_names(op, rhs as int));
                let lhs: Real = self.peek(lhs);
                let rhs: Real = self.peek(rhs);
                Ok(
                    RowAction::Value {
                        dst,
                        request: ValueRequest::Compare { op: operator, lhs, rhs },
                    },
                )
            },
            LinearOp::Select { dst, cond, if_true, if_false } => {
                assert(op_names(op, cond as int) && op_names(op, if_true as int) && op_names(
                    op,
                    if_false as int,
                ));
                let cond: Real = self.peek(cond);
                let value: Real = if cond.is_zero() {
                    self.peek(if_false)
                } else {
                    self.peek(if_true)
                };
                self.put(dst, value);
                Ok(RowAction::Done)
            },
            LinearOp::TableBounds { .. } => self.fast_table_op(&op, input),
            LinearOp::TableLookup { .. } => self.fast_table_op(&op, input),
            LinearOp::TableLookupSlope { .. } => self.fast_table_op(&op, input),
            LinearOp::TableNextEvent { .. } => self.fast_table_op(&op, input),
            LinearOp::RandomInitialState { .. } => self.fast_random_op(&op, input),
            LinearOp::RandomResult { .. } => self.fast_random_op(&op, input),
            LinearOp::RandomState { .. } => self.fast_random_op(&op, input),
            LinearOp::ImpureRandomInit { .. } => self.fast_random_op(&op, input),
            LinearOp::ImpureRandom { .. } => self.fast_random_op(&op, input),
            LinearOp::ImpureRandomInteger { .. } => self.fast_random_op(&op, input),
            LinearOp::StoreOutput { src } => {
                assert(op_names(op, src as int));
                let value: Real = self.peek(src);
                match self.sink.store(value) {
                    Ok(_) => Ok(RowAction::Done),
                    Err(e) => Err(e),
                }
            },
        }
    }
}

/// Runs instructions from `i` on, each on a register file in which everything
/// holds a value, until one fails or leaves something to do.
pub open spec fn fast_run_from(
    s: RowState,
    input: RowInputView,
    row: Seq<LinearOp>,
    i: int,
) -> RunView
    decreases row.len() - i,
{
    if i < 0 || i >= row.len() {
        RunView::Finished { state: s }
    } else {
        match step(all_ready(s), input, row[i]) {
            StepView::Failed(error) => RunView::Failed { state: s, error },
            StepView::Done(next) => fast_run_from(
                RowState { regs: next.regs, ready: s.ready, sink: next.sink },
                input,
                row,
                i + 1,
            ),
            left => RunView::Waiting { state: s, next: i + 1, left },
        }
    }
}

proof fn lemma_step_keeps_register_count(s: RowState, input: RowInputView, op: LinearOp)
    ensures
        step(s, input, op) matches StepView::Done(next) ==> next.regs.len() == s.regs.len(),
{
    reveal(step);
}

impl RowMachine {
    /// Runs a row from instruction `next` on without register checks, until one
    /// leaves something to do or the row is through.
    pub fn eval_row_prepared_fast(
        &mut self,
        row: &[LinearOp],
        next: &mut usize,
        input: &RowInput,
    ) -> (r: Result<RowAction, EvalSolveError>)
        requires
            *old(next) <= row@.len(),
            forall|i: int|
                0 <= i < row@.len() ==> fits(#[trigger] row@[i], old(self)@.regs.len(), input@),
        ensures
            *final(next) <= row@.len(),
            run_result(
                final(self)@,
                *final(next) as int,
                row@.len() as int,
                r,
                fast_run_from(old(self)@, input@, row@, *old(next) as int),
            ),
    {
        let mut i: usize = *next;
        while i < row.len()
            invariant
                i <= row@.len(),
                self@.regs.len() == old(self)@.regs.len(),
                forall|k: int|
                    0 <= k < row@.len() ==> fits(#[trigger] row@[k], old(self)@.regs.len(), input@),
                fast_run_from(self@, input@, row@, i as int) == fast_run_from(
                    old(self)@,
                    input@,
                    row@,
                    *old(next) as int,
                ),
            decreases row.len() - i,
        {
            let ghost found = self@;
            let result = self.eval_op_fast(row[i], input);
            proof {
                lemma_step_keeps_register_count(all_ready(found), input@, row@[i as int]);
                assert(fast_result(
                    found,
                    self@,
                    result,
                    step(all_ready(found), input@, row@[i as int]),
                ));
            }
            i = i + 1;
            match result {
                Ok(RowAction::Done) => {},
                Ok(action) => {
                    *next = i;
                    return Ok(action);
                },
                Err(e) => {
                    *next = i;
                    return Err(e);
                },
            }
        }
        *next = i;
        Ok(RowAction::Done)
    }

    /// Runs a row from instruction `next` on, without register checks where the
    /// row was found safe and with them where it was not.
    pub fn eval_row_prepared_maybe_fast(
        &mut self,
        row: &[LinearOp],
        next: &mut usize,
        input: &RowInput,
        register_safe: bool,
    ) -> (r: Result<RowAction, EvalSolveError>)
        requires
            *old(next) <= row@.len(),
            register_safe ==> forall|i: int|
                0 <= i < row@.len() ==> fits(#[trigger] row@[i], old(self)@.regs.len(), input@),
        ensures
            *final(next) <= row@.len(),
            run_result(
                final(self)@,
                *final(next) as int,
                row@.len() as int,
                r,
                if register_safe {
                    fast_run_from(old(self)@, input@, row@, *old(next) as int)
                } else {
                    run_from(old(self)@, input@, row@, *old(next) as int)
                },
            ),
    {
        if register_safe {
            self.eval_row_prepared_fast(row, next, input)
        } else {
            self.eval_row_prepared_with_context(row, next, input)
        }
    }
}

/// An instruction whose sources hold values takes the same effect whether or
/// not the flags are consulted, and never fails for reading a register that
/// was not written.
pub proof fn law_ready_sources_need_no_flags(s: RowState, input: RowInputView, op: LinearOp)
    requires
        s.ready.len() == s.regs.len(),
        sources_ready(op, s.ready),
        op_range_error(op) is None,
    ensures
        same_effect(step(s, input, op), step(all_ready(s), input, op)),
        step(s, input, op) matches StepView::Failed(e) ==> !(e is UninitializedRegister),
{
    reveal(step);
    let span = input.span;
    assert forall|r: Reg| op.reads(r as int) implies #[trigger] reg_at(s, r, span) == reg_at(
        all_ready(s),
        r,
        span,
    ) && reg_at(s, r, span) is Ok by {
        law_ready_sources_hold_values(op, s.ready, r as int);
    }
    match op {
        LinearOp::LinearSolveComponent { matrix_start, rhs_start, n, .. } => {
            assert(n * n <= usize::MAX);
            lemma_ready_range_reads(s, matrix_start, (n * n) as nat, span);
            lemma_ready_range_reads(all_ready(s), matrix_start, (n * n) as nat, span);
            lemma_ready_range_reads(s, rhs_start, n as nat, span);
            lemma_ready_range_reads(all_ready(s), rhs_start, n as nat, span);
        },
        LinearOp::RandomResult { state_start, state_len, .. } => {
            lemma_ready_range_reads(s, state_start, state_len as nat, span);
            lemma_ready_range_reads(all_ready(s), state_start, state_len as nat, span);
        },
        LinearOp::RandomState { state_start, state_len, .. } => {
            lemma_ready_range_reads(s, state_start, state_len as nat, span);
            lemma_ready_range_reads(all_ready(s), state_start, state_len as nat, span);
        },
        _ => {},
    }
}

/// Before instruction `i` of a row with valid flow, the flags of a checked run
/// and no flags at all lead to the same effect.
pub proof fn law_valid_flow_needs_no_checks(
    s: RowState,
    input: RowInputView,
    row: Seq<LinearOp>,
    i: int,
)
    requires
        0 <= i < row.len(),
        flow_valid(row, s.regs.len()),
        row_range_error(row) is None,
        s.ready == ready_before(row, i, s.regs.len()),
    ensures
        same_effect(step(s, input, row[i]), step(all_ready(s), input, row[i])),
        step(s, input, row[i]) matches StepView::Failed(e) ==> !(e is UninitializedRegister),
{
    lemma_no_range_error_anywhere(row, i);
    law_ready_sources_need_no_flags(s, input, row[i]);
}

proof fn lemma_no_range_error_anywhere(row: Seq<LinearOp>, i: int)
    requires
        0 <= i < row.len(),
        row_range_error(row) is None,
    ensures
        op_range_error(row[i]) is None,
    decreases row.len(),
{
    if i < row.len() - 1 {
        assert(row.drop_last()[i] == row[i]);
        lemma_no_range_error_anywhere(row.drop_last(), i);
    }
}

/// A row whose registers were counted and whose input vectors were found long
/// enough can run without checks: every register that it names exists, and
/// every direct load is inside its vector.
pub proof fn law_checked_rows_fit(
    row: Seq<LinearOp>,
    count: nat,
    input: RowInputView,
    seed_len: Option<usize>,
    span: Option<Span>,
    i: int,
)
    requires
        0 <= i < row.len(),
        row_range_error(row) is None,
        is_register_count(row, count as int),
        row_input_error(row) is None,
        match input.seed {
            Some(seed) => seed_len == Some(seed.len() as usize) && seed.len() <= usize::MAX,
            None => seed_len is None,
        },
        requirements_error(
            row_requirements(row),
            input.y.len(),
            input.p.len(),
            seed_len,
            span,
        ) is None,
    ensures
        fits(row[i], count, input),
{
    lemma_no_range_error_anywhere(row, i);
    let seed: nat = match input.seed {
        Some(seed) => seed.len(),
        None => 0,
    };
    law_met_requirements_cover_loads(row, i, input.y.len(), input.p.len(), seed);
}

/// Two runs that stopped at the same place, for the same reason and with the
/// same registers and output; which registers count as written may differ.
pub open spec fn same_run(a: RunView, b: RunView) -> bool {
    match (a, b) {
        (
            RunView::Failed { state: x, error: e },
            RunView::Failed { state: y, error: f },
        ) => x.regs == y.regs && x.sink == y.sink && e == f,
        (RunView::Finished { state: x }, RunView::Finished { state: y }) => x.regs == y.regs
            && x.sink == y.sink,
        (
            RunView::Waiting { state: x, next: i, left: m },
            RunView::Waiting { state: y, next: j, left: n },
        ) => x.regs == y.regs && x.sink == y.sink && i == j && m == n,
        _ => false,
    }
}

proof fn lemma_done_step_marks_destination(s: RowState, input: RowInputView, op: LinearOp)
    requires
        s.ready.len() == s.regs.len(),
    ensures
        step(s, input, op) matches StepView::Done(next) ==> next.ready == mark_dst(op, s.ready)
            && next.regs.len() == s.regs.len(),
{
    reveal(step);
}

/// A row with valid flow runs the same with and without checks, from wherever
/// a checked run stands in it: the same registers, the same output, the same
/// request and the same error.
pub proof fn law_unchecked_run_is_checked_run(
    s: RowState,
    unflagged: RowState,
    input: RowInputView,
    row: Seq<LinearOp>,
    i: int,
)
    requires
        0 <= i <= row.len(),
        flow_valid(row, s.regs.len()),
        row_range_error(row) is None,
        s.ready == ready_before(row, i, s.regs.len()),
        unflagged.regs == s.regs,
        unflagged.sink == s.sink,
    ensures
        same_run(run_from(s, input, row, i), fast_run_from(unflagged, input, row, i)),
    decreases row.len() - i,
{
    if i < row.len() {
        law_valid_flow_needs_no_checks(s, input, row, i);
        lemma_done_step_marks_destination(s, input, row[i]);
        lemma_ready_before_step(row, i, s.regs.len());
        assert(all_ready(unflagged) == all_ready(s));
        let checked = step(s, input, row[i]);
        let unchecked = step(all_ready(s), input, row[i]);
        if let StepView::Done(next) = checked {
            let other = unchecked->Done_0;
            law_unchecked_run_is_checked_run(
                next,
                RowState { regs: other.regs, ready: unflagged.ready, sink: other.sink },
                input,
                row,
                i + 1,
            );
        }
    }
}

} // verus!
