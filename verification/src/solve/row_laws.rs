//! What instructions and rows do, said of registers, inputs and outputs alone.
use crate::solve::error::{EvalErrorView, Real};
use crate::solve::linear_op::{LinearOp, Reg};
use crate::solve::registers::range_error;
use crate::solve::row::{
    indexed_slot, range_at, reg_at, regs_at, step, IndexedVector, OutputView, RequestView, RowInputView, RowState,
    StepView,
};
use crate::solve::row_eval::{run_from, RunView};
use crate::span::Span;
use vstd::prelude::*;

verus! {

/// Whether a register is there and holds a value.
pub open spec fn holds_value(s: RowState, r: Reg) -> bool {
    r < s.regs.len() && r < s.ready.len() && s.ready[r as int]
}

/// Whether a register holds this value.
pub open spec fn holds(s: RowState, r: Reg, value: Real) -> bool {
    holds_value(s, r) && s.regs[r as int] == value
}

/// Whether so many registers from one on hold these values, one each.
pub open spec fn range_holds(s: RowState, start: Reg, values: Seq<Real>) -> bool {
    forall|i: int|
        0 <= i < values.len() ==> start + i <= u32::MAX && holds(
            s,
            (start + i) as Reg,
            #[trigger] values[i],
        )
}

/// Whether a request is the one that an instruction makes: it has the operator of the
/// instruction, and every operand is the value of the register that the instruction
/// names for it.
pub open spec fn is_request_of(
    op: LinearOp,
    s: RowState,
    t: Real,
    request: RequestView,
) -> bool {
    match op {
        LinearOp::Unary { op: o, arg: a, .. } => request matches RequestView::Unary { op, arg }
            && op == o && holds(s, a, arg),
        LinearOp::Binary { op: o, lhs: a, rhs: b, .. } => request matches RequestView::Binary {
            op,
            lhs,
            rhs,
        } && op == o && holds(s, a, lhs) && holds(s, b, rhs),
        LinearOp::Compare { op: o, lhs: a, rhs: b, .. } => request matches RequestView::Compare {
            op,
            lhs,
            rhs,
        } && op == o && holds(s, a, lhs) && holds(s, b, rhs),
        LinearOp::LinearSolveComponent { matrix_start, rhs_start, n, component: c, .. } => {
            request matches RequestView::LinearSolve { matrix, rhs, component } && matrix.len() == n
                * n && rhs.len() == n && component == c && range_holds(s, matrix_start, matrix)
                && range_holds(s, rhs_start, rhs)
        },
        LinearOp::TableBounds { table_id: a, max: m, .. } => request matches RequestView::TableBounds {
            table_id,
            max,
        } && holds(s, a, table_id) && max == m,
        LinearOp::TableLookup { table_id: a, column: b, input: c, .. } => {
            request matches RequestView::TableLookup { table_id, column, input } && holds(
                s,
                a,
                table_id,
            ) && holds(s, b, column) && holds(s, c, input)
        },
        LinearOp::TableLookupSlope { table_id: a, column: b, input: c, .. } => {
            request matches RequestView::TableLookupSlope { table_id, column, input } && holds(
                s,
                a,
                table_id,
            ) && holds(s, b, column) && holds(s, c, input)
        },
        LinearOp::TableNextEvent { table_id: a, time: b, .. } => {
            request matches RequestView::TableNextEvent { table_id, time } && holds(s, a, table_id)
                && holds(s, b, time)
        },
        LinearOp::RandomInitialState {
            generator: g,
            local_seed: a,
            global_seed: b,
            state_len: l,
            state_index: i,
            ..
        } => request matches RequestView::RandomInitialState {
            generator,
            local_seed,
            global_seed,
            state_len,
            state_index,
        } && generator == g && holds(s, a, local_seed) && holds(s, b, global_seed) && state_len == l
            && state_index == i,
        LinearOp::RandomResult { generator: g, state_start, state_len, .. } => {
            request matches RequestView::RandomResult { generator, state } && generator == g
                && state.len() == state_len && range_holds(s, state_start, state)
        },
        LinearOp::RandomState { generator: g, state_start, state_len, state_index: i, .. } => {
            request matches RequestView::RandomState { generator, state, state_index } && generator
                == g && state.len() == state_len && state_index == i && range_holds(
                s,
                state_start,
                state,
            )
        },
        LinearOp::ImpureRandomInit { seed: a, .. } => {
            request matches RequestView::ImpureRandomInit { seed } && holds(s, a, seed)
        },
        LinearOp::ImpureRandom { id: a, call_site: c, .. } => {
            request matches RequestView::ImpureRandom { id, call_site, t: at } && holds(s, a, id)
                && call_site == c && at == t
        },
        LinearOp::ImpureRandomInteger { id: a, imin: b, imax: c, call_site: site, .. } => {
            request matches RequestView::ImpureRandomInteger { id, imin, imax, call_site, t: at }
                && holds(s, a, id) && holds(s, b, imin) && holds(s, c, imax) && call_site == site
                && at == t
        },
        _ => false,
    }
}

/// Whether a number is zero, of whichever sign.
pub open spec fn is_nought(v: Real) -> bool {
    v.bits == 0 || v.bits == 0x8000_0000_0000_0000
}

/// Whether an output has a slot for the next value: where slots are listed, one is left.
pub open spec fn has_slot(sink: OutputView) -> bool {
    sink.indices matches Some(list) ==> sink.cursor < list.len()
}

/// The slot for the next value: where slots are listed, the one whose turn it is, and else
/// the one behind those that are filled.
pub open spec fn slot_of(sink: OutputView) -> int {
    match sink.indices {
        Some(list) => list[sink.cursor as int] as int,
        None => sink.cursor as int,
    }
}

/// Whether one register has been given a value and everything else is as it was.
pub open spec fn only_written(before: RowState, after: RowState, dst: Reg, value: Real) -> bool {
    &&& after.sink == before.sink
    &&& after.regs.len() == before.regs.len()
    &&& after.ready.len() == before.ready.len()
    &&& dst < after.regs.len()
    &&& after.regs[dst as int] == value
    &&& dst < after.ready.len() ==> after.ready[dst as int]
    &&& forall|r: int|
        0 <= r < before.regs.len() && r != dst ==> (#[trigger] after.regs[r]) == before.regs[r]
    &&& forall|r: int|
        0 <= r < before.ready.len() && r != dst ==> (#[trigger] after.ready[r]) == before.ready[r]
}

/// Whether an instruction that asks for nothing has done what it says.
pub open spec fn is_effect_of(
    op: LinearOp,
    before: RowState,
    input: RowInputView,
    after: RowState,
) -> bool {
    match op {
        LinearOp::Const { dst, value } => only_written(before, after, dst, value),
        LinearOp::LoadTime { dst } => only_written(before, after, dst, input.t),
        LinearOp::LoadY { dst, index } => index < input.y.len() && only_written(
            before,
            after,
            dst,
            input.y[index as int],
        ),
        LinearOp::LoadP { dst, index } => index < input.p.len() && only_written(
            before,
            after,
            dst,
            input.p[index as int],
        ),
        LinearOp::LoadSeed { dst, index } => input.seed matches Some(seed) && index < seed.len()
            && only_written(before, after, dst, seed[index as int]),
        LinearOp::Move { dst, src } => holds_value(before, src) && only_written(
            before,
            after,
            dst,
            before.regs[src as int],
        ),
        LinearOp::Select { dst, cond, if_true, if_false } => {
            &&& holds_value(before, cond)
            &&& is_nought(before.regs[cond as int]) ==> holds_value(before, if_false)
                && only_written(before, after, dst, before.regs[if_false as int])
            &&& !is_nought(before.regs[cond as int]) ==> holds_value(before, if_true)
                && only_written(before, after, dst, before.regs[if_true as int])
        },
        LinearOp::StoreOutput { src } => {
            &&& holds_value(before, src)
            &&& after.regs == before.regs
            &&& after.ready == before.ready
            &&& after.sink.cursor == before.sink.cursor + 1
            &&& after.sink.indices == before.sink.indices
            &&& after.sink.out.len() == before.sink.out.len()
            &&& has_slot(before.sink)
            &&& slot_of(before.sink) < after.sink.out.len()
            &&& after.sink.out[slot_of(before.sink)] == before.regs[src as int]
            &&& forall|k: int|
                0 <= k < after.sink.out.len() && k != slot_of(before.sink) ==> (
                #[trigger] after.sink.out[k]) == before.sink.out[k]
        },
        _ => false,
    }
}

/// Whether an indexed load asks for a slot of the window that it names, by the index in
/// the register that it names.
pub open spec fn is_window_of(
    op: LinearOp,
    s: RowState,
    input: RowInputView,
    vector: IndexedVector,
    index: Real,
    base: usize,
    count: usize,
) -> bool {
    match op {
        LinearOp::LoadIndexedP { base: b, count: c, index: i, .. } => vector is P && base == b
            && count == c && holds(s, i, index),
        LinearOp::LoadIndexedSeed { base: b, count: c, index: i, .. } => vector is Seed
            && input.seed is Some && base == b && count == c && holds(s, i, index),
        _ => false,
    }
}

/// What an instruction does, said of registers, inputs and outputs: it asks for what its
/// operands are, or does what it says, and in either case for the register it names.
pub proof fn law_instructions_do_what_they_say(s: RowState, input: RowInputView, op: LinearOp)
    ensures
        match step(s, input, op) {
            StepView::Failed(_) => true,
            StepView::Done(after) => is_effect_of(op, s, input, after),
            StepView::Value { dst, request } => op.dst() == Some(dst) && is_request_of(
                op,
                s,
                input.t,
                request,
            ),
            StepView::Slot { dst, vector, index, base, count } => op.dst() == Some(dst)
                && is_window_of(op, s, input, vector, index, base, count),
        },
{
    reveal(step);
    let span = input.span;
    match op {
        LinearOp::LinearSolveComponent { matrix_start, rhs_start, n, .. } => {
            if n * n <= usize::MAX {
                lemma_range_reads(s, matrix_start, (n * n) as nat, "linear solve matrix"@, span);
                lemma_range_reads(s, rhs_start, n as nat, "linear solve rhs"@, span);
            }
        },
        LinearOp::RandomResult { state_start, state_len, .. } => {
            lemma_range_reads(s, state_start, state_len as nat, "random state"@, span);
        },
        LinearOp::RandomState { state_start, state_len, .. } => {
            lemma_range_reads(s, state_start, state_len as nat, "random state"@, span);
        },
        _ => {},
    }
}

proof fn lemma_range_reads(
    s: RowState,
    start: Reg,
    len: nat,
    kind: Seq<char>,
    span: Option<Span>,
)
    ensures
        range_at(s, start, len, kind, span) matches Ok(values) ==> values.len() == len
            && range_holds(s, start, values),
{
    if range_error(start, len as int, kind) is None && regs_at(s, start, len, span) is Ok {
        if len > 0 {
            assert(start + len - 1 <= u32::MAX);
        }
        lemma_regs_read(s, start, len, span);
    }
}

proof fn lemma_regs_read(s: RowState, start: Reg, len: nat, span: Option<Span>)
    requires
        len == 0 || start + len - 1 <= u32::MAX,
        regs_at(s, start, len, span) is Ok,
    ensures
        regs_at(s, start, len, span)->Ok_0.len() == len,
        range_holds(s, start, regs_at(s, start, len, span)->Ok_0),
    decreases len,
{
    if len > 0 {
        lemma_regs_read(s, start, (len - 1) as nat, span);
        let front = regs_at(s, start, (len - 1) as nat, span)->Ok_0;
        let values = regs_at(s, start, len, span)->Ok_0;
        assert forall|i: int| 0 <= i < values.len() implies start + i <= u32::MAX && holds(
            s,
            (start + i) as Reg,
            #[trigger] values[i],
        ) by {
            if i < front.len() {
                assert(values[i] == front[i]);
            }
        }
    }
}

/// Whether nothing keeps an instruction from running: the registers that it reads hold
/// values, the one that it writes is there where it writes at once, and what it loads or
/// stores to is there.
pub open spec fn can_run(op: LinearOp, s: RowState, input: RowInputView) -> bool {
    match op {
        LinearOp::Const { dst, .. } => dst < s.regs.len(),
        LinearOp::LoadTime { dst } => dst < s.regs.len(),
        LinearOp::LoadY { dst, index } => dst < s.regs.len() && index < input.y.len(),
        LinearOp::LoadP { dst, index } => dst < s.regs.len() && index < input.p.len(),
        LinearOp::LoadSeed { dst, index } => dst < s.regs.len() && (input.seed matches Some(seed)
            && index < seed.len()),
        LinearOp::LoadIndexedP { index, .. } => holds_value(s, index),
        LinearOp::LoadIndexedSeed { index, .. } => input.seed is Some && holds_value(s, index),
        LinearOp::Move { dst, src } => dst < s.regs.len() && holds_value(s, src),
        LinearOp::Select { dst, cond, if_true, if_false } => {
            &&& dst < s.regs.len()
            &&& holds_value(s, cond)
            &&& is_nought(s.regs[cond as int]) ==> holds_value(s, if_false)
            &&& !is_nought(s.regs[cond as int]) ==> holds_value(s, if_true)
        },
        LinearOp::StoreOutput { src } => holds_value(s, src) && has_slot(s.sink) && slot_of(s.sink)
            < s.sink.out.len(),
        LinearOp::Unary { arg, .. } => holds_value(s, arg),
        LinearOp::Binary { lhs, rhs, .. } => holds_value(s, lhs) && holds_value(s, rhs),
        LinearOp::Compare { lhs, rhs, .. } => holds_value(s, lhs) && holds_value(s, rhs),
        LinearOp::TableBounds { table_id, .. } => holds_value(s, table_id),
        LinearOp::TableLookup { table_id, column, input, .. } => holds_value(s, table_id)
            && holds_value(s, column) && holds_value(s, input),
        LinearOp::TableLookupSlope { table_id, column, input, .. } => holds_value(s, table_id)
            && holds_value(s, column) && holds_value(s, input),
        LinearOp::TableNextEvent { table_id, time, .. } => holds_value(s, table_id) && holds_value(
            s,
            time,
        ),
        LinearOp::RandomInitialState { local_seed, global_seed, .. } => holds_value(s, local_seed)
            && holds_value(s, global_seed),
        LinearOp::ImpureRandomInit { seed, .. } => holds_value(s, seed),
        LinearOp::ImpureRandom { id, .. } => holds_value(s, id),
        LinearOp::ImpureRandomInteger { id, imin, imax, .. } => holds_value(s, id) && holds_value(
            s,
            imin,
        ) && holds_value(s, imax),
        LinearOp::LinearSolveComponent { matrix_start, rhs_start, n, .. } => n * n <= usize::MAX
            && range_readable(s, matrix_start, n * n) && range_readable(s, rhs_start, n as int),
        LinearOp::RandomResult { state_start, state_len, .. } => range_readable(
            s,
            state_start,
            state_len as int,
        ),
        LinearOp::RandomState { state_start, state_len, .. } => range_readable(
            s,
            state_start,
            state_len as int,
        ),
    }
}

/// Whether the register so many places behind another is there and holds a value.
pub open spec fn holds_behind(s: RowState, start: Reg, i: int) -> bool {
    start + i <= u32::MAX && holds_value(s, (start + i) as Reg)
}

/// Whether so many registers from one on hold values.
pub open spec fn range_readable(s: RowState, start: Reg, len: int) -> bool {
    forall|i: int| 0 <= i < len ==> #[trigger] holds_behind(s, start, i)
}

/// An instruction fails exactly where something keeps it from running.
pub proof fn law_instructions_fail_for_a_reason(s: RowState, input: RowInputView, op: LinearOp)
    ensures
        step(s, input, op) is Failed <==> !can_run(op, s, input),
{
    reveal(step);
    let span = input.span;
    match op {
        LinearOp::LinearSolveComponent { matrix_start, rhs_start, n, .. } => {
            if n * n <= usize::MAX {
                assert(0 <= n * n) by (nonlinear_arith)
                    requires
                        0 <= n,
                ;
                lemma_range_readable(
                    s,
                    matrix_start,
                    (n * n) as nat,
                    "linear solve matrix"@,
                    span,
                );
                lemma_range_readable(s, rhs_start, n as nat, "linear solve rhs"@, span);
            }
        },
        LinearOp::RandomResult { state_start, state_len, .. } => {
            lemma_range_readable(s, state_start, state_len as nat, "random state"@, span);
        },
        LinearOp::RandomState { state_start, state_len, .. } => {
            lemma_range_readable(s, state_start, state_len as nat, "random state"@, span);
        },
        _ => {},
    }
}

proof fn lemma_range_readable(
    s: RowState,
    start: Reg,
    len: nat,
    kind: Seq<char>,
    span: Option<Span>,
)
    ensures
        range_at(s, start, len, kind, span) is Ok <==> range_readable(s, start, len as int),
{
    if range_error(start, len as int, kind) is None {
        lemma_regs_readable(s, start, len, span);
    } else {
        assert(len > 0 && start + len - 1 > u32::MAX);
        let i = len - 1;
        assert(!holds_behind(s, start, i));
    }
}

proof fn lemma_regs_readable(s: RowState, start: Reg, len: nat, span: Option<Span>)
    requires
        len == 0 || start + len - 1 <= u32::MAX,
    ensures
        regs_at(s, start, len, span) is Ok <==> range_readable(s, start, len as int),
    decreases len,
{
    if len > 0 {
        lemma_regs_readable(s, start, (len - 1) as nat, span);
        if regs_at(s, start, len, span) is Ok {
            assert forall|i: int| 0 <= i < len implies #[trigger] holds_behind(s, start, i) by {
                if i < len - 1 {
                    assert(range_readable(s, start, len - 1));
                }
            }
        }
        if range_readable(s, start, len as int) {
            assert(holds_behind(s, start, len - 1));
            assert forall|i: int| 0 <= i < len - 1 implies #[trigger] holds_behind(s, start, i) by {}
        }
    }
}

/// Whether these are the states that instructions `from` and on lead through, one after
/// the other, none of them asking for anything.
pub open spec fn leads_through(
    states: Seq<RowState>,
    input: RowInputView,
    row: Seq<LinearOp>,
    from: int,
) -> bool {
    &&& states.len() > 0
    &&& 0 <= from
    &&& from + states.len() - 1 <= row.len()
    &&& forall|k: int|
        0 <= k < states.len() - 1 ==> step(
            #[trigger] states[k],
            input,
            row[from + k],
        ) == StepView::Done(states[k + 1])
}

/// A run goes through the instructions one after the other, each in the state that the
/// one before it left, from the one it starts with on. It is through when all have run,
/// and stops at the first that fails or asks for something.
pub proof fn law_rows_run_in_order(s: RowState, input: RowInputView, row: Seq<LinearOp>, i: int)
    requires
        0 <= i <= row.len(),
    ensures
        match run_from(s, input, row, i) {
            RunView::Finished { state } => exists|states: Seq<RowState>| #[trigger]
                leads_through(states, input, row, i) && states[0] == s && states.last() == state
                    && i + states.len() - 1 == row.len(),
            RunView::Failed { state, error } => exists|states: Seq<RowState>| #[trigger]
                leads_through(states, input, row, i) && states[0] == s && states.last() == state && i
                    + states.len() - 1 < row.len() && step(
                    state,
                    input,
                    row[i + states.len() - 1],
                ) == StepView::Failed(error),
            RunView::Waiting { state, next, left } => {
                &&& i < next <= row.len()
                &&& step(state, input, row[next - 1]) == left
                &&& !(left is Done) && !(left is Failed)
                &&& exists|states: Seq<RowState>| #[trigger]
                    leads_through(states, input, row, i) && states[0] == s && states.last() == state
                        && i + states.len() - 1 == next - 1
            },
        },
    decreases row.len() - i,
{
    let here = seq![s];
    assert(leads_through(here, input, row, i));
    if i < row.len() {
        if let StepView::Done(next) = step(s, input, row[i]) {
            law_rows_run_in_order(next, input, row, i + 1);
            let n: int = match run_from(s, input, row, i) {
                RunView::Finished { state } => row.len() as int,
                RunView::Waiting { state, next, left } => next - 1,
                RunView::Failed { state, error } => -1,
            };
            let end: RowState = match run_from(s, input, row, i) {
                RunView::Finished { state } => state,
                RunView::Waiting { state, next, left } => state,
                RunView::Failed { state, error } => state,
            };
            let rest: Seq<RowState> = if n >= 0 {
                choose|states: Seq<RowState>| #[trigger]
                    leads_through(states, input, row, i + 1) && states[0] == next && states.last()
                        == end && i + 1 + states.len() - 1 == n
            } else {
                choose|states: Seq<RowState>| #[trigger]
                    leads_through(states, input, row, i + 1) && states[0] == next && states.last()
                        == end && i + 1 + states.len() - 1 < row.len() && step(
                        end,
                        input,
                        row[i + 1 + states.len() - 1],
                    ) == StepView::Failed(run_from(s, input, row, i)->error)
            };
            let all = here + rest;
            assert forall|k: int| 0 <= k < all.len() - 1 implies step(
                #[trigger] all[k],
                input,
                row[i + k],
            ) == StepView::Done(all[k + 1]) by {
                if k > 0 {
                    assert(all[k] == rest[k - 1]);
                    assert(all[k + 1] == rest[k]);
                    assert(step(rest[k - 1], input, row[(i + 1) + (k - 1)]) == StepView::Done(
                        rest[k],
                    ));
                } else {
                    assert(all[1] == rest[0]);
                }
            }
            assert(leads_through(all, input, row, i));
            assert(all.last() == rest.last());
            assert(all[0] == s);
        }
    }
}

/// Whether an error says why an instruction cannot run, at the position of the row: which
/// register that it reads holds no value or is not there, or that the one it writes is
/// not there; which element that it loads is not there; that the slot for its output is
/// not there; or that what it names is out of all bounds.
pub open spec fn is_cause(e: EvalErrorView, s: RowState, input: RowInputView, op: LinearOp) -> bool {
    match e {
        EvalErrorView::UninitializedRegister { register, span } => span == input.span && register
            < s.regs.len() && !holds_value(s, register) && op.reads(register as int),
        EvalErrorView::RegisterOutOfBounds { access, register, len, span } => {
            &&& span == input.span
            &&& len == s.regs.len() as usize
            &&& register >= s.regs.len()
            &&& (access == "read"@ && op.reads(register as int)) || (access == "write"@ && op.dst()
                == Some(register))
        },
        EvalErrorView::MissingInput { vector, index, len, span } => span == input.span && match op {
            LinearOp::LoadY { index: i, .. } => vector == "y"@ && index == i && i >= input.y.len()
                && len == input.y.len() as usize,
            LinearOp::LoadP { index: i, .. } => vector == "p"@ && index == i && i >= input.p.len()
                && len == input.p.len() as usize,
            LinearOp::LoadSeed { index: i, .. } => vector == "seed"@ && index == i
                && match input.seed {
                Some(seed) => i >= seed.len() && len == seed.len() as usize,
                None => len == 0,
            },
            LinearOp::LoadIndexedSeed { base, .. } => vector == "seed"@ && index == base && len == 0
                && input.seed is None,
            _ => false,
        },
        EvalErrorView::OutputTooSmall { required, len, .. } => op is StoreOutput && has_slot(s.sink)
            && slot_of(s.sink) >= s.sink.out.len() && required == slot_of(s.sink) + 1 && len
            == s.sink.out.len() as usize,
        EvalErrorView::InvalidRow { .. } => match op {
            LinearOp::StoreOutput { .. } => !has_slot(s.sink) || slot_of(s.sink) + 1 > usize::MAX,
            LinearOp::LinearSolveComponent { matrix_start, rhs_start, n, .. } => n * n > usize::MAX
                || matrix_start + n * n > u32::MAX + 1 || rhs_start + n > u32::MAX + 1,
            LinearOp::RandomResult { state_start, state_len, .. } => state_start + state_len
                > u32::MAX + 1,
            LinearOp::RandomState { state_start, state_len, .. } => state_start + state_len
                > u32::MAX + 1,
            _ => false,
        },
        _ => false,
    }
}

proof fn lemma_reg_cause(s: RowState, input: RowInputView, op: LinearOp, r: Reg)
    requires
        op.reads(r as int),
    ensures
        reg_at(s, r, input.span) matches Err(e) ==> is_cause(e, s, input, op),
{
}

proof fn lemma_range_cause(
    s: RowState,
    input: RowInputView,
    op: LinearOp,
    start: Reg,
    len: nat,
    kind: Seq<char>,
)
    requires
        forall|r: int| start <= r < start + len ==> #[trigger] op.reads(r),
    ensures
        range_at(s, start, len, kind, input.span) matches Err(e) ==> is_cause(e, s, input, op) || (
        e is InvalidRow && start + len > u32::MAX + 1),
{
    if range_error(start, len as int, kind) is None {
        lemma_regs_cause(s, input, op, start, len);
    }
}

proof fn lemma_regs_cause(
    s: RowState,
    input: RowInputView,
    op: LinearOp,
    start: Reg,
    len: nat,
)
    requires
        len > 0 ==> start + len - 1 <= u32::MAX,
        forall|r: int| start <= r < start + len ==> #[trigger] op.reads(r),
    ensures
        regs_at(s, start, len, input.span) matches Err(e) ==> is_cause(e, s, input, op),
    decreases len,
{
    if len > 0 {
        lemma_regs_cause(s, input, op, start, (len - 1) as nat);
        assert(op.reads(start + len - 1));
        lemma_reg_cause(s, input, op, (start + len - 1) as Reg);
    }
}

proof fn lemma_solve_cause(s: RowState, input: RowInputView, op: LinearOp)
    requires
        op is LinearSolveComponent,
    ensures
        step(s, input, op) matches StepView::Failed(e) ==> is_cause(e, s, input, op),
{
    reveal(step);
    if let LinearOp::LinearSolveComponent { matrix_start, rhs_start, n, .. } = op {
        if n * n <= usize::MAX {
            assert(0 <= n * n) by (nonlinear_arith)
                requires
                    0 <= n,
            ;
            lemma_range_cause(
                s,
                input,
                op,
                matrix_start,
                (n * n) as nat,
                "linear solve matrix"@,
            );
            lemma_range_cause(s, input, op, rhs_start, n as nat, "linear solve rhs"@);
        }
    }
}

proof fn lemma_drawing_cause(s: RowState, input: RowInputView, op: LinearOp)
    requires
        op is RandomResult || op is RandomState,
    ensures
        step(s, input, op) matches StepView::Failed(e) ==> is_cause(e, s, input, op),
{
    reveal(step);
    match op {
        LinearOp::RandomResult { state_start, state_len, .. } => {
            lemma_range_cause(s, input, op, state_start, state_len as nat, "random state"@);
        },
        LinearOp::RandomState { state_start, state_len, .. } => {
            lemma_range_cause(s, input, op, state_start, state_len as nat, "random state"@);
        },
        _ => {},
    }
}

proof fn lemma_load_cause(s: RowState, input: RowInputView, op: LinearOp)
    requires
        op is Const || op is LoadTime || op is LoadY || op is LoadP || op is LoadSeed || op is LoadIndexedP || op is LoadIndexedSeed || op is Move,
    ensures
        step(s, input, op) matches StepView::Failed(e) ==> is_cause(e, s, input, op),
{
    reveal(step);
}

proof fn lemma_arithmetic_cause(s: RowState, input: RowInputView, op: LinearOp)
    requires
        op is Unary || op is Binary || op is Compare || op is Select || op is StoreOutput,
    ensures
        step(s, input, op) matches StepView::Failed(e) ==> is_cause(e, s, input, op),
{
    reveal(step);
}

proof fn lemma_table_cause(s: RowState, input: RowInputView, op: LinearOp)
    requires
        op is TableBounds || op is TableLookup || op is TableLookupSlope || op is TableNextEvent,
    ensures
        step(s, input, op) matches StepView::Failed(e) ==> is_cause(e, s, input, op),
{
    reveal(step);
}

proof fn lemma_number_cause(s: RowState, input: RowInputView, op: LinearOp)
    requires
        op is RandomInitialState || op is ImpureRandomInit || op is ImpureRandom || op is ImpureRandomInteger,
    ensures
        step(s, input, op) matches StepView::Failed(e) ==> is_cause(e, s, input, op),
{
    reveal(step);
}

/// An instruction that fails says why.
pub proof fn law_failures_name_their_cause(s: RowState, input: RowInputView, op: LinearOp)
    ensures
        step(s, input, op) matches StepView::Failed(e) ==> is_cause(e, s, input, op),
{
    if op is LinearSolveComponent {
        lemma_solve_cause(s, input, op);
    } else if op is RandomResult || op is RandomState {
        lemma_drawing_cause(s, input, op);
    } else if op is TableBounds || op is TableLookup || op is TableLookupSlope || op is TableNextEvent {
        lemma_table_cause(s, input, op);
    } else if op is Unary || op is Binary || op is Compare || op is Select || op is StoreOutput {
        lemma_arithmetic_cause(s, input, op);
    } else if op is RandomInitialState || op is ImpureRandomInit || op is ImpureRandom
        || op is ImpureRandomInteger {
        lemma_number_cause(s, input, op);
    } else {
        lemma_load_cause(s, input, op);
    }
}

/// How far an index is from a place of a window.
pub open spec fn distance(index: int, place: int) -> int {
    if index < place {
        place - index
    } else {
        index - place
    }
}

/// An indexed load goes to the slot of its window that is nearest to its index.
pub proof fn law_indexed_loads_go_to_the_nearest_slot(index: int, base: int, count: int, k: int)
    requires
        0 <= k < count,
    ensures
        base <= indexed_slot(index, base, count) < base + count,
        distance(index, indexed_slot(index, base, count) - base) <= distance(index, k),
{
}

} // verus!
