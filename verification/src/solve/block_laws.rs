//! What blocks do, said of their rows one after the other.
use crate::solve::block::{block_from, block_start, row_start, BlockStop, BlockView};
use crate::solve::error::EvalErrorView;
use crate::solve::inputs::ScalarProgramBlock;
use crate::solve::row::{step, OutputView, RowInputView, RowState, StepView};
use crate::solve::row_eval::{run_from, RunView};
use crate::solve::row_laws::{holds_value, law_rows_run_in_order, leads_through};
use vstd::prelude::*;

verus! {

/// Whether a row is about to start: none of its registers holds a value, and its output
/// is the one that it goes on with.
pub open spec fn is_clean(s: RowState, sink: OutputView) -> bool {
    &&& s.sink == sink
    &&& forall|r: u32| !#[trigger] holds_value(s, r)
}

/// A block that can start is at the first instruction of its first row, with no value in a
/// register, no output stored and all of the output zero. Its outputs go to the slots that
/// the block lists.
pub proof fn law_blocks_start_clean(
    block: ScalarProgramBlock,
    y_len: usize,
    p_len: usize,
    seed_len: Option<usize>,
    out_len: usize,
)
    ensures
        block_start(block, y_len, p_len, seed_len, out_len) matches Ok(at) ==> {
            &&& at.row == 0
            &&& at.next == 0
            &&& is_clean(at.state, at.state.sink)
            &&& at.state.sink.cursor == 0
            &&& at.state.sink.indices == Some(block.output_indices@)
            &&& at.state.sink.out.len() == out_len
            &&& forall|k: int| 0 <= k < out_len ==> (#[trigger] at.state.sink.out[k]).bits == 0
        },
{
}

/// What a row of a block is given: what the block is given, at the position of the row.
pub open spec fn given_to(
    block: ScalarProgramBlock,
    input: RowInputView,
    row: int,
) -> RowInputView {
    RowInputView {
        y: input.y,
        p: input.p,
        t: input.t,
        seed: input.seed,
        span: if 0 <= row < block.program_spans@.len() {
            Some(block.program_spans@[row])
        } else {
            None
        },
    }
}

/// Whether a row gets from one of its instructions to another, and from one state to
/// another, with nothing failing and nothing asked for.
pub open spec fn gets_to(
    block: ScalarProgramBlock,
    input: RowInputView,
    row: int,
    from: int,
    first: RowState,
    to: int,
    last: RowState,
) -> bool {
    exists|states: Seq<RowState>| #[trigger]
        leads_through(states, given_to(block, input, row), block.programs@[row]@, from)
            && states[0] == first && states.last() == last && from + states.len() - 1 == to
}

/// Whether a block went through as many rows as there are states here, from where it
/// stood on: each of them to its end, and each but the first from a clean start, with
/// the output that the one before it left.
pub open spec fn went_through(
    block: ScalarProgramBlock,
    input: RowInputView,
    at: BlockView,
    firsts: Seq<RowState>,
    lasts: Seq<RowState>,
) -> bool {
    &&& firsts.len() == lasts.len() + 1
    &&& firsts[0] == at.state
    &&& forall|k: int|
        0 <= k < lasts.len() ==> gets_to(
            block,
            input,
            at.row + k,
            if k == 0 {
                at.next
            } else {
                0
            },
            firsts[k],
            block.programs@[at.row + k]@.len() as int,
            #[trigger] lasts[k],
        )
    &&& forall|k: int|
        0 <= k < lasts.len() ==> is_clean(firsts[k + 1], (#[trigger] lasts[k]).sink)
}

/// Whether a block gets to an instruction of a row in a state.
pub open spec fn block_gets_to(
    block: ScalarProgramBlock,
    input: RowInputView,
    at: BlockView,
    row: int,
    next: int,
    state: RowState,
) -> bool {
    exists|firsts: Seq<RowState>, lasts: Seq<RowState>| #[trigger]
        went_through(block, input, at, firsts, lasts) && at.row + lasts.len() == row && gets_to(
            block,
            input,
            row,
            if row == at.row {
                at.next
            } else {
                0
            },
            firsts.last(),
            next,
            state,
        )
}

proof fn lemma_own_row(
    block: ScalarProgramBlock,
    input: RowInputView,
    at: BlockView,
    next: int,
    state: RowState,
)
    requires
        gets_to(block, input, at.row, at.next, at.state, next, state),
    ensures
        block_gets_to(block, input, at, at.row, next, state),
{
    let firsts = seq![at.state];
    let lasts = Seq::<RowState>::empty();
    assert(went_through(block, input, at, firsts, lasts));
    assert(firsts.last() == at.state);
}

proof fn lemma_later_row(
    block: ScalarProgramBlock,
    input: RowInputView,
    at: BlockView,
    mid: RowState,
    fresh: RowState,
    row: int,
    next: int,
    state: RowState,
)
    requires
        gets_to(
            block,
            input,
            at.row,
            at.next,
            at.state,
            block.programs@[at.row]@.len() as int,
            mid,
        ),
        is_clean(fresh, mid.sink),
        block_gets_to(
            block,
            input,
            BlockView { row: at.row + 1, next: 0, state: fresh },
            row,
            next,
            state,
        ),
    ensures
        block_gets_to(block, input, at, row, next, state),
{
    let after = BlockView { row: at.row + 1, next: 0, state: fresh };
    let (f, l) = choose|firsts: Seq<RowState>, lasts: Seq<RowState>| #[trigger]
        went_through(block, input, after, firsts, lasts) && after.row + lasts.len() == row
            && gets_to(block, input, row, 0, firsts.last(), next, state);
    let firsts = seq![at.state] + f;
    let lasts = seq![mid] + l;
    assert forall|k: int| 0 <= k < lasts.len() implies gets_to(
        block,
        input,
        at.row + k,
        if k == 0 {
            at.next
        } else {
            0
        },
        firsts[k],
        block.programs@[at.row + k]@.len() as int,
        #[trigger] lasts[k],
    ) && is_clean(firsts[k + 1], lasts[k].sink) by {
        if k == 0 {
            assert(firsts[1] == f[0]);
        } else {
            assert(lasts[k] == l[k - 1]);
            assert(firsts[k] == f[k - 1]);
            assert(firsts[k + 1] == f[(k - 1) + 1]);
            assert(after.row + (k - 1) == at.row + k);
        }
    }
    assert(went_through(block, input, at, firsts, lasts));
    assert(firsts.last() == f.last());
}

/// Whether a block that got to a state fails there: its next instruction fails, or, where
/// its row is through, the next row cannot start.
pub open spec fn fails_at(
    block: ScalarProgramBlock,
    input: RowInputView,
    row: int,
    next: int,
    state: RowState,
    e: EvalErrorView,
) -> bool {
    if next < block.programs@[row]@.len() {
        step(state, given_to(block, input, row), block.programs@[row]@[next]) == StepView::Failed(e)
    } else {
        row + 1 < block.programs@.len() && row_start(
            block.programs@[row + 1]@,
            given_to(block, input, row + 1).span,
            state.sink,
        ) == Err::<RowState, EvalErrorView>(e)
    }
}

/// A block runs its rows one after the other, each from a clean start, with the output that
/// the one before it left. It is through when the last row is, and its output is then the one
/// that the last row left. Otherwise it stops at the first instruction that fails or asks
/// for something, or at a row that cannot start.
pub proof fn law_rows_take_turns(block: ScalarProgramBlock, input: RowInputView, at: BlockView)
    requires
        0 <= at.row < block.programs@.len(),
        0 <= at.next <= block.programs@[at.row]@.len(),
    ensures
        match block_from(block, input, at) {
            BlockStop::Finished { out } => exists|state: RowState| #[trigger]
                block_gets_to(
                    block,
                    input,
                    at,
                    block.programs@.len() - 1,
                    block.programs@.last()@.len() as int,
                    state,
                ) && out == state.sink.out,
            BlockStop::Waiting { at: there, left } => {
                &&& at.row <= there.row < block.programs@.len()
                &&& 0 < there.next <= block.programs@[there.row]@.len()
                &&& block_gets_to(block, input, at, there.row, there.next - 1, there.state)
                &&& step(
                    there.state,
                    given_to(block, input, there.row),
                    block.programs@[there.row]@[there.next - 1],
                ) == left
                &&& !(left is Done) && !(left is Failed)
            },
            BlockStop::Failed(e) => exists|row: int, next: int, state: RowState|
                at.row <= row < block.programs@.len() && #[trigger] block_gets_to(
                    block,
                    input,
                    at,
                    row,
                    next,
                    state,
                ) && fails_at(block, input, row, next, state, e),
        },
    decreases block.programs@.len() - at.row,
{
    let ops = block.programs@[at.row]@;
    let given = given_to(block, input, at.row);
    assert(block.rows()[at.row] == ops);
    assert(given == crate::solve::block::input_of_row(block, input, at.row));
    law_rows_run_in_order(at.state, given, ops, at.next);
    match run_from(at.state, given, ops, at.next) {
        RunView::Failed { state, error } => {
            let states = choose|states: Seq<RowState>| #[trigger]
                leads_through(states, given, ops, at.next) && states[0] == at.state && states.last()
                    == state && at.next + states.len() - 1 < ops.len() && step(
                    state,
                    given,
                    ops[at.next + states.len() - 1],
                ) == StepView::Failed(error);
            let next = at.next + states.len() - 1;
            assert(gets_to(block, input, at.row, at.next, at.state, next, state));
            lemma_own_row(block, input, at, next, state);
            assert(fails_at(block, input, at.row, next, state, error));
        },
        RunView::Waiting { state, next, left } => {
            assert(gets_to(block, input, at.row, at.next, at.state, next - 1, state));
            lemma_own_row(block, input, at, next - 1, state);
        },
        RunView::Finished { state } => {
            assert(gets_to(block, input, at.row, at.next, at.state, ops.len() as int, state));
            lemma_own_row(block, input, at, ops.len() as int, state);
            if at.row + 1 < block.programs@.len() {
                assert(block.rows()[at.row + 1] == block.programs@[at.row + 1]@);
                match row_start(block.rows()[at.row + 1], block.span_of(at.row + 1), state.sink) {
                    Err(e) => {
                        assert(fails_at(block, input, at.row, ops.len() as int, state, e));
                    },
                    Ok(fresh) => {
                        let after = BlockView { row: at.row + 1, next: 0, state: fresh };
                        law_rows_take_turns(block, input, after);
                        match block_from(block, input, after) {
                            BlockStop::Finished { out } => {
                                let row = block.programs@.len() - 1;
                                let next = block.programs@.last()@.len() as int;
                                let end = choose|end: RowState| #[trigger]
                                    block_gets_to(block, input, after, row, next, end) && out
                                        == end.sink.out;
                                lemma_later_row(block, input, at, state, fresh, row, next, end);
                            },
                            BlockStop::Waiting { at: there, left } => {
                                lemma_later_row(
                                    block,
                                    input,
                                    at,
                                    state,
                                    fresh,
                                    there.row,
                                    there.next - 1,
                                    there.state,
                                );
                            },
                            BlockStop::Failed(e) => {
                                let (row, next, end) = choose|row: int, next: int, end: RowState|
                                    after.row <= row < block.programs@.len()
                                        && #[trigger] block_gets_to(
                                        block,
                                        input,
                                        after,
                                        row,
                                        next,
                                        end,
                                    ) && fails_at(block, input, row, next, end, e);
                                lemma_later_row(block, input, at, state, fresh, row, next, end);
                            },
                        }
                    },
                }
            }
        },
    }
}

} // verus!
