//! Running the programs of a block one after the other.
use crate::solve::error::{EvalErrorView, EvalSolveError, Real};
use crate::solve::inputs::{
    block_io_error, requirements_error, row_input_error, row_requirements, validate_row_inputs,
    validate_scalar_program_block_io, ScalarProgramBlock,
};
use crate::solve::linear_op::{LinearOp, Reg};
use crate::solve::registers::{
    is_register_count, op_names, required_registers, row_error, row_range_error,
};
use crate::solve::row::{
    input_at, reg_set, step_load, IndexedVector, OutputCursor, OutputView, RowAction, RowInput,
    RowInputView, RowMachine, RowState, StepView,
};
use crate::solve::row_eval::{run_from, RunView};
use crate::span::Span;
use crate::text::nat_text;
use vstd::prelude::*;

verus! {

/// Number of registers that a row needs.
pub open spec fn register_count(row: Seq<LinearOp>) -> int {
    choose|count: int| is_register_count(row, count)
}

proof fn lemma_register_count(row: Seq<LinearOp>, count: int)
    requires
        is_register_count(row, count),
    ensures
        register_count(row) == count,
{
    let other = register_count(row);
    assert(is_register_count(row, other));
    if row.len() > 0 {
        let i = choose|i: int| 0 <= i < row.len() && op_names(#[trigger] row[i], count - 1);
        assert(op_names(row[i], count - 1));
        let j = choose|j: int| 0 <= j < row.len() && op_names(#[trigger] row[j], other - 1);
        assert(op_names(row[j], other - 1));
    }
}

/// The state in which a row starts, or why it cannot start.
pub open spec fn row_start(row: Seq<LinearOp>, span: Option<Span>, sink: OutputView) -> Result<
    RowState,
    EvalErrorView,
> {
    match row_range_error(row) {
        Some(e) => Err(e.with_source_span(span)),
        None => if register_count(row) > usize::MAX {
            Err(
                row_error(
                    "register index "@ + nat_text(usize::MAX as nat)
                        + " overflows register count"@,
                ).with_source_span(span),
            )
        } else {
            Ok(
                RowState {
                    regs: Seq::new(register_count(row) as nat, |i: int| Real::zero_spec()),
                    ready: Seq::new(register_count(row) as nat, |i: int| false),
                    sink,
                },
            )
        },
    }
}

fn start_row(row: &Vec<LinearOp>, span: Option<Span>, sink: OutputCursor) -> (r: Result<
    RowMachine,
    EvalSolveError,
>)
    ensures
        match r {
            Ok(machine) => row_start(row@, span, sink@) == Ok::<_, EvalErrorView>(machine@),
            Err(e) => row_start(row@, span, sink@) == Err::<RowState, _>(e@),
        },
{
    match required_registers(row.as_slice()) {
        Ok(count) => {
            proof {
                lemma_register_count(row@, count as int);
            }
            Ok(RowMachine::new(count, sink))
        },
        Err(e) => {
            proof {
                if row_range_error(row@) is None {
                    lemma_register_count(row@, usize::MAX + 1);
                }
            }
            Err(e.with_source_span(span))
        },
    }
}

/// The state in which a row of its own starts, with one slot for its output, or
/// why it cannot start.
pub open spec fn single_row_start(
    row: Seq<LinearOp>,
    y_len: usize,
    p_len: usize,
    seed_len: Option<usize>,
) -> Result<RowState, EvalErrorView> {
    let sink = OutputView { out: seq![Real::zero_spec()], indices: None, cursor: 0 };
    if row_input_error(row) is Some {
        Err(row_input_error(row)->0)
    } else {
        match requirements_error(
            row_requirements(row),
            y_len as nat,
            p_len as nat,
            seed_len,
            None,
        ) {
            Some(e) => Err(e),
            None => row_start(row, None, sink),
        }
    }
}

/// Checks the vectors of a row of its own and starts it.
pub fn start_single_row(
    row: &Vec<LinearOp>,
    y_len: usize,
    p_len: usize,
    seed_len: Option<usize>,
) -> (r: Result<RowMachine, EvalSolveError>)
    ensures
        match r {
            Ok(machine) => single_row_start(row@, y_len, p_len, seed_len) == Ok::<
                _,
                EvalErrorView,
            >(machine@),
            Err(e) => single_row_start(row@, y_len, p_len, seed_len) == Err::<RowState, _>(e@),
        },
{
    match validate_row_inputs(row.as_slice(), y_len, p_len, seed_len) {
        Ok(_) => {},
        Err(e) => {
            return Err(e);
        },
    }
    let mut out: Vec<Real> = Vec::new();
    out.push(Real::zero());
    assert(out@ =~= seq![Real::zero_spec()]);
    start_row(row, None, OutputCursor::new(out))
}

/// Where a block stands: the row, the next instruction in it, and its registers.
pub struct BlockRun {
    pub row: usize,
    pub next: usize,
    pub machine: RowMachine,
}

pub struct BlockView {
    pub row: int,
    pub next: int,
    pub state: RowState,
}

impl View for BlockRun {
    type V = BlockView;

    open spec fn view(&self) -> BlockView {
        BlockView { row: self.row as int, next: self.next as int, state: self.machine@ }
    }
}

/// How far a block got.
pub enum BlockStop {
    Failed(EvalErrorView),
    /// All rows are through.
    Finished { out: Seq<Real> },
    /// An instruction left something to do.
    Waiting { at: BlockView, left: StepView },
}

/// The input of a row, at its source position.
pub open spec fn input_of_row(
    block: ScalarProgramBlock,
    input: RowInputView,
    row: int,
) -> RowInputView {
    RowInputView { span: block.span_of(row), ..input }
}

/// Runs a block from where it stands until an instruction fails or leaves
/// something to do, or all rows are through. The rows share one output: each goes
/// on where the one before it stopped storing.
pub open spec fn block_from(block: ScalarProgramBlock, input: RowInputView, at: BlockView) -> BlockStop
    decreases block.rows().len() - at.row,
{
    if at.row < 0 || at.row >= block.rows().len() {
        BlockStop::Finished { out: at.state.sink.out }
    } else {
        match run_from(at.state, input_of_row(block, input, at.row), block.rows()[at.row], at.next) {
            RunView::Failed { state, error } => BlockStop::Failed(error),
            RunView::Waiting { state, next, left } => BlockStop::Waiting {
                at: BlockView { row: at.row, next, state },
                left,
            },
            RunView::Finished { state } => if at.row + 1 >= block.rows().len() {
                BlockStop::Finished { out: state.sink.out }
            } else {
                match row_start(
                    block.rows()[at.row + 1],
                    block.span_of(at.row + 1),
                    state.sink,
                ) {
                    Err(e) => BlockStop::Failed(e),
                    Ok(state) => block_from(
                        block,
                        input,
                        BlockView { row: at.row + 1, next: 0, state },
                    ),
                }
            },
        }
    }
}

/// The output of a block before it runs.
pub open spec fn fresh_output(block: ScalarProgramBlock, out_len: usize) -> OutputView {
    OutputView {
        out: Seq::new(out_len as nat, |i: int| Real::zero_spec()),
        indices: Some(block.output_indices@),
        cursor: 0,
    }
}

/// Where a block starts, or why it cannot start.
pub open spec fn block_start(
    block: ScalarProgramBlock,
    y_len: usize,
    p_len: usize,
    seed_len: Option<usize>,
    out_len: usize,
) -> Result<BlockView, EvalErrorView> {
    match block_io_error(block, y_len as nat, p_len as nat, seed_len, out_len) {
        Some(e) => Err(e),
        None => if block.rows().len() == 0 {
            Ok(
                BlockView {
                    row: 0,
                    next: 0,
                    state: RowState {
                        regs: Seq::new(0, |i: int| Real::zero_spec()),
                        ready: Seq::new(0, |i: int| false),
                        sink: fresh_output(block, out_len),
                    },
                },
            )
        } else {
            match row_start(block.rows()[0], block.span_of(0), fresh_output(block, out_len)) {
                Ok(state) => Ok(BlockView { row: 0, next: 0, state }),
                Err(e) => Err(e),
            }
        },
    }
}

/// What is left to do when a block stops.
pub enum BlockAction {
    Finished,
    Left(RowAction),
}

/// Whether a block stopped as expected.
pub open spec fn block_result(
    after: BlockView,
    result: Result<BlockAction, EvalSolveError>,
    expected: BlockStop,
) -> bool {
    match result {
        Err(e) => expected == BlockStop::Failed(e@),
        Ok(BlockAction::Finished) => expected == (BlockStop::Finished {
            out: after.state.sink.out,
        }),
        Ok(BlockAction::Left(RowAction::Value { dst, request })) => expected == (
        BlockStop::Waiting { at: after, left: StepView::Value { dst, request: request@ } }),
        Ok(BlockAction::Left(RowAction::Slot { dst, vector, index, base, count })) => expected == (
        BlockStop::Waiting { at: after, left: StepView::Slot { dst, vector, index, base, count } }),
        Ok(BlockAction::Left(RowAction::Done)) => false,
    }
}

fn copy_indices(list: &Vec<usize>) -> (r: Vec<usize>)
    ensures
        r@ == list@,
{
    let mut r: Vec<usize> = Vec::new();
    let mut i: usize = 0;
    while i < list.len()
        invariant
            i <= list@.len(),
            r@ == list@.take(i as int),
        decreases list.len() - i,
    {
        r.push(list[i]);
        i = i + 1;
        assert(list@.take(i as int) =~= list@.take(i - 1).push(list@[i - 1]));
    }
    assert(list@.take(i as int) =~= list@);
    r
}

impl BlockRun {
    /// The block is at one of its rows, or through.
    pub open spec fn wf(self, block: ScalarProgramBlock) -> bool {
        self.row < block.programs@.len() ==> self.next <= block.programs@[self.row as int]@.len()
    }

    /// Checks the vectors of a block and sets its output to zero.
    pub fn start(
        block: &ScalarProgramBlock,
        y_len: usize,
        p_len: usize,
        seed_len: Option<usize>,
        out_len: usize,
    ) -> (r: Result<BlockRun, EvalSolveError>)
        ensures
            match r {
                Ok(run) => run.wf(*block) && block_start(*block, y_len, p_len, seed_len, out_len)
                    == Ok::<_, EvalErrorView>(run@),
                Err(e) => block_start(*block, y_len, p_len, seed_len, out_len) == Err::<
                    BlockView,
                    _,
                >(e@),
            },
    {
        match validate_scalar_program_block_io(block, y_len, p_len, seed_len, out_len) {
            Ok(_) => {},
            Err(e) => {
                return Err(e);
            },
        }
        let mut out: Vec<Real> = Vec::new();
        out.resize(out_len, Real::zero());
        assert(out@ =~= Seq::new(out_len as nat, |i: int| Real::zero_spec()));
        let sink = OutputCursor::with_output_indices(out, copy_indices(&block.output_indices));
        if block.programs.len() == 0 {
            return Ok(BlockRun { row: 0, next: 0, machine: RowMachine::new(0, sink) });
        }
        assert(block.rows()[0] == block.programs@[0]@);
        match start_row(&block.programs[0], block.program_span(0), sink) {
            Ok(machine) => Ok(BlockRun { row: 0, next: 0, machine }),
            Err(e) => Err(e),
        }
    }

    /// Goes on until an instruction leaves something to do or the block is
    /// through.
    pub fn advance(self, block: &ScalarProgramBlock, input: &RowInput) -> (r: (
        Option<BlockRun>,
        Result<BlockAction, EvalSolveError>,
    ))
        requires
            self.wf(*block),
        ensures
            r.0 is Some == r.1 is Ok,
            r.0 is Some ==> r.0->0.wf(*block),
            block_result(
                match r.0 {
                    Some(run) => run@,
                    None => self@,
                },
                r.1,
                block_from(*block, input@, self@),
            ),
    {
        let ghost expected = block_from(*block, input@, self@);
        let mut run = self;
        while run.row < block.programs.len()
            invariant
                run.wf(*block),
                expected == block_from(*block, input@, run@),
                expected == block_from(*block, input@, self@),
            decreases block.programs@.len() - run.row,
        {
            let ghost at = run@;
            let row = &block.programs[run.row];
            assert(block.rows()[at.row] == row@);
            let row_input = RowInput {
                y: input.y,
                p: input.p,
                t: input.t,
                seed: input.seed,
                source_span: block.program_span(run.row),
            };
            assert(row_input@ == input_of_row(*block, input@, at.row));
            let mut next: usize = run.next;
            let result = run.machine.eval_row_prepared_with_context(
                row.as_slice(),
                &mut next,
                &row_input,
            );
            run.next = next;
            match result {
                Err(e) => {
                    return (None, Err(e));
                },
                Ok(RowAction::Done) => {
                    if run.row + 1 >= block.programs.len() {
                        return (Some(run), Ok(BlockAction::Finished));
                    }
                    let following: usize = run.row + 1;
                    assert(block.rows()[at.row + 1] == block.programs@[following as int]@);
                    match start_row(
                        &block.programs[following],
                        block.program_span(following),
                        run.machine.sink,
                    ) {
                        Ok(machine) => {
                            run = BlockRun { row: following, next: 0, machine };
                        },
                        Err(e) => {
                            return (None, Err(e));
                        },
                    }
                },
                Ok(action) => {
                    return (Some(run), Ok(BlockAction::Left(action)));
                },
            }
        }
        (Some(run), Ok(BlockAction::Finished))
    }

    /// Supplies a number that the block waits for.
    pub fn supply(&mut self, block: &ScalarProgramBlock, dst: Reg, value: Real) -> (r: Result<
        (),
        EvalSolveError,
    >)
        ensures
            final(self).row == old(self).row,
            final(self).next == old(self).next,
            match r {
                Ok(_) => reg_set(
                    old(self)@.state,
                    dst,
                    value,
                    block.span_of(old(self).row as int),
                ) == Ok::<_, EvalErrorView>(final(self)@.state),
                Err(e) => reg_set(
                    old(self)@.state,
                    dst,
                    value,
                    block.span_of(old(self).row as int),
                ) == Err::<RowState, _>(e@) && final(self)@.state == old(self)@.state,
            },
    {
        let span = block.program_span(self.row);
        self.machine.set(dst, value, span)
    }

    /// Supplies the element of a window that the block waits for.
    pub fn supply_slot(
        &mut self,
        block: &ScalarProgramBlock,
        input: &RowInput,
        dst: Reg,
        vector: IndexedVector,
        slot: usize,
    ) -> (r: Result<(), EvalSolveError>)
        requires
            vector is Seed ==> input.seed is Some,
        ensures
            final(self).row == old(self).row,
            final(self).next == old(self).next,
            ({
                let span = block.span_of(old(self).row as int);
                let value = match vector {
                    IndexedVector::P => input_at("p"@, input@.p, slot as int, span),
                    IndexedVector::Seed => input_at("seed"@, input@.seed->0, slot as int, span),
                };
                match r {
                    Ok(_) => step_load(old(self)@.state, dst, value, span) == StepView::Done(
                        final(self)@.state,
                    ),
                    Err(e) => step_load(old(self)@.state, dst, value, span) == StepView::Failed(e@)
                        && final(self)@.state == old(self)@.state,
                }
            }),
    {
        let row_input = RowInput {
            y: input.y,
            p: input.p,
            t: input.t,
            seed: input.seed,
            source_span: block.program_span(self.row),
        };
        self.machine.load_slot(dst, vector, slot, &row_input)
    }
}

} // verus!
