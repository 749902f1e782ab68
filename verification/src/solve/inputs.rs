//! Input requirements of solve rows and their validation.
use crate::solve::error::{invalid_row, EvalErrorView, EvalSolveError};
use crate::solve::linear_op::LinearOp;
use crate::solve::registers::row_error;
use crate::span::Span;
use crate::text::owned;
use vstd::prelude::*;

verus! {

/// How long the input vectors of a row must be.
#[derive(Clone, Copy, Debug, PartialEq, Eq, Structural)]
pub struct RowInputRequirements {
    pub y_len: usize,
    pub p_len: usize,
    pub seed_len: usize,
}

impl Default for RowInputRequirements {
    fn default() -> (r: Self)
        ensures
            r == RowInputRequirements::none(),
    {
        RowInputRequirements { y_len: 0, p_len: 0, seed_len: 0 }
    }
}

pub open spec fn larger_len(a: usize, b: usize) -> usize {
    if a >= b {
        a
    } else {
        b
    }
}

fn max_len(a: usize, b: usize) -> (r: usize)
    ensures
        r == larger_len(a, b),
{
    if a >= b {
        a
    } else {
        b
    }
}

impl RowInputRequirements {
    /// No requirement at all.
    pub open spec fn none() -> RowInputRequirements {
        RowInputRequirements { y_len: 0, p_len: 0, seed_len: 0 }
    }

    /// The weakest requirement that implies both.
    pub open spec fn merge_spec(self, other: RowInputRequirements) -> RowInputRequirements {
        RowInputRequirements {
            y_len: larger_len(self.y_len, other.y_len),
            p_len: larger_len(self.p_len, other.p_len),
            seed_len: larger_len(self.seed_len, other.seed_len),
        }
    }

    /// Whether vectors of these lengths meet the requirement.
    pub open spec fn met_by(self, y_len: nat, p_len: nat, seed_len: nat) -> bool {
        y_len >= self.y_len && p_len >= self.p_len && seed_len >= self.seed_len
    }

    /// The weakest requirement that implies both.
    pub fn merge(self, other: RowInputRequirements) -> (r: RowInputRequirements)
        ensures
            r == self.merge_spec(other),
    {
        RowInputRequirements {
            y_len: max_len(self.y_len, other.y_len),
            p_len: max_len(self.p_len, other.p_len),
            seed_len: max_len(self.seed_len, other.seed_len),
        }
    }
}

/// Merging requirements is meeting both, whatever the vectors.
pub proof fn law_merge_is_meeting_both(
    a: RowInputRequirements,
    b: RowInputRequirements,
    y_len: nat,
    p_len: nat,
    seed_len: nat,
)
    ensures
        a.merge_spec(b).met_by(y_len, p_len, seed_len) <==> a.met_by(y_len, p_len, seed_len)
            && b.met_by(y_len, p_len, seed_len),
        a.merge_spec(b) == b.merge_spec(a),
        a.merge_spec(a) == a,
{
}

/// Last element that an indexed load can touch; an empty window counts as its base.
pub open spec fn window_last(base: usize, count: usize) -> int {
    if count == 0 {
        base as int
    } else {
        base + count - 1
    }
}

/// Last element of an input vector that the instruction can touch.
pub open spec fn touched_y(op: LinearOp) -> Option<int> {
    match op {
        LinearOp::LoadY { index, .. } => Some(index as int),
        _ => None,
    }
}

pub open spec fn touched_p(op: LinearOp) -> Option<int> {
    match op {
        LinearOp::LoadP { index, .. } => Some(index as int),
        LinearOp::LoadIndexedP { base, count, .. } => Some(window_last(base, count)),
        _ => None,
    }
}

pub open spec fn touched_seed(op: LinearOp) -> Option<int> {
    match op {
        LinearOp::LoadSeed { index, .. } => Some(index as int),
        LinearOp::LoadIndexedSeed { base, count, .. } => Some(window_last(base, count)),
        _ => None,
    }
}

/// Length that makes element `last` exist; nothing is needed for no element.
pub open spec fn needed_len(last: Option<int>) -> int {
    match last {
        Some(index) => index + 1,
        None => 0,
    }
}

/// The error of a load whose required length does not fit in the host, if any.
pub open spec fn len_error(vector: Seq<char>, index: int) -> Option<EvalErrorView> {
    if index + 1 > usize::MAX {
        Some(row_error(vector + " input requirement overflow"@))
    } else {
        None
    }
}

pub open spec fn window_error(vector: Seq<char>, base: usize, count: usize) -> Option<
    EvalErrorView,
> {
    if window_last(base, count) > usize::MAX {
        Some(row_error(vector + " indexed input requirement overflow"@))
    } else {
        len_error(vector, window_last(base, count))
    }
}

pub open spec fn op_input_error(op: LinearOp) -> Option<EvalErrorView> {
    match op {
        LinearOp::LoadY { index, .. } => len_error("y"@, index as int),
        LinearOp::LoadP { index, .. } => len_error("p"@, index as int),
        LinearOp::LoadIndexedP { base, count, .. } => window_error("p"@, base, count),
        LinearOp::LoadSeed { index, .. } => len_error("seed"@, index as int),
        LinearOp::LoadIndexedSeed { base, count, .. } => window_error("seed"@, base, count),
        _ => None,
    }
}

/// What one instruction needs, where its lengths fit.
pub open spec fn op_requirements(op: LinearOp) -> RowInputRequirements {
    RowInputRequirements {
        y_len: needed_len(touched_y(op)) as usize,
        p_len: needed_len(touched_p(op)) as usize,
        seed_len: needed_len(touched_seed(op)) as usize,
    }
}

/// The error of the first instruction that has one.
pub open spec fn row_input_error(row: Seq<LinearOp>) -> Option<EvalErrorView>
    decreases row.len(),
{
    if row.len() == 0 {
        None
    } else if row_input_error(row.drop_last()) is Some {
        row_input_error(row.drop_last())
    } else {
        op_input_error(row.last())
    }
}

/// What a whole row needs: the merge over its instructions.
pub open spec fn row_requirements(row: Seq<LinearOp>) -> RowInputRequirements
    decreases row.len(),
{
    if row.len() == 0 {
        RowInputRequirements::none()
    } else {
        row_requirements(row.drop_last()).merge_spec(op_requirements(row.last()))
    }
}

/// Vectors that meet a row's requirement hold every element that one of its
/// instructions can touch.
pub proof fn law_met_requirements_cover_loads(
    row: Seq<LinearOp>,
    i: int,
    y_len: nat,
    p_len: nat,
    seed_len: nat,
)
    requires
        0 <= i < row.len(),
        row_input_error(row) is None,
        row_requirements(row).met_by(y_len, p_len, seed_len),
    ensures
        touched_y(row[i]) matches Some(k) ==> k < y_len,
        touched_p(row[i]) matches Some(k) ==> k < p_len,
        touched_seed(row[i]) matches Some(k) ==> k < seed_len,
    decreases row.len(),
{
    if i < row.len() - 1 {
        assert(row.drop_last()[i] == row[i]);
        law_met_requirements_cover_loads(row.drop_last(), i, y_len, p_len, seed_len);
    }
}

fn checked_required_len(vector: &'static str, index: usize) -> (r: Result<usize, EvalSolveError>)
    ensures
        match r {
            Ok(len) => len_error(vector@, index as int) is None && len == index + 1,
            Err(e) => len_error(vector@, index as int) == Some(e@),
        },
{
    match index.checked_add(1) {
        Some(len) => Ok(len),
        None => {
            let mut message = owned(vector);
            message.append(" input requirement overflow");
            Err(invalid_row(message))
        },
    }
}

fn checked_required_indexed_len(vector: &'static str, base: usize, count: usize) -> (r: Result<
    usize,
    EvalSolveError,
>)
    ensures
        match r {
            Ok(len) => window_error(vector@, base, count) is None && len == window_last(base, count)
                + 1,
            Err(e) => window_error(vector@, base, count) == Some(e@),
        },
{
    let last_offset: usize = if count == 0 {
        0
    } else {
        count - 1
    };
    match base.checked_add(last_offset) {
        Some(last_index) => checked_required_len(vector, last_index),
        None => {
            let mut message = owned(vector);
            message.append(" indexed input requirement overflow");
            Err(invalid_row(message))
        },
    }
}

/// What one instruction needs of the input vectors.
pub fn input_requirements_for_op(op: LinearOp) -> (r: Result<RowInputRequirements, EvalSolveError>)
    ensures
        match r {
            Ok(needs) => op_input_error(op) is None && needs == op_requirements(op),
            Err(e) => op_input_error(op) == Some(e@),
        },
{
    match op {
        LinearOp::LoadY { index, .. } => match checked_required_len("y", index) {
            Ok(len) => Ok(RowInputRequirements { y_len: len, p_len: 0, seed_len: 0 }),
            Err(e) => Err(e),
        },
        LinearOp::LoadP { index, .. } => match checked_required_len("p", index) {
            Ok(len) => Ok(RowInputRequirements { y_len: 0, p_len: len, seed_len: 0 }),
            Err(e) => Err(e),
        },
        LinearOp::LoadIndexedP { base, count, .. } => match checked_required_indexed_len(
            "p",
            base,
            count,
        ) {
            Ok(len) => Ok(RowInputRequirements { y_len: 0, p_len: len, seed_len: 0 }),
            Err(e) => Err(e),
        },
        LinearOp::LoadSeed { index, .. } => match checked_required_len("seed", index) {
            Ok(len) => Ok(RowInputRequirements { y_len: 0, p_len: 0, seed_len: len }),
            Err(e) => Err(e),
        },
        LinearOp::LoadIndexedSeed { base, count, .. } => match checked_required_indexed_len(
            "seed",
            base,
            count,
        ) {
            Ok(len) => Ok(RowInputRequirements { y_len: 0, p_len: 0, seed_len: len }),
            Err(e) => Err(e),
        },
        _ => Ok(RowInputRequirements::default()),
    }
}

proof fn lemma_first_input_error_stays(row: Seq<LinearOp>, i: int)
    requires
        0 <= i <= row.len(),
        row_input_error(row.take(i)) is Some,
    ensures
        row_input_error(row) == row_input_error(row.take(i)),
    decreases row.len(),
{
    if i < row.len() {
        assert(row.drop_last().take(i) =~= row.take(i));
        lemma_first_input_error_stays(row.drop_last(), i);
    } else {
        assert(row.take(i) =~= row);
    }
}

/// What a row needs of the input vectors; the first instruction whose length
/// does not fit decides the error.
pub fn row_input_requirements(row: &[LinearOp]) -> (r: Result<RowInputRequirements, EvalSolveError>)
    ensures
        match r {
            Ok(needs) => row_input_error(row@) is None && needs == row_requirements(row@),
            Err(e) => row_input_error(row@) == Some(e@),
        },
{
    let mut needs = RowInputRequirements::default();
    let mut i: usize = 0;
    while i < row.len()
        invariant
            i <= row.len(),
            row_input_error(row@.take(i as int)) is None,
            needs == row_requirements(row@.take(i as int)),
        decreases row.len() - i,
    {
        assert(row@.take(i as int + 1).drop_last() =~= row@.take(i as int));
        match input_requirements_for_op(row[i]) {
            Ok(op_needs) => {
                needs = needs.merge(op_needs);
            },
            Err(e) => {
                proof {
                    lemma_first_input_error_stays(row@, i as int + 1);
                }
                return Err(e);
            },
        }
        i = i + 1;
    }
    assert(row@.take(i as int) =~= row@);
    Ok(needs)
}

/// Scalar programs that share one output buffer.
pub struct ScalarProgramBlock {
    pub programs: Vec<Vec<LinearOp>>,
    /// Output slot of each stored value, in store order.
    pub output_indices: Vec<usize>,
    /// Source position of each program, as far as known.
    pub program_spans: Vec<Span>,
    /// Number of output slots that the block needs.
    pub output_count: usize,
}

/// The instruction sequences of a block.
pub open spec fn programs_view(programs: Seq<Vec<LinearOp>>) -> Seq<Seq<LinearOp>> {
    programs.map_values(|row: Vec<LinearOp>| row@)
}

impl ScalarProgramBlock {
    pub open spec fn rows(self) -> Seq<Seq<LinearOp>> {
        programs_view(self.programs@)
    }

    pub open spec fn span_of(self, row: int) -> Option<Span> {
        if 0 <= row < self.program_spans@.len() {
            Some(self.program_spans@[row])
        } else {
            None
        }
    }

    /// Source position of a program, if known.
    pub fn program_span(&self, row: usize) -> (span: Option<Span>)
        ensures
            span == self.span_of(row as int),
    {
        if row < self.program_spans.len() {
            Some(self.program_spans[row])
        } else {
            None
        }
    }
}

/// The error of the first program that has one, placed at that program.
pub open spec fn block_input_error(block: ScalarProgramBlock, n: int) -> Option<EvalErrorView>
    decreases n,
{
    if n <= 0 {
        None
    } else if block_input_error(block, n - 1) is Some {
        block_input_error(block, n - 1)
    } else {
        match row_input_error(block.rows()[n - 1]) {
            Some(e) => Some(e.with_source_span(block.span_of(n - 1))),
            None => None,
        }
    }
}

/// What the first `n` programs need.
pub open spec fn block_requirements(
    block: ScalarProgramBlock,
    n: int,
) -> RowInputRequirements
    decreases n,
{
    if n <= 0 {
        RowInputRequirements::none()
    } else {
        block_requirements(block, n - 1).merge_spec(row_requirements(block.rows()[n - 1]))
    }
}

proof fn lemma_first_block_error_stays(block: ScalarProgramBlock, i: int, n: int)
    requires
        0 <= i <= n,
        block_input_error(block, i) is Some,
    ensures
        block_input_error(block, n) == block_input_error(block, i),
    decreases n,
{
    if i < n {
        lemma_first_block_error_stays(block, i, n - 1);
    }
}

/// What a block of programs needs of the input vectors.
pub fn scalar_program_block_input_requirements(block: &ScalarProgramBlock) -> (r: Result<
    RowInputRequirements,
    EvalSolveError,
>)
    ensures
        match r {
            Ok(needs) => block_input_error(*block, block.programs@.len() as int) is None && needs
                == block_requirements(*block, block.programs@.len() as int),
            Err(e) => block_input_error(*block, block.programs@.len() as int) == Some(e@),
        },
{
    let mut needs = RowInputRequirements::default();
    let mut i: usize = 0;
    while i < block.programs.len()
        invariant
            i <= block.programs.len(),
            block_input_error(*block, i as int) is None,
            needs == block_requirements(*block, i as int),
        decreases block.programs.len() - i,
    {
        match row_input_requirements(block.programs[i].as_slice()) {
            Ok(row_needs) => {
                needs = needs.merge(row_needs);
            },
            Err(e) => {
                let placed = e.with_source_span(block.program_span(i));
                proof {
                    assert(block_input_error(*block, i as int + 1) == Some(placed@));
                    lemma_first_block_error_stays(
                        *block,
                        i as int + 1,
                        block.programs@.len() as int,
                    );
                }
                return Err(placed);
            },
        }
        i = i + 1;
    }
    Ok(needs)
}

/// The error of an input vector that is too short, if it is.
pub open spec fn short_input(
    vector: Seq<char>,
    actual: nat,
    required: usize,
    span: Option<Span>,
) -> Option<EvalErrorView> {
    if actual >= required {
        None
    } else {
        Some(
            EvalErrorView::MissingInput {
                vector,
                index: (required - 1) as usize,
                len: actual as usize,
                span,
            },
        )
    }
}

/// The error of the first vector that is too short: states, then parameters,
/// then seeds. A missing seed vector counts as an empty one.
pub open spec fn requirements_error(
    needs: RowInputRequirements,
    y_len: nat,
    p_len: nat,
    seed_len: Option<usize>,
    span: Option<Span>,
) -> Option<EvalErrorView> {
    if short_input("y"@, y_len, needs.y_len, span) is Some {
        short_input("y"@, y_len, needs.y_len, span)
    } else if short_input("p"@, p_len, needs.p_len, span) is Some {
        short_input("p"@, p_len, needs.p_len, span)
    } else {
        short_input("seed"@, seed_or_none(seed_len), needs.seed_len, span)
    }
}

pub open spec fn seed_or_none(seed_len: Option<usize>) -> nat {
    match seed_len {
        Some(len) => len as nat,
        None => 0,
    }
}

fn validate_input_len(
    vector: &'static str,
    actual_len: usize,
    required_len: usize,
    span: Option<Span>,
) -> (r: Result<(), EvalSolveError>)
    ensures
        match r {
            Ok(_) => short_input(vector@, actual_len as nat, required_len, span) is None,
            Err(e) => short_input(vector@, actual_len as nat, required_len, span) == Some(e@),
        },
{
    if actual_len >= required_len {
        return Ok(());
    }
    Err(EvalSolveError::MissingInput { vector, index: required_len - 1, len: actual_len, span })
}

/// Checks input vector lengths against a requirement.
pub fn validate_input_requirements_with_span(
    needs: RowInputRequirements,
    y_len: usize,
    p_len: usize,
    seed_len: Option<usize>,
    span: Option<Span>,
) -> (r: Result<(), EvalSolveError>)
    ensures
        match r {
            Ok(_) => requirements_error(needs, y_len as nat, p_len as nat, seed_len, span) is None,
            Err(e) => requirements_error(needs, y_len as nat, p_len as nat, seed_len, span) == Some(
                e@,
            ),
        },
{
    match validate_input_len("y", y_len, needs.y_len, span) {
        Ok(_) => {},
        Err(e) => {
            return Err(e);
        },
    }
    match validate_input_len("p", p_len, needs.p_len, span) {
        Ok(_) => {},
        Err(e) => {
            return Err(e);
        },
    }
    if needs.seed_len == 0 {
        return Ok(());
    }
    let actual_seed: usize = match seed_len {
        Some(len) => len,
        None => 0,
    };
    validate_input_len("seed", actual_seed, needs.seed_len, span)
}

/// Checks input vector lengths against a requirement, without a position.
pub fn validate_input_requirements(
    needs: RowInputRequirements,
    y_len: usize,
    p_len: usize,
    seed_len: Option<usize>,
) -> (r: Result<(), EvalSolveError>)
    ensures
        match r {
            Ok(_) => requirements_error(needs, y_len as nat, p_len as nat, seed_len, None) is None,
            Err(e) => requirements_error(needs, y_len as nat, p_len as nat, seed_len, None) == Some(
                e@,
            ),
        },
{
    validate_input_requirements_with_span(needs, y_len, p_len, seed_len, None)
}

/// Checks the input vectors of a row.
pub fn validate_row_inputs(
    row: &[LinearOp],
    y_len: usize,
    p_len: usize,
    seed_len: Option<usize>,
) -> (r: Result<(), EvalSolveError>)
    ensures
        match r {
            Ok(_) => row_input_error(row@) is None && requirements_error(
                row_requirements(row@),
                y_len as nat,
                p_len as nat,
                seed_len,
                None,
            ) is None,
            Err(e) => if row_input_error(row@) is Some {
                row_input_error(row@) == Some(e@)
            } else {
                requirements_error(
                    row_requirements(row@),
                    y_len as nat,
                    p_len as nat,
                    seed_len,
                    None,
                ) == Some(e@)
            },
        },
{
    match row_input_requirements(row) {
        Ok(needs) => validate_input_requirements(needs, y_len, p_len, seed_len),
        Err(e) => Err(e),
    }
}

/// Checks that an output buffer is long enough.
pub fn validate_output_len(out_len: usize, required: usize) -> (r: Result<(), EvalSolveError>)
    ensures
        match r {
            Ok(_) => out_len >= required,
            Err(e) => out_len < required && e@ == (EvalErrorView::OutputTooSmall {
                required,
                len: out_len,
                span: None,
            }),
        },
{
    if out_len >= required {
        return Ok(());
    }
    Err(EvalSolveError::OutputTooSmall { required, len: out_len, span: None })
}

/// The first thing wrong with the buffers of a block, if anything.
pub open spec fn block_io_error(
    block: ScalarProgramBlock,
    y_len: nat,
    p_len: nat,
    seed_len: Option<usize>,
    out_len: usize,
) -> Option<EvalErrorView> {
    let rows = block.programs@.len() as int;
    if out_len < block.output_count {
        Some(
            EvalErrorView::OutputTooSmall {
                required: block.output_count,
                len: out_len,
                span: None,
            },
        )
    } else if block_input_error(block, rows) is Some {
        block_input_error(block, rows)
    } else {
        requirements_error(block_requirements(block, rows), y_len, p_len, seed_len, None)
    }
}

/// Checks the buffers of a block before it runs.
pub fn validate_scalar_program_block_io(
    block: &ScalarProgramBlock,
    y_len: usize,
    p_len: usize,
    seed_len: Option<usize>,
    out_len: usize,
) -> (r: Result<(), EvalSolveError>)
    ensures
        match r {
            Ok(_) => block_io_error(*block, y_len as nat, p_len as nat, seed_len, out_len) is None,
            Err(e) => block_io_error(*block, y_len as nat, p_len as nat, seed_len, out_len) == Some(
                e@,
            ),
        },
{
    match validate_output_len(out_len, block.output_count) {
        Ok(_) => {},
        Err(e) => {
            return Err(e);
        },
    }
    match scalar_program_block_input_requirements(block) {
        Ok(needs) => validate_input_requirements(needs, y_len, p_len, seed_len),
        Err(e) => Err(e),
    }
}

} // verus!
