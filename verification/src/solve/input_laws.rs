//! What rows and blocks need of their input vectors.
use crate::solve::inputs::{
    block_input_error, block_requirements, requirements_error, row_input_error, row_requirements,
    RowInputRequirements, ScalarProgramBlock,
};
use crate::solve::linear_op::LinearOp;
use crate::span::Span;
use vstd::prelude::*;

verus! {

/// Whether a window of a vector is there: its first element, also where it is empty, and
/// all that follow in it.
pub open spec fn window_is_there(base: usize, count: usize, len: nat) -> bool {
    base < len && base + count <= len
}

/// Whether vectors of these lengths hold every element that an instruction may load.
pub open spec fn finds_its_inputs(op: LinearOp, y_len: nat, p_len: nat, seed_len: nat) -> bool {
    match op {
        LinearOp::LoadY { index, .. } => index < y_len,
        LinearOp::LoadP { index, .. } => index < p_len,
        LinearOp::LoadSeed { index, .. } => index < seed_len,
        LinearOp::LoadIndexedP { base, count, .. } => window_is_there(base, count, p_len),
        LinearOp::LoadIndexedSeed { base, count, .. } => window_is_there(base, count, seed_len),
        _ => true,
    }
}

/// Vectors meet what a row needs exactly where they hold every element that one of its
/// instructions may load.
pub proof fn law_rows_need_what_they_load(
    row: Seq<LinearOp>,
    y_len: nat,
    p_len: nat,
    seed_len: nat,
)
    requires
        row_input_error(row) is None,
    ensures
        row_requirements(row).met_by(y_len, p_len, seed_len) <==> forall|i: int|
            0 <= i < row.len() ==> finds_its_inputs(#[trigger] row[i], y_len, p_len, seed_len),
    decreases row.len(),
{
    if row.len() > 0 {
        let front = row.drop_last();
        let op = row.last();
        law_rows_need_what_they_load(front, y_len, p_len, seed_len);
        assert(forall|i: int| 0 <= i < front.len() ==> #[trigger] front[i] == row[i]);
        assert(row[row.len() - 1] == op);
        if forall|i: int|
            0 <= i < row.len() ==> finds_its_inputs(#[trigger] row[i], y_len, p_len, seed_len) {
            assert forall|i: int| 0 <= i < front.len() implies finds_its_inputs(
                #[trigger] front[i],
                y_len,
                p_len,
                seed_len,
            ) by {
                assert(front[i] == row[i]);
            }
        }
        if (forall|i: int|
            0 <= i < front.len() ==> finds_its_inputs(
                #[trigger] front[i],
                y_len,
                p_len,
                seed_len,
            )) && finds_its_inputs(op, y_len, p_len, seed_len) {
            assert forall|i: int| 0 <= i < row.len() implies finds_its_inputs(
                #[trigger] row[i],
                y_len,
                p_len,
                seed_len,
            ) by {
                if i < front.len() {
                    assert(front[i] == row[i]);
                }
            }
        }
    }
}

/// Whether vectors of these lengths hold every element that one of the first `n` rows of
/// a block may load.
pub open spec fn rows_find_inputs(
    block: ScalarProgramBlock,
    n: int,
    y_len: nat,
    p_len: nat,
    seed_len: nat,
) -> bool {
    forall|r: int, i: int|
        0 <= r < n && 0 <= i < block.rows()[r].len() ==> finds_its_inputs(
            #[trigger] block.rows()[r][i],
            y_len,
            p_len,
            seed_len,
        )
}

/// Vectors meet what the rows of a block need exactly where they hold every element that
/// an instruction of one of them may load.
pub proof fn law_blocks_need_what_they_load(
    block: ScalarProgramBlock,
    n: int,
    y_len: nat,
    p_len: nat,
    seed_len: nat,
)
    requires
        0 <= n <= block.rows().len(),
        block_input_error(block, n) is None,
    ensures
        block_requirements(block, n).met_by(y_len, p_len, seed_len) <==> rows_find_inputs(
            block,
            n,
            y_len,
            p_len,
            seed_len,
        ),
    decreases n,
{
    if n > 0 {
        let row = block.rows()[n - 1];
        law_blocks_need_what_they_load(block, n - 1, y_len, p_len, seed_len);
        law_rows_need_what_they_load(row, y_len, p_len, seed_len);
        if rows_find_inputs(block, n, y_len, p_len, seed_len) {
            assert forall|i: int| 0 <= i < row.len() implies finds_its_inputs(
                #[trigger] row[i],
                y_len,
                p_len,
                seed_len,
            ) by {
                assert(block.rows()[n - 1][i] == row[i]);
            }
        }
    }
}

/// Vectors are refused exactly where they do not meet what is needed; a seed vector that
/// is not there is empty.
pub proof fn law_short_vectors_are_refused(
    needs: RowInputRequirements,
    y_len: nat,
    p_len: nat,
    seed_len: Option<usize>,
    span: Option<Span>,
)
    ensures
        requirements_error(needs, y_len, p_len, seed_len, span) is None <==> needs.met_by(
            y_len,
            p_len,
            match seed_len {
                Some(len) => len as nat,
                None => 0,
            },
        ),
{
}

} // verus!
