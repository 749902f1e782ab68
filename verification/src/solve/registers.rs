//! Register use of solve rows: how many registers a row needs, and whether it
//! reads only what it has written.
use crate::solve::error::{invalid_row, EvalErrorView, EvalSolveError};
use crate::solve::linear_op::{LinearOp, Reg};
use crate::text::{nat_text, owned, push_nat, push_usize};
use vstd::prelude::*;

verus! {

/// Last register of a range of `len` registers; an empty range counts as its
/// start.
pub open spec fn range_last(start: Reg, len: int) -> int {
    if len == 0 {
        start as int
    } else {
        start + len - 1
    }
}

/// An invalid-row error view without a position.
pub open spec fn row_error(message: Seq<char>) -> EvalErrorView {
    EvalErrorView::InvalidRow { message, span: None }
}

/// The error of a register range whose last register has no index, if any.
pub open spec fn range_error(start: Reg, len: int, kind: Seq<char>) -> Option<EvalErrorView> {
    if len == 0 {
        None
    } else if len - 1 > u32::MAX {
        Some(
            row_error(
                kind + " offset "@ + nat_text((len - 1) as nat) + " exceeds register index type"@,
            ),
        )
    } else if start + (len - 1) > u32::MAX {
        Some(row_error(kind + " range starting at "@ + nat_text(start as nat) + " overflows"@))
    } else {
        None
    }
}

/// The error of an instruction whose register ranges do not fit, if any.
pub open spec fn op_range_error(op: LinearOp) -> Option<EvalErrorView> {
    match op {
        LinearOp::LinearSolveComponent { matrix_start, rhs_start, n, .. } => {
            if n * n > usize::MAX {
                Some(row_error("linear solve matrix"@ + " size overflow"@))
            } else if range_error(matrix_start, n * n, "linear solve matrix"@) is Some {
                range_error(matrix_start, n * n, "linear solve matrix"@)
            } else {
                range_error(rhs_start, n as int, "linear solve rhs"@)
            }
        },
        LinearOp::RandomResult { state_start, state_len, .. } => range_error(
            state_start,
            state_len as int,
            "random state"@,
        ),
        LinearOp::RandomState { state_start, state_len, .. } => range_error(
            state_start,
            state_len as int,
            "random state"@,
        ),
        _ => None,
    }
}

/// The registers that an instruction names: what it writes, what it reads
/// singly, and the last register of each range.
pub open spec fn op_names(op: LinearOp, r: int) -> bool {
    ||| op.dst() == Some(r as u32) && 0 <= r <= u32::MAX
    ||| match op {
        LinearOp::LinearSolveComponent { matrix_start, rhs_start, n, .. } => r == range_last(
            matrix_start,
            n * n,
        ) || r == range_last(rhs_start, n as int),
        LinearOp::RandomResult { state_start, state_len, .. } => r == range_last(
            state_start,
            state_len as int,
        ),
        LinearOp::RandomState { state_start, state_len, .. } => r == range_last(
            state_start,
            state_len as int,
        ),
        _ => op.reads(r),
    }
}

/// `m` is the greatest register that the instruction names.
pub open spec fn is_max_register(op: LinearOp, m: int) -> bool {
    &&& op_names(op, m)
    &&& forall|r: int| op_names(op, r) ==> r <= m
}

fn larger(a: Reg, b: Reg) -> (r: Reg)
    ensures
        r == if a >= b { a } else { b },
{
    if a >= b {
        a
    } else {
        b
    }
}

pub fn checked_square_len(n: usize, kind: &'static str) -> (r: Result<usize, EvalSolveError>)
    ensures
        match r {
            Ok(len) => len == n * n,
            Err(e) => n * n > usize::MAX && e@ == row_error(kind@ + " size overflow"@),
        },
{
    match n.checked_mul(n) {
        Some(len) => Ok(len),
        None => {
            let mut message = owned(kind);
            message.append(" size overflow");
            Err(invalid_row(message))
        },
    }
}

pub fn checked_reg_range_last(start: Reg, len: usize, kind: &'static str) -> (r: Result<
    Reg,
    EvalSolveError,
>)
    ensures
        match r {
            Ok(last) => range_error(start, len as int, kind@) is None && last == range_last(
                start,
                len as int,
            ),
            Err(e) => range_error(start, len as int, kind@) == Some(e@),
        },
{
    if len == 0 {
        return Ok(start);
    }
    let offset: usize = len - 1;
    if offset as u64 > u32::MAX as u64 {
        let mut message = owned(kind);
        message.append(" offset ");
        push_usize(&mut message, offset);
        message.append(" exceeds register index type");
        return Err(invalid_row(message));
    }
    match start.checked_add(offset as u32) {
        Some(last) => Ok(last),
        None => {
            let mut message = owned(kind);
            message.append(" range starting at ");
            push_nat(&mut message, start as u64);
            message.append(" overflows");
            Err(invalid_row(message))
        },
    }
}

/// Greatest register that an instruction names, or the error of a register
/// range that does not fit.
pub fn max_register(op: &LinearOp) -> (r: Result<u32, EvalSolveError>)
    ensures
        match r {
            Ok(m) => op_range_error(*op) is None && is_max_register(*op, m as int),
            Err(e) => op_range_error(*op) == Some(e@),
        },
{
    match *op {
        LinearOp::Const { dst, .. } => Ok(dst),
        LinearOp::LoadTime { dst } => Ok(dst),
        LinearOp::LoadY { dst, .. } => Ok(dst),
        LinearOp::LoadP { dst, .. } => Ok(dst),
        LinearOp::LoadSeed { dst, .. } => Ok(dst),
        LinearOp::LoadIndexedP { dst, index, .. } => Ok(larger(dst, index)),
        LinearOp::LoadIndexedSeed { dst, index, .. } => Ok(larger(dst, index)),
        LinearOp::Move { dst, src } => Ok(larger(dst, src)),
        LinearOp::Unary { dst, arg, .. } => Ok(larger(dst, arg)),
        LinearOp::Binary { dst, lhs, rhs, .. } => Ok(larger(larger(dst, lhs), rhs)),
        LinearOp::Compare { dst, lhs, rhs, .. } => Ok(larger(larger(dst, lhs), rhs)),
        LinearOp::Select { dst, cond, if_true, if_false } => Ok(
            larger(larger(larger(dst, cond), if_true), if_false),
        ),
        LinearOp::LinearSolveComponent { dst, matrix_start, rhs_start, n, .. } => {
            let square: usize = match checked_square_len(n, "linear solve matrix") {
                Ok(len) => len,
                Err(e) => {
                    return Err(e);
                },
            };
            let matrix_last: Reg = match checked_reg_range_last(
                matrix_start,
                square,
                "linear solve matrix",
            ) {
                Ok(last) => last,
                Err(e) => {
                    return Err(e);
                },
            };
            let rhs_last: Reg = match checked_reg_range_last(rhs_start, n, "linear solve rhs") {
                Ok(last) => last,
                Err(e) => {
                    return Err(e);
                },
            };
            Ok(larger(larger(dst, matrix_last), rhs_last))
        },
        LinearOp::TableBounds { dst, table_id, .. } => Ok(larger(dst, table_id)),
        LinearOp::TableLookup { dst, table_id, column, input } => Ok(
            larger(larger(larger(dst, table_id), column), input),
        ),
        LinearOp::TableLookupSlope { dst, table_id, column, input } => Ok(
            larger(larger(larger(dst, table_id), column), input),
        ),
        LinearOp::TableNextEvent { dst, table_id, time } => Ok(larger(larger(dst, table_id), time)),
        LinearOp::RandomInitialState { dst, local_seed, global_seed, .. } => Ok(
            larger(larger(dst, local_seed), global_seed),
        ),
        LinearOp::RandomResult { dst, state_start, state_len, .. } => {
            match checked_reg_range_last(state_start, state_len, "random state") {
                Ok(last) => Ok(larger(dst, last)),
                Err(e) => Err(e),
            }
        },
        LinearOp::RandomState { dst, state_start, state_len, .. } => {
            match checked_reg_range_last(state_start, state_len, "random state") {
                Ok(last) => Ok(larger(dst, last)),
                Err(e) => Err(e),
            }
        },
        LinearOp::ImpureRandomInit { dst, seed } => Ok(larger(dst, seed)),
        LinearOp::ImpureRandom { dst, id, .. } => Ok(larger(dst, id)),
        LinearOp::ImpureRandomInteger { dst, id, imin, imax, .. } => Ok(
            larger(larger(larger(dst, id), imin), imax),
        ),
        LinearOp::StoreOutput { src } => Ok(src),
    }
}

/// The range error of the first instruction that has one.
pub open spec fn row_range_error(row: Seq<LinearOp>) -> Option<EvalErrorView>
    decreases row.len(),
{
    if row.len() == 0 {
        None
    } else if row_range_error(row.drop_last()) is Some {
        row_range_error(row.drop_last())
    } else {
        op_range_error(row.last())
    }
}

/// `count` registers are enough for the row, and no fewer.
pub open spec fn is_register_count(row: Seq<LinearOp>, count: int) -> bool {
    &&& row.len() == 0 ==> count == 0
    &&& row.len() > 0 ==> exists|i: int| 0 <= i < row.len() && op_names(#[trigger] row[i], count - 1)
    &&& forall|i: int, r: int|
        #![trigger op_names(row[i], r)]
        0 <= i < row.len() && op_names(row[i], r) ==> r < count
}

fn checked_required_register_count(reg: Reg) -> (r: Result<usize, EvalSolveError>)
    ensures
        match r {
            Ok(count) => count == reg + 1,
            Err(e) => reg + 1 > usize::MAX && e@ == row_error(
                "register index "@ + nat_text(reg as nat) + " overflows register count"@,
            ),
        },
{
    match (reg as usize).checked_add(1) {
        Some(count) => Ok(count),
        None => {
            let mut message = owned("register index ");
            push_nat(&mut message, reg as u64);
            message.append(" overflows register count");
            Err(invalid_row(message))
        },
    }
}

/// Number of registers that a row needs.
///
/// The first instruction whose ranges do not fit decides the error; a row
/// that names the last index the host can count is rejected too.
pub fn required_registers(row: &[LinearOp]) -> (r: Result<usize, EvalSolveError>)
    ensures
        match r {
            Ok(count) => row_range_error(row@) is None && is_register_count(row@, count as int),
            Err(e) => match row_range_error(row@) {
                Some(view) => e@ == view,
                None => is_register_count(row@, usize::MAX + 1) && e@ == row_error(
                    "register index "@ + nat_text(usize::MAX as nat)
                        + " overflows register count"@,
                ),
            },
        },
{
    let mut max_reg: Option<Reg> = None;
    let mut i: usize = 0;
    while i < row.len()
        invariant
            i <= row.len(),
            row_range_error(row@.take(i as int)) is None,
            max_reg is None <==> i == 0,
            max_reg matches Some(m) ==> is_register_count(row@.take(i as int), m + 1),
        decreases row.len() - i,
    {
        let ghost before = row@.take(i as int);
        let ghost after = row@.take(i as int + 1);
        assert(after.drop_last() =~= before);
        assert(after.last() == row@[i as int]);
        let reg: Reg = match max_register(&row[i]) {
            Ok(reg) => reg,
            Err(e) => {
                proof {
                    lemma_first_range_error_stays(row@, i as int + 1);
                }
                return Err(e);
            },
        };
        let merged: Reg = match max_reg {
            Some(current) => larger(current, reg),
            None => reg,
        };
        proof {
            assert forall|k: int, r: int|
                #![trigger op_names(after[k], r)]
                0 <= k < after.len() && op_names(after[k], r) implies r < merged + 1 by {
                if k < i {
                    assert(op_names(before[k], r));
                }
            }
            if merged == reg {
                assert(op_names(after[i as int], merged as int));
            } else {
                let k = choose|k: int|
                    0 <= k < before.len() && op_names(#[trigger] before[k], merged as int);
                assert(op_names(after[k], merged as int));
            }
        }
        max_reg = Some(merged);
        i = i + 1;
    }
    assert(row@.take(i as int) =~= row@);
    match max_reg {
        None => Ok(0),
        Some(m) => checked_required_register_count(m),
    }
}

proof fn lemma_first_range_error_stays(row: Seq<LinearOp>, i: int)
    requires
        0 <= i <= row.len(),
        row_range_error(row.take(i)) is Some,
    ensures
        row_range_error(row) == row_range_error(row.take(i)),
    decreases row.len(),
{
    if i < row.len() {
        assert(row.drop_last().take(i) =~= row.take(i));
        lemma_first_range_error_stays(row.drop_last(), i);
    } else {
        assert(row.take(i) =~= row);
    }
}

/// Whether register `r` holds a value.
pub open spec fn reg_ready(initialized: Seq<bool>, r: int) -> bool {
    0 <= r < initialized.len() && initialized[r]
}

/// Whether `len` registers from `start` on exist and all hold a value.
pub open spec fn range_ready(initialized: Seq<bool>, start: Reg, len: int) -> bool {
    &&& start + len <= initialized.len()
    &&& forall|r: int| start <= r < start + len ==> #[trigger] initialized[r]
}

/// Whether every register that the instruction reads holds a value, its
/// ranges lie inside the register file, and a linear-solve component names a
/// row of its system.
pub open spec fn sources_ready(op: LinearOp, initialized: Seq<bool>) -> bool {
    match op {
        LinearOp::LinearSolveComponent { matrix_start, rhs_start, n, component, .. } => {
            &&& component < n
            &&& range_ready(initialized, matrix_start, n * n)
            &&& range_ready(initialized, rhs_start, n as int)
        },
        LinearOp::RandomResult { state_start, state_len, .. } => range_ready(
            initialized,
            state_start,
            state_len as int,
        ),
        LinearOp::RandomState { state_start, state_len, .. } => range_ready(
            initialized,
            state_start,
            state_len as int,
        ),
        _ => forall|r: int| op.reads(r) ==> reg_ready(initialized, r),
    }
}

/// Sources that are ready are, in every case, registers that hold a value.
pub proof fn law_ready_sources_hold_values(op: LinearOp, initialized: Seq<bool>, r: int)
    requires
        sources_ready(op, initialized),
        op.reads(r),
    ensures
        reg_ready(initialized, r),
{
}

fn reg_initialized(initialized: &[bool], reg: Reg) -> (r: bool)
    ensures
        r == reg_ready(initialized@, reg as int),
{
    (reg as usize) < initialized.len() && initialized[reg as usize]
}

fn reg_range_initialized(initialized: &[bool], start: Reg, len: usize) -> (r: bool)
    ensures
        r == range_ready(initialized@, start, len as int),
{
    let first: usize = start as usize;
    let available: usize = initialized.len();
    match first.checked_add(len) {
        None => false,
        Some(end) => {
            if end > available {
                return false;
            }
            let mut i: usize = first;
            while i < end
                invariant
                    first <= i <= end <= initialized.len(),
                    available == initialized@.len(),
                    first == start,
                    end == first + len,
                    forall|k: int| first <= k < i ==> #[trigger] initialized@[k],
                decreases end - i,
            {
                if !initialized[i] {
                    return false;
                }
                i = i + 1;
            }
            true
        },
    }
}

/// Whether the instruction may run: everything it reads holds a value.
pub fn op_sources_initialized(op: &LinearOp, initialized: &[bool]) -> (r: bool)
    ensures
        r == sources_ready(*op, initialized@),
{
    match *op {
        LinearOp::Const { .. } => true,
        LinearOp::LoadTime { .. } => true,
        LinearOp::LoadY { .. } => true,
        LinearOp::LoadP { .. } => true,
        LinearOp::LoadSeed { .. } => true,
        LinearOp::Move { src, .. } => {
            assert(op.reads(src as int));
            reg_initialized(initialized, src)
        },
        LinearOp::Unary { arg, .. } => {
            assert(op.reads(arg as int));
            reg_initialized(initialized, arg)
        },
        LinearOp::LoadIndexedP { index, .. } => {
            assert(op.reads(index as int));
            reg_initialized(initialized, index)
        },
        LinearOp::LoadIndexedSeed { index, .. } => {
            assert(op.reads(index as int));
            reg_initialized(initialized, index)
        },
        LinearOp::StoreOutput { src } => {
            assert(op.reads(src as int));
            reg_initialized(initialized, src)
        },
        LinearOp::Binary { lhs, rhs, .. } => {
            assert(op.reads(lhs as int) && op.reads(rhs as int));
            reg_initialized(initialized, lhs) && reg_initialized(initialized, rhs)
        },
        LinearOp::Compare { lhs, rhs, .. } => {
            assert(op.reads(lhs as int) && op.reads(rhs as int));
            reg_initialized(initialized, lhs) && reg_initialized(initialized, rhs)
        },
        LinearOp::Select { cond, if_true, if_false, .. } => {
            assert(op.reads(cond as int) && op.reads(if_true as int) && op.reads(if_false as int));
            reg_initialized(initialized, cond) && reg_initialized(initialized, if_true)
                && reg_initialized(initialized, if_false)
        },
        LinearOp::LinearSolveComponent { matrix_start, rhs_start, n, component, .. } => {
            match n.checked_mul(n) {
                None => {
                    let available: usize = initialized.len();
                    assert(matrix_start + n * n > available);
                    false
                },
                Some(matrix_len) => component < n && reg_range_initialized(
                    initialized,
                    matrix_start,
                    matrix_len,
                ) && reg_range_initialized(initialized, rhs_start, n),
            }
        },
        LinearOp::TableBounds { table_id, .. } => {
            assert(op.reads(table_id as int));
            reg_initialized(initialized, table_id)
        },
        LinearOp::TableLookup { table_id, column, input, .. } => {
            assert(op.reads(table_id as int) && op.reads(column as int) && op.reads(input as int));
            reg_initialized(initialized, table_id) && reg_initialized(initialized, column)
                && reg_initialized(initialized, input)
        },
        LinearOp::TableLookupSlope { table_id, column, input, .. } => {
            assert(op.reads(table_id as int) && op.reads(column as int) && op.reads(input as int));
            reg_initialized(initialized, table_id) && reg_initialized(initialized, column)
                && reg_initialized(initialized, input)
        },
        LinearOp::TableNextEvent { table_id, time, .. } => {
            assert(op.reads(table_id as int) && op.reads(time as int));
            reg_initialized(initialized, table_id) && reg_initialized(initialized, time)
        },
        LinearOp::RandomInitialState { local_seed, global_seed, .. } => {
            assert(op.reads(local_seed as int) && op.reads(global_seed as int));
            reg_initialized(initialized, local_seed) && reg_initialized(initialized, global_seed)
        },
        LinearOp::RandomResult { state_start, state_len, .. } => reg_range_initialized(
            initialized,
            state_start,
            state_len,
        ),
        LinearOp::RandomState { state_start, state_len, .. } => reg_range_initialized(
            initialized,
            state_start,
            state_len,
        ),
        LinearOp::ImpureRandomInit { seed, .. } => {
            assert(op.reads(seed as int));
            reg_initialized(initialized, seed)
        },
        LinearOp::ImpureRandom { id, .. } => {
            assert(op.reads(id as int));
            reg_initialized(initialized, id)
        },
        LinearOp::ImpureRandomInteger { id, imin, imax, .. } => {
            assert(op.reads(id as int) && op.reads(imin as int) && op.reads(imax as int));
            reg_initialized(initialized, id) && reg_initialized(initialized, imin)
                && reg_initialized(initialized, imax)
        },
    }
}

/// The state after an instruction has written its destination.
pub open spec fn mark_dst(op: LinearOp, initialized: Seq<bool>) -> Seq<bool> {
    match op.dst() {
        Some(dst) => if dst < initialized.len() {
            initialized.update(dst as int, true)
        } else {
            initialized
        },
        None => initialized,
    }
}

/// Records that the instruction has written its destination.
pub fn mark_op_dests_initialized(op: &LinearOp, initialized: &mut Vec<bool>)
    ensures
        final(initialized)@ == mark_dst(*op, old(initialized)@),
{
    if let Some(dst) = op.dst_register() {
        if (dst as usize) < initialized.len() {
            initialized.set(dst as usize, true);
        }
    }
}

/// Whether one of the first `i` instructions writes register `r`.
pub open spec fn written_before(row: Seq<LinearOp>, i: int, r: int) -> bool {
    exists|j: int| 0 <= j < i && (#[trigger] row[j]).dst() == Some(r as u32)
}

/// Which of `count` registers hold a value before instruction `i`.
pub open spec fn ready_before(row: Seq<LinearOp>, i: int, count: nat) -> Seq<bool> {
    Seq::new(count, |r: int| r <= u32::MAX && written_before(row, i, r))
}

/// Every instruction of the row reads only registers that an earlier one wrote.
pub open spec fn flow_valid(row: Seq<LinearOp>, count: nat) -> bool {
    forall|i: int|
        0 <= i < row.len() ==> sources_ready(#[trigger] row[i], ready_before(row, i, count))
}

/// Running an instruction makes its destination hold a value and changes
/// nothing else about which registers do.
pub proof fn lemma_ready_before_step(row: Seq<LinearOp>, i: int, count: nat)
    requires
        0 <= i < row.len(),
    ensures
        mark_dst(row[i], ready_before(row, i, count)) == ready_before(row, i + 1, count),
{
    let now = ready_before(row, i, count);
    let next = ready_before(row, i + 1, count);
    assert forall|r: int| 0 <= r < count implies mark_dst(row[i], now)[r] == next[r] by {
        if r <= u32::MAX {
            if written_before(row, i, r) {
                let j = choose|j: int|
                    0 <= j < i && (#[trigger] row[j]).dst() == Some(r as u32);
                assert(0 <= j < i + 1 && row[j].dst() == Some(r as u32));
            }
            if row[i].dst() == Some(r as u32) {
                assert(written_before(row, i + 1, r));
            }
        }
    }
    assert(mark_dst(row[i], now) =~= next);
}

/// Whether a row reads only what it has written, over a register file in which
/// nothing has been written yet.
pub fn register_flow(row: &[LinearOp], unwritten: Vec<bool>) -> (r: bool)
    requires
        forall|k: int| 0 <= k < unwritten@.len() ==> !(#[trigger] unwritten@[k]),
    ensures
        r == flow_valid(row@, unwritten@.len()),
{
    let ghost count = unwritten@.len();
    let mut initialized = unwritten;
    assert(initialized@ =~= ready_before(row@, 0, count));
    let mut i: usize = 0;
    while i < row.len()
        invariant
            i <= row.len(),
            count == unwritten@.len(),
            initialized@ == ready_before(row@, i as int, count),
            forall|k: int|
                0 <= k < i ==> sources_ready(#[trigger] row@[k], ready_before(row@, k, count)),
        decreases row.len() - i,
    {
        if !op_sources_initialized(&row[i], initialized.as_slice()) {
            assert(!sources_ready(row@[i as int], ready_before(row@, i as int, count)));
            return false;
        }
        mark_op_dests_initialized(&row[i], &mut initialized);
        proof {
            lemma_ready_before_step(row@, i as int, count);
        }
        i = i + 1;
    }
    true
}

/// A vector of `len` copies of `value`, or an error when the host has no room
/// for it. Whether there is room depends on the machine alone.
pub fn eval_solve_bool_values(len: usize, value: bool, context: &'static str) -> (r: Result<
    Vec<bool>,
    EvalSolveError,
>)
    ensures
        match r {
            Ok(values) => values@ == Seq::new(len as nat, |i: int| value),
            Err(e) => e@ == row_error(context@ + " exceeds host memory limits"@),
        },
{
    let mut values: Vec<bool> = Vec::new();
    match values.try_reserve(len) {
        Ok(()) => {},
        Err(_) => {
            let mut message = owned(context);
            message.append(" exceeds host memory limits");
            return Err(invalid_row(message));
        },
    }
    values.resize(len, value);
    assert(values@ =~= Seq::new(len as nat, |i: int| value));
    Ok(values)
}

/// Whether a row reads only what it has written.
///
/// Fails where the row's registers cannot be counted, or where the host has no
/// room for one flag per register.
pub fn row_register_flow_is_valid(row: &[LinearOp]) -> (r: Result<bool, EvalSolveError>)
    ensures
        match r {
            Ok(valid) => row_range_error(row@) is None && exists|count: nat| #[trigger]
                is_register_count(row@, count as int) && valid == flow_valid(row@, count),
            Err(e) => match row_range_error(row@) {
                Some(view) => e@ == view,
                None => {
                    ||| is_register_count(row@, usize::MAX + 1) && e@ == row_error(
                        "register index "@ + nat_text(usize::MAX as nat)
                            + " overflows register count"@,
                    )
                    ||| e@ == row_error("row register flow state"@ + " exceeds host memory limits"@)
                },
            },
        },
{
    let count: usize = match required_registers(row) {
        Ok(count) => count,
        Err(e) => {
            return Err(e);
        },
    };
    let initialized = match eval_solve_bool_values(count, false, "row register flow state") {
        Ok(values) => values,
        Err(e) => {
            return Err(e);
        },
    };
    assert(initialized@.len() == count);
    assert(is_register_count(row@, count as nat as int));
    Ok(register_flow(row, initialized))
}

} // verus!
