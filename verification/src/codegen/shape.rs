//! Sizes and positions of matrix nodes, with every count checked.
use crate::codegen::value::{
    as_usize, error_text, get_field, lemma_view_items, missing_field, render_err,
    required_usize_field, usize_field, value_mentions, value_views, Outcome, RenderError,
    TemplateValue, ValueKind, ValueView,
};
use crate::text::{nat_text, owned, push_usize};
use vstd::prelude::*;

verus! {

/// No more elements than this are written out one by one.
pub const RENDER_ENUMERATION_LIMIT: usize = 1000000;

/// A product that has to fit.
pub open spec fn product(a: int, b: int, context: Seq<char>) -> Outcome<int> {
    if a * b <= usize::MAX {
        Ok(a * b)
    } else {
        Err(context + " overflows host index range"@)
    }
}

/// A sum that has to fit.
pub open spec fn sum(a: int, b: int, context: Seq<char>) -> Outcome<int> {
    if a + b <= usize::MAX {
        Ok(a + b)
    } else {
        Err(context + " overflows host index range"@)
    }
}

/// A count that has to stay within the limit.
pub open spec fn limited(count: int, context: Seq<char>) -> Outcome<int> {
    if count > RENDER_ENUMERATION_LIMIT {
        Err(
            context + " ("@ + nat_text(count as nat) + ") exceeds render enumeration limit "@
                + nat_text(RENDER_ENUMERATION_LIMIT as nat),
        )
    } else {
        Ok(count)
    }
}

/// A product that has to fit and stay within the limit.
pub open spec fn limited_product(a: int, b: int, context: Seq<char>) -> Outcome<int> {
    match product(a, b, context) {
        Ok(count) => limited(count, context),
        Err(e) => Err(e),
    }
}

/// A start and an offset into a matrix with this many columns.
pub open spec fn cell(
    start: int,
    row: int,
    columns: int,
    column: int,
    row_context: Seq<char>,
    cell_context: Seq<char>,
    context: Seq<char>,
) -> Outcome<int> {
    match product(row, columns, row_context) {
        Ok(row_offset) => match sum(row_offset, column, cell_context) {
            Ok(offset) => sum(start, offset, context),
            Err(e) => Err(e),
        },
        Err(e) => Err(e),
    }
}

/// Whether a counting step gives what is expected.
pub open spec fn counted(r: Result<usize, RenderError>, expected: Outcome<int>) -> bool {
    match r {
        Ok(n) => expected == Ok::<_, Seq<char>>(n as int),
        Err(e) => expected == Err::<int, _>(e@),
    }
}

/// A product that has to fit.
pub fn checked_product(a: usize, b: usize, context: &str) -> (r: Result<usize, RenderError>)
    ensures
        counted(r, product(a as int, b as int, context@)),
{
    match a.checked_mul(b) {
        Some(n) => Ok(n),
        None => {
            let mut detail = owned(context);
            detail.append(" overflows host index range");
            Err(RenderError { detail })
        },
    }
}

/// A sum that has to fit.
pub fn checked_sum(a: usize, b: usize, context: &str) -> (r: Result<usize, RenderError>)
    ensures
        counted(r, sum(a as int, b as int, context@)),
{
    match a.checked_add(b) {
        Some(n) => Ok(n),
        None => {
            let mut detail = owned(context);
            detail.append(" overflows host index range");
            Err(RenderError { detail })
        },
    }
}

/// A count that has to stay within the limit.
pub fn checked_render_count(count: usize, context: &str) -> (r: Result<usize, RenderError>)
    ensures
        counted(r, limited(count as int, context@)),
{
    if count > RENDER_ENUMERATION_LIMIT {
        let mut detail = owned(context);
        detail.append(" (");
        push_usize(&mut detail, count);
        detail.append(") exceeds render enumeration limit ");
        push_usize(&mut detail, RENDER_ENUMERATION_LIMIT);
        return Err(RenderError { detail });
    }
    Ok(count)
}

fn checked_limited_product(a: usize, b: usize, context: &str) -> (r: Result<usize, RenderError>)
    ensures
        counted(r, limited_product(a as int, b as int, context@)),
{
    match checked_product(a, b, context) {
        Ok(count) => checked_render_count(count, context),
        Err(e) => Err(e),
    }
}

fn checked_cell(
    start: usize,
    row: usize,
    columns: usize,
    column: usize,
    row_context: &str,
    cell_context: &str,
    context: &str,
) -> (r: Result<usize, RenderError>)
    ensures
        counted(
            r,
            cell(
                start as int,
                row as int,
                columns as int,
                column as int,
                row_context@,
                cell_context@,
                context@,
            ),
        ),
{
    match checked_product(row, columns, row_context) {
        Ok(row_offset) => match checked_sum(row_offset, column, cell_context) {
            Ok(offset) => checked_sum(start, offset, context),
            Err(e) => Err(e),
        },
        Err(e) => Err(e),
    }
}

/// A matrix product: where its operands start, their sizes, and where its
/// results go.
#[derive(Clone, Copy, Debug, PartialEq, Eq, Structural)]
pub struct MatMulRenderShape {
    pub lhs_start: usize,
    pub rhs_start: usize,
    pub m: usize,
    pub k: usize,
    pub n: usize,
    pub offset: usize,
}

impl MatMulRenderShape {
    pub open spec fn outputs(self) -> Outcome<int> {
        limited_product(self.m as int, self.n as int, "MatMul output count"@)
    }

    pub open spec fn lhs_elements(self) -> Outcome<int> {
        limited_product(self.m as int, self.k as int, "MatMul lhs element count"@)
    }

    pub open spec fn rhs_elements(self) -> Outcome<int> {
        limited_product(self.k as int, self.n as int, "MatMul rhs element count"@)
    }

    pub open spec fn diagonal_outputs(self) -> Outcome<int> {
        limited(self.m as int, "MatMul diagonal output count"@)
    }

    pub open spec fn end(self) -> Outcome<int> {
        match self.outputs() {
            Ok(count) => sum(self.offset as int, count, "MatMul output end offset"@),
            Err(e) => Err(e),
        }
    }

    pub open spec fn output_at(self, slot: int) -> Outcome<int> {
        sum(self.offset as int, slot, "MatMul output index"@)
    }

    pub open spec fn lhs_at(self, row: int, column: int) -> Outcome<int> {
        cell(
            self.lhs_start as int,
            row,
            self.k as int,
            column,
            "MatMul lhs row offset"@,
            "MatMul lhs cell offset"@,
            "MatMul lhs register index"@,
        )
    }

    pub open spec fn rhs_at(self, row: int, column: int) -> Outcome<int> {
        cell(
            self.rhs_start as int,
            row,
            self.n as int,
            column,
            "MatMul rhs row offset"@,
            "MatMul rhs cell offset"@,
            "MatMul rhs register index"@,
        )
    }

    pub open spec fn diagonal_at(self, index: int) -> Outcome<int> {
        match sum(self.m as int, 1, "MatMul diagonal stride"@) {
            Ok(stride) => match product(index, stride, "MatMul diagonal lhs offset"@) {
                Ok(offset) => sum(
                    self.lhs_start as int,
                    offset,
                    "MatMul diagonal lhs register index"@,
                ),
                Err(e) => Err(e),
            },
            Err(e) => Err(e),
        }
    }

    pub open spec fn vector_at(self, index: int) -> Outcome<int> {
        sum(self.rhs_start as int, index, "MatMul rhs vector register index"@)
    }

    /// Number of results.
    pub fn output_count(self) -> (r: Result<usize, RenderError>)
        ensures
            counted(r, self.outputs()),
    {
        checked_limited_product(self.m, self.n, "MatMul output count")
    }

    /// Number of elements of the left operand.
    pub fn dense_lhs_count(self) -> (r: Result<usize, RenderError>)
        ensures
            counted(r, self.lhs_elements()),
    {
        checked_limited_product(self.m, self.k, "MatMul lhs element count")
    }

    /// Number of elements of the right operand.
    pub fn dense_rhs_count(self) -> (r: Result<usize, RenderError>)
        ensures
            counted(r, self.rhs_elements()),
    {
        checked_limited_product(self.k, self.n, "MatMul rhs element count")
    }

    /// Number of results of a diagonal product.
    pub fn diagonal_output_count(self) -> (r: Result<usize, RenderError>)
        ensures
            counted(r, self.diagonal_outputs()),
    {
        checked_render_count(self.m, "MatMul diagonal output count")
    }

    /// Position after the last result.
    pub fn end_offset(self) -> (r: Result<usize, RenderError>)
        ensures
            counted(r, self.end()),
    {
        match self.output_count() {
            Ok(count) => checked_sum(self.offset, count, "MatMul output end offset"),
            Err(e) => Err(e),
        }
    }

    /// Position of a result.
    pub fn output_index(self, slot: usize) -> (r: Result<usize, RenderError>)
        ensures
            counted(r, self.output_at(slot as int)),
    {
        checked_sum(self.offset, slot, "MatMul output index")
    }

    /// Register of an element of the left operand.
    pub fn lhs_matrix_reg(self, row: usize, column: usize) -> (r: Result<usize, RenderError>)
        ensures
            counted(r, self.lhs_at(row as int, column as int)),
    {
        checked_cell(
            self.lhs_start,
            row,
            self.k,
            column,
            "MatMul lhs row offset",
            "MatMul lhs cell offset",
            "MatMul lhs register index",
        )
    }

    /// Register of an element of the right operand.
    pub fn rhs_matrix_reg(self, row: usize, column: usize) -> (r: Result<usize, RenderError>)
        ensures
            counted(r, self.rhs_at(row as int, column as int)),
    {
        checked_cell(
            self.rhs_start,
            row,
            self.n,
            column,
            "MatMul rhs row offset",
            "MatMul rhs cell offset",
            "MatMul rhs register index",
        )
    }

    /// Register of an element of a diagonal left operand.
    pub fn diagonal_lhs_reg(self, index: usize) -> (r: Result<usize, RenderError>)
        ensures
            counted(r, self.diagonal_at(index as int)),
    {
        match checked_sum(self.m, 1, "MatMul diagonal stride") {
            Ok(stride) => match checked_product(index, stride, "MatMul diagonal lhs offset") {
                Ok(offset) => checked_sum(
                    self.lhs_start,
                    offset,
                    "MatMul diagonal lhs register index",
                ),
                Err(e) => Err(e),
            },
            Err(e) => Err(e),
        }
    }

    /// Register of an element of a vector on the right.
    pub fn rhs_vector_reg(self, index: usize) -> (r: Result<usize, RenderError>)
        ensures
            counted(r, self.vector_at(index as int)),
    {
        checked_sum(self.rhs_start, index, "MatMul rhs vector register index")
    }
}

/// How the left operand of a product is filled.
#[derive(Clone, Copy, Debug, PartialEq, Eq, Structural)]
pub enum Filling {
    Dense,
    Diagonal,
    Explicit,
}

/// The end of the results of a shape that can be written out.
pub open spec fn valid_end(shape: MatMulRenderShape, filling: Filling) -> Outcome<int> {
    match shape.end() {
        Err(e) => Err(e),
        Ok(end) => match filling {
            Filling::Diagonal => match shape.diagonal_outputs() {
                Ok(_) => Ok(end),
                Err(e) => Err(e),
            },
            Filling::Explicit => match shape.outputs() {
                Ok(_) => Ok(end),
                Err(e) => Err(e),
            },
            Filling::Dense => match shape.lhs_elements() {
                Ok(_) => match shape.rhs_elements() {
                    Ok(_) => match shape.outputs() {
                        Ok(_) => Ok(end),
                        Err(e) => Err(e),
                    },
                    Err(e) => Err(e),
                },
                Err(e) => Err(e),
            },
        },
    }
}

/// Checks that a product can be written out, and gives the end of its results.
pub fn validate_matmul_render_shape(shape: MatMulRenderShape, filling: Filling) -> (r: Result<
    usize,
    RenderError,
>)
    ensures
        counted(r, valid_end(shape, filling)),
{
    let end = match shape.end_offset() {
        Ok(end) => end,
        Err(e) => {
            return Err(e);
        },
    };
    match filling {
        Filling::Diagonal => {
            if let Err(e) = shape.diagonal_output_count() {
                return Err(e);
            }
        },
        Filling::Explicit => {
            if let Err(e) = shape.output_count() {
                return Err(e);
            }
        },
        Filling::Dense => {
            if let Err(e) = shape.dense_lhs_count() {
                return Err(e);
            }
            if let Err(e) = shape.dense_rhs_count() {
                return Err(e);
            }
            if let Err(e) = shape.output_count() {
                return Err(e);
            }
        },
    }
    Ok(end)
}

/// A linear solve: where matrix and right-hand side start, their size, and where
/// the solution goes.
#[derive(Clone, Copy, Debug, PartialEq, Eq, Structural)]
pub struct LinSolveRenderShape {
    pub matrix_start: usize,
    pub rhs_start: usize,
    pub n: usize,
    pub output_offset: usize,
}

impl LinSolveRenderShape {
    pub open spec fn matrix_elements(self) -> Outcome<int> {
        limited_product(self.n as int, self.n as int, "LinSolve matrix element count"@)
    }

    pub open spec fn rhs_elements(self) -> Outcome<int> {
        limited(self.n as int, "LinSolve RHS element count"@)
    }

    pub open spec fn outputs(self) -> Outcome<int> {
        limited(self.n as int, "LinSolve output count"@)
    }

    pub open spec fn end(self) -> Outcome<int> {
        match self.outputs() {
            Ok(count) => sum(self.output_offset as int, count, "LinSolve output end offset"@),
            Err(e) => Err(e),
        }
    }

    pub open spec fn output_at(self, component: int) -> Outcome<int> {
        sum(self.output_offset as int, component, "LinSolve output index"@)
    }

    pub open spec fn matrix_at(self, offset: int) -> Outcome<int> {
        sum(self.matrix_start as int, offset, "LinSolve matrix register index"@)
    }

    pub open spec fn rhs_at(self, offset: int) -> Outcome<int> {
        sum(self.rhs_start as int, offset, "LinSolve RHS register index"@)
    }

    /// Number of elements of the matrix.
    pub fn matrix_count(self) -> (r: Result<usize, RenderError>)
        ensures
            counted(r, self.matrix_elements()),
    {
        checked_limited_product(self.n, self.n, "LinSolve matrix element count")
    }

    /// Number of elements of the right-hand side.
    pub fn rhs_count(self) -> (r: Result<usize, RenderError>)
        ensures
            counted(r, self.rhs_elements()),
    {
        checked_render_count(self.n, "LinSolve RHS element count")
    }

    /// Number of results.
    pub fn output_count(self) -> (r: Result<usize, RenderError>)
        ensures
            counted(r, self.outputs()),
    {
        checked_render_count(self.n, "LinSolve output count")
    }

    /// Position after the last result.
    pub fn end_offset(self) -> (r: Result<usize, RenderError>)
        ensures
            counted(r, self.end()),
    {
        match self.output_count() {
            Ok(count) => checked_sum(self.output_offset, count, "LinSolve output end offset"),
            Err(e) => Err(e),
        }
    }

    /// Position of a result.
    pub fn output_index(self, component: usize) -> (r: Result<usize, RenderError>)
        ensures
            counted(r, self.output_at(component as int)),
    {
        checked_sum(self.output_offset, component, "LinSolve output index")
    }

    /// Register of an element of the matrix.
    pub fn matrix_reg(self, offset: usize) -> (r: Result<usize, RenderError>)
        ensures
            counted(r, self.matrix_at(offset as int)),
    {
        checked_sum(self.matrix_start, offset, "LinSolve matrix register index")
    }

    /// Register of an element of the right-hand side.
    pub fn rhs_reg(self, offset: usize) -> (r: Result<usize, RenderError>)
        ensures
            counted(r, self.rhs_at(offset as int)),
    {
        checked_sum(self.rhs_start, offset, "LinSolve RHS register index")
    }
}

/// Sizes of matrix and right-hand side and the end of the results of a linear
/// solve that can be written out.
pub open spec fn valid_linsolve(shape: LinSolveRenderShape) -> Outcome<(int, int, int)> {
    match shape.matrix_elements() {
        Ok(matrix) => match shape.rhs_elements() {
            Ok(rhs) => match shape.end() {
                Ok(end) => Ok((matrix, rhs, end)),
                Err(e) => Err(e),
            },
            Err(e) => Err(e),
        },
        Err(e) => Err(e),
    }
}

/// Checks that a linear solve can be written out.
pub fn validate_linsolve_render_shape(shape: LinSolveRenderShape) -> (r: Result<
    (usize, usize, usize),
    RenderError,
>)
    ensures
        match r {
            Ok((matrix, rhs, end)) => valid_linsolve(shape) == Ok::<_, Seq<char>>(
                (matrix as int, rhs as int, end as int),
            ),
            Err(e) => valid_linsolve(shape) == Err::<(int, int, int), _>(e@),
        },
{
    let matrix = match shape.matrix_count() {
        Ok(n) => n,
        Err(e) => {
            return Err(e);
        },
    };
    let rhs = match shape.rhs_count() {
        Ok(n) => n,
        Err(e) => {
            return Err(e);
        },
    };
    let end = match shape.end_offset() {
        Ok(n) => n,
        Err(e) => {
            return Err(e);
        },
    };
    Ok((matrix, rhs, end))
}

/// The error for entry `i` of the nonzero positions.
pub open spec fn entry_error(i: int, part: Seq<char>) -> Seq<char> {
    "MatMul Explicit sparsity nnz["@ + nat_text(i as nat) + "] "@ + part
        + " must be a non-negative integer"@
}

/// One coordinate of a nonzero position.
pub open spec fn coordinate(pair: ValueView, at: int) -> Option<usize> {
    if pair.kind is List && at < pair.items.len() {
        pair.items[at].as_usize()
    } else {
        None
    }
}

/// The first `n` nonzero positions.
pub open spec fn positions(list: Seq<ValueView>, n: int) -> Outcome<Seq<(usize, usize)>>
    decreases n,
{
    if n <= 0 {
        Ok(Seq::empty())
    } else {
        match positions(list, n - 1) {
            Err(e) => Err(e),
            Ok(front) => match coordinate(list[n - 1], 0) {
                None => Err(entry_error(n - 1, "row"@)),
                Some(row) => match coordinate(list[n - 1], 1) {
                    None => Err(entry_error(n - 1, "col"@)),
                    Some(col) => Ok(front.push((row, col))),
                },
            },
        }
    }
}

/// The nonzero positions of an explicit pattern.
pub open spec fn explicit_positions(sparsity: ValueView) -> Outcome<Seq<(usize, usize)>> {
    match sparsity.field("Explicit"@) {
        None => Err(
            "MatMul Explicit sparsity missing variant: "@ + error_text(missing_field("Explicit"@)),
        ),
        Some(explicit) => match explicit.field("nnz"@) {
            None => Err(
                "MatMul Explicit sparsity missing nnz: "@ + error_text(missing_field("nnz"@)),
            ),
            Some(nnz) => if nnz.kind is List {
                positions(nnz.items, nnz.items.len() as int)
            } else {
                Err("MatMul Explicit sparsity nnz must be an array"@)
            },
        },
    }
}

fn read_coordinate(pair: &TemplateValue, at: usize) -> (r: Option<usize>)
    ensures
        r == coordinate(pair@, at as int),
{
    proof {
        lemma_view_items(*pair);
    }
    match &pair.kind {
        ValueKind::List => {
            if at < pair.items.len() {
                as_usize(&pair.items[at])
            } else {
                None
            }
        },
        _ => None,
    }
}

fn make_entry_error(i: usize, part: &str) -> (e: RenderError)
    ensures
        e@ == entry_error(i as int, part@),
{
    let mut detail = owned("MatMul Explicit sparsity nnz[");
    push_usize(&mut detail, i);
    detail.append("] ");
    detail.append(part);
    detail.append(" must be a non-negative integer");
    RenderError { detail }
}

proof fn lemma_positions_fail(list: Seq<ValueView>, k: int, n: int)
    requires
        0 <= k <= n,
        positions(list, k) is Err,
    ensures
        positions(list, n) == positions(list, k),
    decreases n,
{
    if k < n {
        lemma_positions_fail(list, k, n - 1);
    }
}

/// The nonzero positions of an explicit pattern.
pub fn extract_explicit_nnz(sparsity: &TemplateValue) -> (r: Result<
    Vec<(usize, usize)>,
    RenderError,
>)
    ensures
        match r {
            Ok(list) => explicit_positions(sparsity@) == Ok::<_, Seq<char>>(list@),
            Err(e) => explicit_positions(sparsity@) == Err::<Seq<(usize, usize)>, _>(e@),
        },
{
    let explicit = match get_field(sparsity, "Explicit") {
        Ok(v) => v,
        Err(e) => {
            let mut detail = owned("MatMul Explicit sparsity missing variant: ");
            detail.append(e.message().as_str());
            return Err(RenderError { detail });
        },
    };
    let nnz = match get_field(explicit, "nnz") {
        Ok(v) => v,
        Err(e) => {
            let mut detail = owned("MatMul Explicit sparsity missing nnz: ");
            detail.append(e.message().as_str());
            return Err(RenderError { detail });
        },
    };
    proof {
        lemma_view_items(*nnz);
    }
    let is_list: bool = match &nnz.kind {
        ValueKind::List => true,
        _ => false,
    };
    if !is_list {
        return Err(render_err("MatMul Explicit sparsity nnz must be an array"));
    }
    let ghost items = nnz@.items;
    let mut list: Vec<(usize, usize)> = Vec::new();
    let mut i: usize = 0;
    assert(list@ =~= Seq::<(usize, usize)>::empty());
    while i < nnz.items.len()
        invariant
            i <= nnz.items@.len(),
            items == value_views(nnz.items@),
            explicit_positions(sparsity@) == positions(items, items.len() as int),
            positions(items, i as int) == Ok::<_, Seq<char>>(list@),
        decreases nnz.items.len() - i,
    {
        let pair = &nnz.items[i];
        assert(items[i as int] == pair@);
        proof {
            if positions(items, i + 1) is Err {
                lemma_positions_fail(items, i + 1, items.len() as int);
            }
        }
        let row = match read_coordinate(pair, 0) {
            Some(n) => n,
            None => {
                return Err(make_entry_error(i, "row"));
            },
        };
        let col = match read_coordinate(pair, 1) {
            Some(n) => n,
            None => {
                return Err(make_entry_error(i, "col"));
            },
        };
        list.push((row, col));
        i = i + 1;
    }
    Ok(list)
}

/// The nonzero positions among the first `n` that stand in a row.
pub open spec fn row_positions(nnz: Seq<(usize, usize)>, row: int, n: int) -> Seq<(usize, usize)>
    decreases n,
{
    if n <= 0 {
        Seq::empty()
    } else if nnz[n - 1].0 == row {
        row_positions(nnz, row, n - 1).push(nnz[n - 1])
    } else {
        row_positions(nnz, row, n - 1)
    }
}

/// The nonzero positions of a row.
pub fn matmul_nnz_for_row(nnz: &Vec<(usize, usize)>, row: usize) -> (r: Vec<(usize, usize)>)
    ensures
        r@ == row_positions(nnz@, row as int, nnz@.len() as int),
{
    let mut r: Vec<(usize, usize)> = Vec::new();
    let mut i: usize = 0;
    while i < nnz.len()
        invariant
            i <= nnz@.len(),
            r@ == row_positions(nnz@, row as int, i as int),
        decreases nnz.len() - i,
    {
        if nnz[i].0 == row {
            r.push(nnz[i]);
        }
        i = i + 1;
    }
    r
}

/// A matrix product that can be written out.
#[derive(Debug)]
pub struct MatMulPlan {
    pub shape: MatMulRenderShape,
    pub filling: Filling,
    /// Nonzero positions of the left operand where they are given.
    pub nnz: Vec<(usize, usize)>,
    pub end_offset: usize,
}

pub struct PlanView {
    pub shape: MatMulRenderShape,
    pub filling: Filling,
    pub nnz: Seq<(usize, usize)>,
    pub end_offset: usize,
}

impl View for MatMulPlan {
    type V = PlanView;

    open spec fn view(&self) -> PlanView {
        PlanView {
            shape: self.shape,
            filling: self.filling,
            nnz: self.nnz@,
            end_offset: self.end_offset,
        }
    }
}

/// How the left operand is filled: a diagonal counts for a square matrix times a
/// vector alone.
pub open spec fn filling_of(sparsity: ValueView, m: usize, k: usize, n: usize) -> Filling {
    if sparsity.mentions("Diagonal"@) && n == 1 && m == k {
        Filling::Diagonal
    } else if sparsity.mentions("Explicit"@) {
        Filling::Explicit
    } else {
        Filling::Dense
    }
}

/// A field, or the error for its absence.
pub open spec fn plain_field(node: ValueView, name: Seq<char>) -> Outcome<ValueView> {
    match node.field(name) {
        Some(v) => Ok(v),
        None => Err(missing_field(name)),
    }
}

/// The matrix product that a node describes.
pub open spec fn matmul_plan(node: ValueView, offset: usize) -> Outcome<PlanView> {
    match plain_field(node, "lhs_ops"@) {
        Err(e) => Err(e),
        Ok(_) => match usize_field(node, "lhs_start"@) {
            Err(e) => Err(e),
            Ok(lhs_start) => match plain_field(node, "rhs_ops"@) {
                Err(e) => Err(e),
                Ok(_) => match usize_field(node, "rhs_start"@) {
                    Err(e) => Err(e),
                    Ok(rhs_start) => matmul_sizes(node, offset, lhs_start, rhs_start),
                },
            },
        },
    }
}

/// The matrix product of a node whose operands start at these registers.
pub open spec fn matmul_sizes(
    node: ValueView,
    offset: usize,
    lhs_start: usize,
    rhs_start: usize,
) -> Outcome<PlanView> {
    match usize_field(node, "m"@) {
        Err(e) => Err(e),
        Ok(m) => match usize_field(node, "k"@) {
            Err(e) => Err(e),
            Ok(k) => match usize_field(node, "n"@) {
                Err(e) => Err(e),
                Ok(n) => matmul_filled(
                    node,
                    MatMulRenderShape { lhs_start, rhs_start, m, k, n, offset },
                ),
            },
        },
    }
}

/// The matrix product of a node with this shape.
pub open spec fn matmul_filled(node: ValueView, shape: MatMulRenderShape) -> Outcome<PlanView> {
    match node.field("lhs_sparsity"@) {
        None => Err("MatMul missing lhs_sparsity: "@ + error_text(missing_field("lhs_sparsity"@))),
        Some(sparsity) => {
            let filling = filling_of(sparsity, shape.m, shape.k, shape.n);
            let nnz = if filling is Explicit {
                explicit_positions(sparsity)
            } else {
                Ok(Seq::empty())
            };
            match nnz {
                Err(e) => Err(e),
                Ok(nnz) => match valid_end(shape, filling) {
                    Ok(end) => Ok(PlanView { shape, filling, nnz, end_offset: end as usize }),
                    Err(e) => Err(e),
                },
            }
        },
    }
}

/// Whether planning gives what is expected.
pub open spec fn planned(r: Result<MatMulPlan, RenderError>, expected: Outcome<PlanView>) -> bool {
    match r {
        Ok(plan) => expected == Ok::<_, Seq<char>>(plan@),
        Err(e) => expected == Err::<PlanView, _>(e@),
    }
}

fn plan_filled(node: &TemplateValue, shape: MatMulRenderShape) -> (r: Result<
    MatMulPlan,
    RenderError,
>)
    ensures
        planned(r, matmul_filled(node@, shape)),
{
    let sparsity = match get_field(node, "lhs_sparsity") {
        Ok(v) => v,
        Err(e) => {
            let mut detail = owned("MatMul missing lhs_sparsity: ");
            detail.append(e.message().as_str());
            return Err(RenderError { detail });
        },
    };
    let filling: Filling = if value_mentions(sparsity, "Diagonal") && shape.n == 1 && shape.m
        == shape.k {
        Filling::Diagonal
    } else if value_mentions(sparsity, "Explicit") {
        Filling::Explicit
    } else {
        Filling::Dense
    };
    let nnz: Vec<(usize, usize)> = match filling {
        Filling::Explicit => match extract_explicit_nnz(sparsity) {
            Ok(list) => list,
            Err(e) => {
                return Err(e);
            },
        },
        _ => Vec::new(),
    };
    assert(!(filling is Explicit) ==> nnz@ =~= Seq::<(usize, usize)>::empty());
    match validate_matmul_render_shape(shape, filling) {
        Ok(end_offset) => Ok(MatMulPlan { shape, filling, nnz, end_offset }),
        Err(e) => Err(e),
    }
}

/// Reads and checks the matrix product that a node describes.
pub fn plan_matmul(node: &TemplateValue, offset: usize) -> (r: Result<MatMulPlan, RenderError>)
    ensures
        planned(r, matmul_plan(node@, offset)),
{
    if let Err(e) = get_field(node, "lhs_ops") {
        return Err(e);
    }
    let lhs_start = match required_usize_field(node, "lhs_start") {
        Ok(n) => n,
        Err(e) => {
            return Err(e);
        },
    };
    if let Err(e) = get_field(node, "rhs_ops") {
        return Err(e);
    }
    let rhs_start = match required_usize_field(node, "rhs_start") {
        Ok(n) => n,
        Err(e) => {
            return Err(e);
        },
    };
    let m = match required_usize_field(node, "m") {
        Ok(n) => n,
        Err(e) => {
            return Err(e);
        },
    };
    let k = match required_usize_field(node, "k") {
        Ok(n) => n,
        Err(e) => {
            return Err(e);
        },
    };
    let n = match required_usize_field(node, "n") {
        Ok(n) => n,
        Err(e) => {
            return Err(e);
        },
    };
    plan_filled(node, MatMulRenderShape { lhs_start, rhs_start, m, k, n, offset })
}

/// Different elements of the left operand stand in different registers.
pub proof fn law_lhs_elements_have_own_registers(
    shape: MatMulRenderShape,
    r1: int,
    c1: int,
    r2: int,
    c2: int,
)
    requires
        0 <= r1,
        0 <= r2,
        0 <= c1 < shape.k,
        0 <= c2 < shape.k,
        shape.lhs_at(r1, c1) is Ok,
        shape.lhs_at(r1, c1) == shape.lhs_at(r2, c2),
    ensures
        r1 == r2 && c1 == c2,
{
    lemma_cells_apart(shape.k as int, r1, c1, r2, c2);
}

/// Different elements of the right operand stand in different registers.
pub proof fn law_rhs_elements_have_own_registers(
    shape: MatMulRenderShape,
    r1: int,
    c1: int,
    r2: int,
    c2: int,
)
    requires
        0 <= r1,
        0 <= r2,
        0 <= c1 < shape.n,
        0 <= c2 < shape.n,
        shape.rhs_at(r1, c1) is Ok,
        shape.rhs_at(r1, c1) == shape.rhs_at(r2, c2),
    ensures
        r1 == r2 && c1 == c2,
{
    lemma_cells_apart(shape.n as int, r1, c1, r2, c2);
}

proof fn lemma_cells_apart(columns: int, r1: int, c1: int, r2: int, c2: int)
    requires
        0 <= c1 < columns,
        0 <= c2 < columns,
        r1 * columns + c1 == r2 * columns + c2,
    ensures
        r1 == r2,
        c1 == c2,
{
    if r1 < r2 {
        assert((r1 + 1) * columns <= r2 * columns) by (nonlinear_arith)
            requires
                r1 + 1 <= r2,
                0 < columns,
        ;
        assert((r1 + 1) * columns == r1 * columns + columns) by (nonlinear_arith);
    }
    if r2 < r1 {
        assert((r2 + 1) * columns <= r1 * columns) by (nonlinear_arith)
            requires
                r2 + 1 <= r1,
                0 < columns,
        ;
        assert((r2 + 1) * columns == r2 * columns + columns) by (nonlinear_arith);
    }
}

/// The results of a product that can be written out fill the range from its
/// offset to its end, one position each.
pub proof fn law_results_fill_their_range(shape: MatMulRenderShape, filling: Filling, slot: int)
    requires
        valid_end(shape, filling) is Ok,
        0 <= slot < shape.m * shape.n,
    ensures
        shape.output_at(slot) == Ok::<int, Seq<char>>(shape.offset + slot),
        shape.offset + slot < valid_end(shape, filling)->Ok_0,
        valid_end(shape, filling)->Ok_0 == shape.offset + shape.m * shape.n,
{
}

} // verus!
