//! Matrix products as C and Python text.
use crate::codegen::fill::{both, fill, filled, lemma_pieces_fail, pieces, rendered};
use crate::codegen::shape::{
    checked_sum, matmul_nnz_for_row, matmul_plan, plan_matmul, row_positions, sum, Filling,
    MatMulPlan, MatMulRenderShape, PlanView,
};
use crate::codegen::value::{
    as_usize, get_field, lemma_view_items, render_err, Outcome, RenderError,
    TemplateValue, ValueKind, ValueView,
};
use crate::text::{join, join_text, nat_text, owned, push_usize, usize_to_text, views};
use vstd::prelude::*;

verus! {

/// An array library of Python.
///
/// The libraries differ in the name of the product and in the order in which a
/// list of elements fills a matrix: row by row in one, column by column in the
/// other, where the matrix is filled transposed and turned.
#[derive(Clone, Copy, Debug, PartialEq, Eq, Structural)]
pub enum MatMulPyDialect {
    Jax,
    Casadi,
}

impl MatMulPyDialect {
    pub open spec fn label_text(self) -> Seq<char> {
        match self {
            MatMulPyDialect::Jax => "jax"@,
            MatMulPyDialect::Casadi => "casadi"@,
        }
    }

    /// An operand made of its elements, row by row.
    pub open spec fn operand_text(
        self,
        elements: Seq<Seq<char>>,
        rows: usize,
        columns: usize,
    ) -> Seq<char> {
        let args = seq![
            join_text(elements, ", "@),
            nat_text(rows as nat),
            nat_text(columns as nat),
        ];
        match self {
            MatMulPyDialect::Jax => filled("stack([{0}]).reshape(({1}, {2}))"@, args),
            MatMulPyDialect::Casadi => filled("reshape(vertcat({0}), {2}, {1}).T"@, args),
        }
    }

    /// The product of two operands.
    pub open spec fn call_text(self, lhs: Seq<char>, rhs: Seq<char>) -> Seq<char> {
        match self {
            MatMulPyDialect::Jax => filled("matmul({0}, {1})"@, seq![lhs, rhs]),
            MatMulPyDialect::Casadi => filled("mtimes({0}, {1})"@, seq![lhs, rhs]),
        }
    }

    /// The name of the library.
    pub fn label(self) -> (s: &'static str)
        ensures
            s@ == self.label_text(),
    {
        match self {
            MatMulPyDialect::Jax => "jax",
            MatMulPyDialect::Casadi => "casadi",
        }
    }

    /// An operand made of its elements, row by row.
    pub fn operand(self, elements: &Vec<String>, rows: usize, columns: usize) -> (s: String)
        ensures
            s@ == self.operand_text(views(elements@), rows, columns),
    {
        let items = join(elements, ", ");
        let args = vec![items, usize_to_text(rows), usize_to_text(columns)];
        assert(views(args@) =~= seq![
            join_text(views(elements@), ", "@),
            nat_text(rows as nat),
            nat_text(columns as nat),
        ]);
        match self {
            MatMulPyDialect::Jax => fill("stack([{0}]).reshape(({1}, {2}))", &args),
            MatMulPyDialect::Casadi => fill("reshape(vertcat({0}), {2}, {1}).T", &args),
        }
    }

    /// The product of two operands.
    pub fn matmul_call(self, lhs: &str, rhs: &str) -> (s: String)
        ensures
            s@ == self.call_text(lhs@, rhs@),
    {
        let args = vec![owned(lhs), owned(rhs)];
        assert(views(args@) =~= seq![lhs@, rhs@]);
        match self {
            MatMulPyDialect::Jax => fill("matmul({0}, {1})", &args),
            MatMulPyDialect::Casadi => fill("mtimes({0}, {1})", &args),
        }
    }
}

/// The language of the text.
#[derive(Clone, Copy, Debug, PartialEq, Eq, Structural)]
pub enum MatMulTarget {
    C,
    Python(MatMulPyDialect),
}

/// The text of a register.
pub open spec fn register(regs: Seq<Seq<char>>, at: int) -> Outcome<Seq<char>> {
    if 0 <= at < regs.len() {
        Ok(regs[at])
    } else {
        Err("solve register "@ + nat_text(at as nat) + " has no expression"@)
    }
}

/// The text of a register.
pub fn solve_reg(regs: &Vec<String>, at: usize) -> (r: Result<String, RenderError>)
    ensures
        rendered(r, register(views(regs@), at as int)),
{
    if at < regs.len() {
        assert(views(regs@)[at as int] == regs@[at as int]@);
        Ok(regs[at].clone())
    } else {
        let mut detail = owned("solve register ");
        push_usize(&mut detail, at);
        detail.append(" has no expression");
        Err(RenderError { detail })
    }
}

/// The text of a register whose position is counted.
pub open spec fn counted_register(regs: Seq<Seq<char>>, at: Outcome<int>) -> Outcome<Seq<char>> {
    match at {
        Ok(at) => register(regs, at),
        Err(e) => Err(e),
    }
}

fn read_register(regs: &Vec<String>, at: Result<usize, RenderError>) -> (r: Result<
    String,
    RenderError,
>)
    ensures
        rendered(
            r,
            counted_register(
                views(regs@),
                match at {
                    Ok(n) => Ok(n as int),
                    Err(e) => Err(e@),
                },
            ),
        ),
{
    match at {
        Ok(n) => solve_reg(regs, n),
        Err(e) => Err(e),
    }
}

/// The product of two register texts.
pub open spec fn times(a: Outcome<Seq<char>>, b: Outcome<Seq<char>>) -> Outcome<Seq<char>> {
    match a {
        Ok(a) => match b {
            Ok(b) => Ok(filled("({0}) * ({1})"@, seq![a, b])),
            Err(e) => Err(e),
        },
        Err(e) => Err(e),
    }
}

fn make_times(a: Result<String, RenderError>, b: Result<String, RenderError>) -> (r: Result<
    String,
    RenderError,
>)
    ensures
        rendered(
            r,
            times(
                match a {
                    Ok(s) => Ok(s@),
                    Err(e) => Err(e@),
                },
                match b {
                    Ok(s) => Ok(s@),
                    Err(e) => Err(e@),
                },
            ),
        ),
{
    match a {
        Ok(a) => match b {
            Ok(b) => {
                let ghost x = a@;
                let ghost y = b@;
                let args = vec![a, b];
                assert(views(args@) =~= seq![x, y]);
                Ok(fill("({0}) * ({1})", &args))
            },
            Err(e) => Err(e),
        },
        Err(e) => Err(e),
    }
}

/// The line that sets a result.
pub open spec fn set_line(target: MatMulTarget, at: int, value: Seq<char>) -> Seq<char> {
    let args = seq![nat_text(at as nat), value];
    match target {
        MatMulTarget::C => filled("\n\tm->xdot[{0}] = {1};"@, args),
        MatMulTarget::Python(_) => filled("\n\tout[{0}] = {1}"@, args),
    }
}

fn render_set_line(target: MatMulTarget, at: usize, value: String) -> (s: String)
    ensures
        s@ == set_line(target, at as int, value@),
{
    let ghost text = value@;
    let args = vec![usize_to_text(at), value];
    assert(views(args@) =~= seq![nat_text(at as nat), text]);
    match target {
        MatMulTarget::C => fill("\n\tm->xdot[{0}] = {1};", &args),
        MatMulTarget::Python(_) => fill("\n\tout[{0}] = {1}", &args),
    }
}

/// Result `i` of a diagonal product.
pub open spec fn diagonal_line(
    target: MatMulTarget,
    shape: MatMulRenderShape,
    regs: Seq<Seq<char>>,
    i: int,
) -> Outcome<Seq<char>> {
    match times(
        counted_register(regs, shape.diagonal_at(i)),
        counted_register(regs, shape.vector_at(i)),
    ) {
        Err(e) => Err(e),
        Ok(value) => match shape.output_at(i) {
            Err(e) => Err(e),
            Ok(out) => Ok(set_line(target, out, value)),
        },
    }
}

fn render_diagonal_line(
    target: MatMulTarget,
    shape: MatMulRenderShape,
    regs: &Vec<String>,
    i: usize,
) -> (r: Result<String, RenderError>)
    ensures
        rendered(r, diagonal_line(target, shape, views(regs@), i as int)),
{
    let a = read_register(regs, shape.diagonal_lhs_reg(i));
    let b = read_register(regs, shape.rhs_vector_reg(i));
    let value = match make_times(a, b) {
        Ok(s) => s,
        Err(e) => {
            return Err(e);
        },
    };
    match shape.output_index(i) {
        Ok(out) => Ok(render_set_line(target, out, value)),
        Err(e) => Err(e),
    }
}

/// The first `t` terms of a sparse sum.
pub open spec fn term_texts(
    shape: MatMulRenderShape,
    regs: Seq<Seq<char>>,
    row: int,
    column: int,
    nzs: Seq<(usize, usize)>,
    t: int,
) -> Outcome<Seq<Seq<char>>>
    decreases t,
{
    if t <= 0 {
        Ok(Seq::empty())
    } else {
        match term_texts(shape, regs, row, column, nzs, t - 1) {
            Err(e) => Err(e),
            Ok(front) => match times(
                counted_register(regs, shape.lhs_at(row, nzs[t - 1].1 as int)),
                counted_register(regs, shape.rhs_at(nzs[t - 1].1 as int, column)),
            ) {
                Err(e) => Err(e),
                Ok(term) => Ok(front.push(term)),
            },
        }
    }
}

proof fn lemma_term_texts_fail(
    shape: MatMulRenderShape,
    regs: Seq<Seq<char>>,
    row: int,
    column: int,
    nzs: Seq<(usize, usize)>,
    k: int,
    t: int,
)
    requires
        0 <= k <= t,
        term_texts(shape, regs, row, column, nzs, k) is Err,
    ensures
        term_texts(shape, regs, row, column, nzs, t) == term_texts(
            shape,
            regs,
            row,
            column,
            nzs,
            k,
        ),
    decreases t,
{
    if k < t {
        lemma_term_texts_fail(shape, regs, row, column, nzs, k, t - 1);
    }
}

/// The sum of a row's nonzero elements; zero where there are none.
pub open spec fn sparse_value(
    shape: MatMulRenderShape,
    regs: Seq<Seq<char>>,
    row: int,
    column: int,
    nzs: Seq<(usize, usize)>,
) -> Outcome<Seq<char>> {
    if nzs.len() == 0 {
        Ok("0.0"@)
    } else {
        match term_texts(shape, regs, row, column, nzs, nzs.len() as int) {
            Ok(terms) => Ok(join_text(terms, " + "@)),
            Err(e) => Err(e),
        }
    }
}

fn render_sparse_value(
    shape: MatMulRenderShape,
    regs: &Vec<String>,
    row: usize,
    column: usize,
    nzs: &Vec<(usize, usize)>,
) -> (r: Result<String, RenderError>)
    ensures
        rendered(r, sparse_value(shape, views(regs@), row as int, column as int, nzs@)),
{
    if nzs.len() == 0 {
        return Ok(owned("0.0"));
    }
    let ghost texts = views(regs@);
    let mut terms: Vec<String> = Vec::new();
    let mut t: usize = 0;
    assert(views(terms@) =~= Seq::<Seq<char>>::empty());
    while t < nzs.len()
        invariant
            t <= nzs@.len(),
            nzs@.len() > 0,
            texts == views(regs@),
            term_texts(shape, texts, row as int, column as int, nzs@, t as int) == Ok::<
                _,
                Seq<char>,
            >(views(terms@)),
        decreases nzs.len() - t,
    {
        let inner: usize = nzs[t].1;
        let a = read_register(regs, shape.lhs_matrix_reg(row, inner));
        let b = read_register(regs, shape.rhs_matrix_reg(inner, column));
        match make_times(a, b) {
            Ok(term) => {
                let ghost before = views(terms@);
                let ghost text = term@;
                terms.push(term);
                assert(views(terms@) =~= before.push(text));
            },
            Err(e) => {
                proof {
                    lemma_term_texts_fail(
                        shape,
                        texts,
                        row as int,
                        column as int,
                        nzs@,
                        t + 1,
                        nzs@.len() as int,
                    );
                }
                return Err(e);
            },
        }
        t = t + 1;
    }
    Ok(join(&terms, " + "))
}

/// Result `slot` of a product over given nonzero elements.
pub open spec fn sparse_line(
    target: MatMulTarget,
    plan: PlanView,
    regs: Seq<Seq<char>>,
    slot: int,
) -> Outcome<Seq<char>> {
    let shape = plan.shape;
    let row = slot / shape.n as int;
    let column = slot % shape.n as int;
    match shape.output_at(slot) {
        Err(e) => Err(e),
        Ok(out) => match sparse_value(
            shape,
            regs,
            row,
            column,
            row_positions(plan.nnz, row, plan.nnz.len() as int),
        ) {
            Err(e) => Err(e),
            Ok(value) => Ok(set_line(target, out, value)),
        },
    }
}

fn render_sparse_line(
    target: MatMulTarget,
    plan: &MatMulPlan,
    regs: &Vec<String>,
    slot: usize,
) -> (r: Result<String, RenderError>)
    requires
        plan.shape.n > 0,
    ensures
        rendered(r, sparse_line(target, plan@, views(regs@), slot as int)),
{
    let shape = plan.shape;
    let row: usize = slot / shape.n;
    let column: usize = slot % shape.n;
    let out = match shape.output_index(slot) {
        Ok(n) => n,
        Err(e) => {
            return Err(e);
        },
    };
    let nzs = matmul_nnz_for_row(&plan.nnz, row);
    match render_sparse_value(shape, regs, row, column, &nzs) {
        Ok(value) => Ok(render_set_line(target, out, value)),
        Err(e) => Err(e),
    }
}

/// Result `slot` taken from the product of whole operands.
pub open spec fn taken_line(shape: MatMulRenderShape, slot: int) -> Outcome<Seq<char>> {
    match shape.output_at(slot) {
        Err(e) => Err(e),
        Ok(out) => Ok(
            filled(
                "\n\tout[{0}] = __mm{1}[{2}, {3}]"@,
                seq![
                    nat_text(out as nat),
                    nat_text(shape.offset as nat),
                    nat_text((slot / shape.n as int) as nat),
                    nat_text((slot % shape.n as int) as nat),
                ],
            ),
        ),
    }
}

fn render_taken_line(shape: MatMulRenderShape, slot: usize) -> (r: Result<String, RenderError>)
    requires
        shape.n > 0,
    ensures
        rendered(r, taken_line(shape, slot as int)),
{
    let out = match shape.output_index(slot) {
        Ok(n) => n,
        Err(e) => {
            return Err(e);
        },
    };
    let row: usize = slot / shape.n;
    let column: usize = slot % shape.n;
    let args = vec![
        usize_to_text(out),
        usize_to_text(shape.offset),
        usize_to_text(row),
        usize_to_text(column),
    ];
    assert(views(args@) =~= seq![
        nat_text(out as nat),
        nat_text(shape.offset as nat),
        nat_text((slot as int / shape.n as int) as nat),
        nat_text((slot as int % shape.n as int) as nat),
    ]);
    Ok(fill("\n\tout[{0}] = __mm{1}[{2}, {3}]", &args))
}

/// The lines that repeat, one for each result.
#[derive(Clone, Copy, Debug, PartialEq, Eq, Structural)]
pub enum LineKind {
    Diagonal,
    Sparse,
    Taken,
}

/// Line `slot` of its kind.
pub open spec fn line_text(
    kind: LineKind,
    target: MatMulTarget,
    plan: PlanView,
    regs: Seq<Seq<char>>,
    slot: int,
) -> Outcome<Seq<char>> {
    match kind {
        LineKind::Diagonal => diagonal_line(target, plan.shape, regs, slot),
        LineKind::Sparse => sparse_line(target, plan, regs, slot),
        LineKind::Taken => taken_line(plan.shape, slot),
    }
}

/// The lines of a kind.
pub open spec fn line_texts(
    kind: LineKind,
    target: MatMulTarget,
    plan: PlanView,
    regs: Seq<Seq<char>>,
) -> spec_fn(int) -> Outcome<Seq<char>> {
    |slot: int| line_text(kind, target, plan, regs, slot)
}

/// The lines of a kind, as many as the count says.
pub open spec fn counted_lines(
    count: Outcome<int>,
    kind: LineKind,
    target: MatMulTarget,
    plan: PlanView,
    regs: Seq<Seq<char>>,
) -> Outcome<Seq<char>> {
    match count {
        Ok(count) => pieces(count, line_texts(kind, target, plan, regs)),
        Err(e) => Err(e),
    }
}

fn render_line_run(
    head: String,
    count: usize,
    kind: LineKind,
    target: MatMulTarget,
    plan: &MatMulPlan,
    regs: &Vec<String>,
) -> (r: Result<String, RenderError>)
    requires
        kind is Diagonal || (count > 0 ==> plan.shape.n > 0),
    ensures
        rendered(
            r,
            both(
                Ok(head@),
                pieces(count as int, line_texts(kind, target, plan@, views(regs@))),
            ),
        ),
{
    let ghost front = head@;
    let ghost line = line_texts(kind, target, plan@, views(regs@));
    let mut text = String::new();
    let mut i: usize = 0;
    assert(text@ =~= Seq::<char>::empty());
    while i < count
        invariant
            i <= count,
            front == head@,
            kind is Diagonal || (count > 0 ==> plan.shape.n > 0),
            line == line_texts(kind, target, plan@, views(regs@)),
            pieces(i as int, line) == Ok::<_, Seq<char>>(text@),
        decreases count - i,
    {
        let next = match kind {
            LineKind::Diagonal => render_diagonal_line(target, plan.shape, regs, i),
            LineKind::Sparse => render_sparse_line(target, plan, regs, i),
            LineKind::Taken => render_taken_line(plan.shape, i),
        };
        match next {
            Ok(s) => {
                text.append(s.as_str());
            },
            Err(e) => {
                proof {
                    lemma_pieces_fail(i + 1, count as int, line);
                }
                return Err(e);
            },
        }
        i = i + 1;
    }
    let mut out = head;
    out.append(text.as_str());
    Ok(out)
}

fn render_lines(
    head: String,
    count: Result<usize, RenderError>,
    kind: LineKind,
    target: MatMulTarget,
    plan: &MatMulPlan,
    regs: &Vec<String>,
) -> (r: Result<String, RenderError>)
    requires
        kind is Diagonal || (count is Ok && count->Ok_0 > 0 ==> plan.shape.n > 0),
    ensures
        rendered(
            r,
            both(
                Ok(head@),
                counted_lines(
                    match count {
                        Ok(n) => Ok(n as int),
                        Err(e) => Err(e@),
                    },
                    kind,
                    target,
                    plan@,
                    views(regs@),
                ),
            ),
        ),
{
    match count {
        Ok(n) => render_line_run(head, n, kind, target, plan, regs),
        Err(e) => Err(e),
    }
}

/// The first `n` registers from a start.
pub open spec fn register_list(regs: Seq<Seq<char>>, start: int, n: int) -> Outcome<Seq<Seq<char>>>
    decreases n,
{
    if n <= 0 {
        Ok(Seq::empty())
    } else {
        match register_list(regs, start, n - 1) {
            Err(e) => Err(e),
            Ok(front) => match counted_register(
                regs,
                sum(start, n - 1, "MatMul dense register index"@),
            ) {
                Err(e) => Err(e),
                Ok(text) => Ok(front.push(text)),
            },
        }
    }
}

proof fn lemma_register_list_fail(regs: Seq<Seq<char>>, start: int, k: int, n: int)
    requires
        0 <= k <= n,
        register_list(regs, start, k) is Err,
    ensures
        register_list(regs, start, n) == register_list(regs, start, k),
    decreases n,
{
    if k < n {
        lemma_register_list_fail(regs, start, k, n - 1);
    }
}

/// The texts of the registers of an operand.
pub fn render_matmul_register_array(regs: &Vec<String>, start: usize, count: usize) -> (r: Result<
    Vec<String>,
    RenderError,
>)
    ensures
        match r {
            Ok(list) => register_list(views(regs@), start as int, count as int) == Ok::<
                _,
                Seq<char>,
            >(views(list@)),
            Err(e) => register_list(views(regs@), start as int, count as int) == Err::<
                Seq<Seq<char>>,
                _,
            >(e@),
        },
{
    let ghost texts = views(regs@);
    let mut list: Vec<String> = Vec::new();
    let mut i: usize = 0;
    assert(views(list@) =~= Seq::<Seq<char>>::empty());
    while i < count
        invariant
            i <= count,
            texts == views(regs@),
            register_list(texts, start as int, i as int) == Ok::<_, Seq<char>>(views(list@)),
        decreases count - i,
    {
        match read_register(regs, checked_sum(start, i, "MatMul dense register index")) {
            Ok(text) => {
                let ghost before = views(list@);
                let ghost chars = text@;
                list.push(text);
                assert(views(list@) =~= before.push(chars));
            },
            Err(e) => {
                proof {
                    lemma_register_list_fail(texts, start as int, i + 1, count as int);
                }
                return Err(e);
            },
        }
        i = i + 1;
    }
    Ok(list)
}

/// What a comment says of a product: its sizes, and where its results go.
pub open spec fn heading_args(plan: PlanView, label: Seq<char>) -> Seq<Seq<char>> {
    seq![
        nat_text(plan.shape.m as nat),
        nat_text(plan.shape.k as nat),
        nat_text(plan.shape.n as nat),
        nat_text(plan.shape.offset as nat),
        nat_text(plan.end_offset as nat),
        nat_text(plan.nnz.len()),
        label,
    ]
}

fn make_heading_args(plan: &MatMulPlan, label: &str) -> (args: Vec<String>)
    ensures
        views(args@) == heading_args(plan@, label@),
{
    let args = vec![
        usize_to_text(plan.shape.m),
        usize_to_text(plan.shape.k),
        usize_to_text(plan.shape.n),
        usize_to_text(plan.shape.offset),
        usize_to_text(plan.end_offset),
        usize_to_text(plan.nnz.len()),
        owned(label),
    ];
    assert(views(args@) =~= heading_args(plan@, label@));
    args
}

/// The comment above a diagonal product.
pub open spec fn diagonal_heading(target: MatMulTarget, plan: PlanView) -> Seq<char> {
    match target {
        MatMulTarget::C => filled(
            "    /* DiagonalMul {0}x{0}: output[{3}..{4}] */"@,
            heading_args(plan, ""@),
        ),
        MatMulTarget::Python(dialect) => filled(
            "\t# DiagonalMul {0}x{0} ({6}): out[{3}..{4}]"@,
            heading_args(plan, dialect.label_text()),
        ),
    }
}

fn render_diagonal_heading(target: MatMulTarget, plan: &MatMulPlan) -> (s: String)
    ensures
        s@ == diagonal_heading(target, plan@),
{
    match target {
        MatMulTarget::C => fill(
            "    /* DiagonalMul {0}x{0}: output[{3}..{4}] */",
            &make_heading_args(plan, ""),
        ),
        MatMulTarget::Python(dialect) => fill(
            "\t# DiagonalMul {0}x{0} ({6}): out[{3}..{4}]",
            &make_heading_args(plan, dialect.label()),
        ),
    }
}

/// The comment above a product over given nonzero elements.
pub open spec fn sparse_heading(target: MatMulTarget, plan: PlanView) -> Seq<char> {
    match target {
        MatMulTarget::C => filled(
            "    /* SparseMul {0}x{1}x{2} ({5} nnz): output[{3}..{4}] */"@,
            heading_args(plan, ""@),
        ),
        MatMulTarget::Python(dialect) => filled(
            "\t# SparseMul {0}x{1}x{2} ({5} nnz, {6}): out[{3}..{4}]"@,
            heading_args(plan, dialect.label_text()),
        ),
    }
}

fn render_sparse_heading(target: MatMulTarget, plan: &MatMulPlan) -> (s: String)
    ensures
        s@ == sparse_heading(target, plan@),
{
    match target {
        MatMulTarget::C => fill(
            "    /* SparseMul {0}x{1}x{2} ({5} nnz): output[{3}..{4}] */",
            &make_heading_args(plan, ""),
        ),
        MatMulTarget::Python(dialect) => fill(
            "\t# SparseMul {0}x{1}x{2} ({5} nnz, {6}): out[{3}..{4}]",
            &make_heading_args(plan, dialect.label()),
        ),
    }
}

/// A dense product in C: the operands as arrays and one call.
pub open spec fn dense_c(plan: PlanView, lhs: Seq<Seq<char>>, rhs: Seq<Seq<char>>) -> Seq<char> {
    let shape = plan.shape;
    filled(
        "    /* MatMul {0}x{1}x{2}: output[{3}..{4}] */\n\t{\n\t\tdouble __lhs[{5}] = {{6}};\n\t\tdouble __rhs[{7}] = {{8}};\n\t\t__rumoca_dgemm({0}, {2}, {1}, __lhs, __rhs, &m->xdot[{3}]);\n\t}"@,
        seq![
            nat_text(shape.m as nat),
            nat_text(shape.k as nat),
            nat_text(shape.n as nat),
            nat_text(shape.offset as nat),
            nat_text(plan.end_offset as nat),
            nat_text(lhs.len()),
            join_text(lhs, ", "@),
            nat_text(rhs.len()),
            join_text(rhs, ", "@),
        ],
    )
}

fn render_dense_c(plan: &MatMulPlan, lhs: &Vec<String>, rhs: &Vec<String>) -> (s: String)
    ensures
        s@ == dense_c(plan@, views(lhs@), views(rhs@)),
{
    let args = vec![
        usize_to_text(plan.shape.m),
        usize_to_text(plan.shape.k),
        usize_to_text(plan.shape.n),
        usize_to_text(plan.shape.offset),
        usize_to_text(plan.end_offset),
        usize_to_text(lhs.len()),
        join(lhs, ", "),
        usize_to_text(rhs.len()),
        join(rhs, ", "),
    ];
    assert(views(args@) =~= seq![
        nat_text(plan@.shape.m as nat),
        nat_text(plan@.shape.k as nat),
        nat_text(plan@.shape.n as nat),
        nat_text(plan@.shape.offset as nat),
        nat_text(plan@.end_offset as nat),
        nat_text(views(lhs@).len()),
        join_text(views(lhs@), ", "@),
        nat_text(views(rhs@).len()),
        join_text(views(rhs@), ", "@),
    ]);
    fill(
        "    /* MatMul {0}x{1}x{2}: output[{3}..{4}] */\n\t{\n\t\tdouble __lhs[{5}] = {{6}};\n\t\tdouble __rhs[{7}] = {{8}};\n\t\t__rumoca_dgemm({0}, {2}, {1}, __lhs, __rhs, &m->xdot[{3}]);\n\t}",
        &args,
    )
}

/// The product of whole operands in Python, before its results are taken.
pub open spec fn dense_py(
    dialect: MatMulPyDialect,
    plan: PlanView,
    lhs: Seq<Seq<char>>,
    rhs: Seq<Seq<char>>,
) -> Seq<char> {
    let shape = plan.shape;
    filled(
        "\t# MatMul {0}x{1}x{2} ({5}): out[{3}..{4}]\n\t__mm{3} = {6}"@,
        seq![
            nat_text(shape.m as nat),
            nat_text(shape.k as nat),
            nat_text(shape.n as nat),
            nat_text(shape.offset as nat),
            nat_text(plan.end_offset as nat),
            dialect.label_text(),
            dialect.call_text(
                dialect.operand_text(lhs, shape.m, shape.k),
                dialect.operand_text(rhs, shape.k, shape.n),
            ),
        ],
    )
}

fn render_dense_py(
    dialect: MatMulPyDialect,
    plan: &MatMulPlan,
    lhs: &Vec<String>,
    rhs: &Vec<String>,
) -> (s: String)
    ensures
        s@ == dense_py(dialect, plan@, views(lhs@), views(rhs@)),
{
    let shape = plan.shape;
    let lhs_operand = dialect.operand(lhs, shape.m, shape.k);
    let rhs_operand = dialect.operand(rhs, shape.k, shape.n);
    let call = dialect.matmul_call(lhs_operand.as_str(), rhs_operand.as_str());
    let ghost call_text = call@;
    let args = vec![
        usize_to_text(shape.m),
        usize_to_text(shape.k),
        usize_to_text(shape.n),
        usize_to_text(shape.offset),
        usize_to_text(plan.end_offset),
        owned(dialect.label()),
        call,
    ];
    assert(views(args@) =~= seq![
        nat_text(shape.m as nat),
        nat_text(shape.k as nat),
        nat_text(shape.n as nat),
        nat_text(shape.offset as nat),
        nat_text(plan@.end_offset as nat),
        dialect.label_text(),
        call_text,
    ]);
    fill("\t# MatMul {0}x{1}x{2} ({5}): out[{3}..{4}]\n\t__mm{3} = {6}", &args)
}

/// A dense product.
pub open spec fn dense_text(target: MatMulTarget, plan: PlanView, regs: Seq<Seq<char>>) -> Outcome<
    Seq<char>,
> {
    let shape = plan.shape;
    match shape.lhs_elements() {
        Err(e) => Err(e),
        Ok(lhs_count) => match shape.rhs_elements() {
            Err(e) => Err(e),
            Ok(rhs_count) => match register_list(regs, shape.lhs_start as int, lhs_count) {
                Err(e) => Err(e),
                Ok(lhs) => match register_list(regs, shape.rhs_start as int, rhs_count) {
                    Err(e) => Err(e),
                    Ok(rhs) => match target {
                        MatMulTarget::C => Ok(dense_c(plan, lhs, rhs)),
                        MatMulTarget::Python(dialect) => both(
                            Ok(dense_py(dialect, plan, lhs, rhs)),
                            counted_lines(shape.outputs(), LineKind::Taken, target, plan, regs),
                        ),
                    },
                },
            },
        },
    }
}

fn render_dense_text(target: MatMulTarget, plan: &MatMulPlan, regs: &Vec<String>) -> (r: Result<
    String,
    RenderError,
>)
    ensures
        rendered(r, dense_text(target, plan@, views(regs@))),
{
    let shape = plan.shape;
    let lhs_count = match shape.dense_lhs_count() {
        Ok(n) => n,
        Err(e) => {
            return Err(e);
        },
    };
    let rhs_count = match shape.dense_rhs_count() {
        Ok(n) => n,
        Err(e) => {
            return Err(e);
        },
    };
    let lhs = match render_matmul_register_array(regs, shape.lhs_start, lhs_count) {
        Ok(list) => list,
        Err(e) => {
            return Err(e);
        },
    };
    let rhs = match render_matmul_register_array(regs, shape.rhs_start, rhs_count) {
        Ok(list) => list,
        Err(e) => {
            return Err(e);
        },
    };
    proof {
        assert(shape.n == 0 ==> shape.m * shape.n == 0) by (nonlinear_arith);
    }
    match target {
        MatMulTarget::C => Ok(render_dense_c(plan, &lhs, &rhs)),
        MatMulTarget::Python(dialect) => {
            let head = render_dense_py(dialect, plan, &lhs, &rhs);
            render_lines(head, shape.output_count(), LineKind::Taken, target, plan, regs)
        },
    }
}

/// A planned product over register texts.
pub open spec fn planned_text(target: MatMulTarget, plan: PlanView, regs: Seq<Seq<char>>) -> Outcome<
    Seq<char>,
> {
    match plan.filling {
        Filling::Diagonal => both(
            Ok(diagonal_heading(target, plan)),
            counted_lines(Ok(plan.shape.m as int), LineKind::Diagonal, target, plan, regs),
        ),
        Filling::Explicit => both(
            Ok(sparse_heading(target, plan)),
            counted_lines(plan.shape.outputs(), LineKind::Sparse, target, plan, regs),
        ),
        Filling::Dense => dense_text(target, plan, regs),
    }
}

fn render_planned_text(target: MatMulTarget, plan: &MatMulPlan, regs: &Vec<String>) -> (r: Result<
    String,
    RenderError,
>)
    ensures
        rendered(r, planned_text(target, plan@, views(regs@))),
{
    let shape = plan.shape;
    proof {
        assert(shape.n == 0 ==> shape.m * shape.n == 0) by (nonlinear_arith);
    }
    match plan.filling {
        Filling::Diagonal => {
            let head = render_diagonal_heading(target, plan);
            render_lines(head, Ok(shape.m), LineKind::Diagonal, target, plan, regs)
        },
        Filling::Explicit => {
            let head = render_sparse_heading(target, plan);
            render_lines(head, shape.output_count(), LineKind::Sparse, target, plan, regs)
        },
        Filling::Dense => render_dense_text(target, plan, regs),
    }
}

/// A matrix product over the texts of the registers that its operand programs
/// fill.
pub open spec fn matmul_text(
    target: MatMulTarget,
    node: ValueView,
    output_offset: ValueView,
    regs: Seq<Seq<char>>,
) -> Outcome<Seq<char>> {
    match output_offset.as_usize() {
        None => Err("output_offset must be a non-negative integer"@),
        Some(offset) => match matmul_plan(node, offset) {
            Err(e) => Err(e),
            Ok(plan) => if !(node.field("lhs_ops"@)->0.kind is List) {
                Err("MatMul lhs_ops must be iterable"@)
            } else if !(node.field("rhs_ops"@)->0.kind is List) {
                Err("MatMul rhs_ops must be iterable"@)
            } else {
                planned_text(target, plan, regs)
            },
        },
    }
}

fn is_list_field(node: &TemplateValue, name: &str) -> (r: bool)
    requires
        node@.field(name@) is Some,
    ensures
        r == (node@.field(name@)->0.kind is List),
{
    match get_field(node, name) {
        Ok(v) => {
            proof {
                lemma_view_items(*v);
            }
            match &v.kind {
                ValueKind::List => true,
                _ => false,
            }
        },
        Err(_) => false,
    }
}

/// A matrix product in the language of the target.
pub fn render_matmul_text(
    target: MatMulTarget,
    node: &TemplateValue,
    output_offset: &TemplateValue,
    regs: &Vec<String>,
) -> (r: Result<String, RenderError>)
    ensures
        rendered(r, matmul_text(target, node@, output_offset@, views(regs@))),
{
    let offset = match as_usize(output_offset) {
        Some(n) => n,
        None => {
            return Err(render_err("output_offset must be a non-negative integer"));
        },
    };
    let plan = match plan_matmul(node, offset) {
        Ok(plan) => plan,
        Err(e) => {
            return Err(e);
        },
    };
    if !is_list_field(node, "lhs_ops") {
        return Err(render_err("MatMul lhs_ops must be iterable"));
    }
    if !is_list_field(node, "rhs_ops") {
        return Err(render_err("MatMul rhs_ops must be iterable"));
    }
    render_planned_text(target, &plan, regs)
}

/// A matrix product in C, over the texts of its registers: products written out
/// for diagonal and sparse left operands, a call for dense ones.
pub fn render_matmul_c_function(
    node: &TemplateValue,
    output_offset: &TemplateValue,
    regs: &Vec<String>,
) -> (r: Result<String, RenderError>)
    ensures
        rendered(r, matmul_text(MatMulTarget::C, node@, output_offset@, views(regs@))),
{
    render_matmul_text(MatMulTarget::C, node, output_offset, regs)
}

/// A matrix product in Python, over the texts of its registers.
pub fn render_matmul_py_function(
    dialect: MatMulPyDialect,
    node: &TemplateValue,
    output_offset: &TemplateValue,
    regs: &Vec<String>,
) -> (r: Result<String, RenderError>)
    ensures
        rendered(
            r,
            matmul_text(MatMulTarget::Python(dialect), node@, output_offset@, views(regs@)),
        ),
{
    render_matmul_text(MatMulTarget::Python(dialect), node, output_offset, regs)
}

/// A matrix product for JAX.
pub fn render_matmul_jax_function(
    node: &TemplateValue,
    output_offset: &TemplateValue,
    regs: &Vec<String>,
) -> (r: Result<String, RenderError>)
    ensures
        rendered(
            r,
            matmul_text(
                MatMulTarget::Python(MatMulPyDialect::Jax),
                node@,
                output_offset@,
                views(regs@),
            ),
        ),
{
    render_matmul_py_function(MatMulPyDialect::Jax, node, output_offset, regs)
}

/// A matrix product for CasADi.
pub fn render_matmul_casadi_function(
    node: &TemplateValue,
    output_offset: &TemplateValue,
    regs: &Vec<String>,
) -> (r: Result<String, RenderError>)
    ensures
        rendered(
            r,
            matmul_text(
                MatMulTarget::Python(MatMulPyDialect::Casadi),
                node@,
                output_offset@,
                views(regs@),
            ),
        ),
{
    render_matmul_py_function(MatMulPyDialect::Casadi, node, output_offset, regs)
}

} // verus!
