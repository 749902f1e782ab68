//! What the text of a matrix product reads and writes.
use crate::codegen::fill::{filled, pieces};
use crate::codegen::matmul_mlir::{
    matmul_mlir, mlir_piece, mlir_pieces, product_mlir, sparse_terms, MlirPart,
};
use crate::codegen::matmul_text::{
    line_text, line_texts, matmul_text, planned_text, register_list, term_texts, LineKind,
    MatMulPyDialect, MatMulTarget,
};
use crate::codegen::mlir_ops::program_text;
use crate::codegen::shape::{
    matmul_plan, positions, row_positions, Filling, MatMulRenderShape, PlanView,
};
use crate::codegen::value::{usize_arg, usize_field, Outcome, ValueView};
use crate::text::{join_text, nat_text};
use vstd::prelude::*;

verus! {

/// Texts one after the other.
pub open spec fn in_turn(texts: Seq<Seq<char>>) -> Seq<char>
    decreases texts.len(),
{
    if texts.len() == 0 {
        Seq::empty()
    } else {
        in_turn(texts.drop_last()) + texts.last()
    }
}

/// Pieces are texts one after the other.
pub proof fn lemma_pieces_in_turn(
    n: int,
    piece: spec_fn(int) -> Outcome<Seq<char>>,
    texts: Seq<Seq<char>>,
)
    requires
        0 <= n,
        texts.len() == n,
        pieces(n, piece) is Ok,
        forall|i: int| 0 <= i < n && piece(i) is Ok ==> piece(i)->Ok_0 == #[trigger] texts[i],
    ensures
        pieces(n, piece)->Ok_0 == in_turn(texts),
    decreases n,
{
    if n > 0 {
        assert(piece(n - 1) is Ok);
        assert(texts[n - 1] == piece(n - 1)->Ok_0);
        let front = texts.drop_last();
        assert forall|i: int| 0 <= i < n - 1 && piece(i) is Ok implies piece(i)->Ok_0
            == #[trigger] front[i] by {
            assert(front[i] == texts[i]);
        }
        lemma_pieces_in_turn(n - 1, piece, front);
    } else {
        assert(pieces(n, piece)->Ok_0 =~= in_turn(texts));
    }
}

/// The register of the element in a row and a column of the left operand: its elements
/// stand row by row.
pub open spec fn left_register(shape: MatMulRenderShape, row: int, column: int) -> int {
    shape.lhs_start + row * shape.k + column
}

/// The register of the element in a row and a column of the right operand: its elements
/// stand row by row.
pub open spec fn right_register(shape: MatMulRenderShape, row: int, column: int) -> int {
    shape.rhs_start + row * shape.n + column
}

/// The columns of a row that hold something, in the order in which they are given.
pub open spec fn filled_columns(nnz: Seq<(usize, usize)>, row: int) -> Seq<int> {
    let inside = nnz.filter(stands_in(row));
    Seq::new(inside.len(), |t: int| inside[t].1 as int)
}

/// Whether a position stands in a row.
pub open spec fn stands_in(row: int) -> spec_fn((usize, usize)) -> bool {
    |p: (usize, usize)| p.0 == row
}

proof fn lemma_filled_columns(nnz: Seq<(usize, usize)>, row: int, n: int)
    requires
        0 <= n <= nnz.len(),
    ensures
        row_positions(nnz, row, n) == nnz.take(n).filter(stands_in(row)),
    decreases n,
{
    reveal(Seq::filter);
    if n > 0 {
        lemma_filled_columns(nnz, row, n - 1);
        assert(nnz.take(n).drop_last() =~= nnz.take(n - 1));
        assert(nnz.take(n).last() == nnz[n - 1]);
    }
}

proof fn lemma_row(nnz: Seq<(usize, usize)>, row: int)
    ensures
        row_positions(nnz, row, nnz.len() as int).len() == filled_columns(nnz, row).len(),
        forall|t: int|
            0 <= t < filled_columns(nnz, row).len() ==> #[trigger] filled_columns(nnz, row)[t]
                == row_positions(nnz, row, nnz.len() as int)[t].1,
{
    lemma_filled_columns(nnz, row, nnz.len() as int);
    assert(nnz.take(nnz.len() as int) =~= nnz);
}

/// What a node says of its product: how its operands are filled and where.
pub open spec fn describes(node: ValueView, offset: usize, plan: PlanView) -> bool {
    &&& usize_field(node, "lhs_start"@) == Ok::<usize, Seq<char>>(plan.shape.lhs_start)
    &&& usize_field(node, "rhs_start"@) == Ok::<usize, Seq<char>>(plan.shape.rhs_start)
    &&& usize_field(node, "m"@) == Ok::<usize, Seq<char>>(plan.shape.m)
    &&& usize_field(node, "k"@) == Ok::<usize, Seq<char>>(plan.shape.k)
    &&& usize_field(node, "n"@) == Ok::<usize, Seq<char>>(plan.shape.n)
    &&& plan.shape.offset == offset
    &&& plan.end_offset == offset + plan.shape.m * plan.shape.n
    &&& node.field("lhs_sparsity"@) is Some
    &&& {
        let sparsity = node.field("lhs_sparsity"@)->0;
        let square = plan.shape.n == 1 && plan.shape.m == plan.shape.k;
        &&& plan.filling is Diagonal <==> sparsity.mentions("Diagonal"@) && square
        &&& plan.filling is Dense <==> !(sparsity.mentions("Diagonal"@) && square)
            && !sparsity.mentions("Explicit"@)
        &&& plan.filling is Explicit ==> {
            let list = (sparsity.field("Explicit"@)->0).field("nnz"@)->0.items;
            &&& sparsity.field("Explicit"@) is Some
            &&& (sparsity.field("Explicit"@)->0).field("nnz"@) is Some
            &&& plan.nnz.len() == list.len()
            &&& forall|i: int|
                0 <= i < list.len() ==> is_position(#[trigger] plan.nnz[i], list[i])
        }
    }
}

/// Whether a position has the row and the column of a pair.
pub open spec fn is_position(position: (usize, usize), pair: ValueView) -> bool {
    &&& pair.items.len() >= 2
    &&& pair.items[0].as_usize() == Some(position.0)
    &&& pair.items[1].as_usize() == Some(position.1)
}

proof fn lemma_positions(list: Seq<ValueView>, n: int)
    requires
        0 <= n <= list.len(),
    ensures
        positions(list, n) matches Ok(found) ==> found.len() == n && forall|i: int|
            0 <= i < n ==> is_position(#[trigger] found[i], list[i]),
    decreases n,
{
    if n > 0 {
        lemma_positions(list, n - 1);
    }
}

/// A product is planned from what its node says: its sizes, where the elements of its
/// operands stand, which elements of the left operand hold something, and that the
/// results fill as many slots from the offset on as there are results.
pub proof fn law_products_are_as_described(node: ValueView, offset: usize)
    ensures
        matmul_plan(node, offset) matches Ok(plan) ==> describes(node, offset, plan),
{
    if let Ok(plan) = matmul_plan(node, offset) {
        if plan.filling is Explicit {
            let sparsity = node.field("lhs_sparsity"@)->0;
            let list = (sparsity.field("Explicit"@)->0).field("nnz"@)->0.items;
            lemma_positions(list, list.len() as int);
        }
    }
}

/// The line that gives a slot of the result a value.
pub open spec fn slot_text(target: MatMulTarget, slot: int, value: Seq<char>) -> Seq<char> {
    match target {
        MatMulTarget::C => filled("\n\tm->xdot[{0}] = {1};"@, seq![nat_text(slot as nat), value]),
        MatMulTarget::Python(_) => filled(
            "\n\tout[{0}] = {1}"@,
            seq![nat_text(slot as nat), value],
        ),
    }
}

/// The product of what two registers hold.
pub open spec fn product_of(regs: Seq<Seq<char>>, left: int, right: int) -> Seq<char> {
    filled("({0}) * ({1})"@, seq![regs[left], regs[right]])
}

/// The element in a row and a column of a product: the sum, over the columns of that row
/// that hold something, of what the row holds there times what the column holds there;
/// zero where there is none.
pub open spec fn element_text(
    plan: PlanView,
    regs: Seq<Seq<char>>,
    row: int,
    column: int,
) -> Seq<char> {
    let inner = filled_columns(plan.nnz, row);
    if inner.len() == 0 {
        "0.0"@
    } else {
        join_text(
            Seq::new(
                inner.len(),
                |t: int|
                    product_of(
                        regs,
                        left_register(plan.shape, row, inner[t]),
                        right_register(plan.shape, inner[t], column),
                    ),
            ),
            " + "@,
        )
    }
}

/// The lines of a diagonal product: result `i` is element `i` of the diagonal times
/// element `i` of the vector.
pub open spec fn diagonal_texts(
    target: MatMulTarget,
    shape: MatMulRenderShape,
    regs: Seq<Seq<char>>,
) -> Seq<Seq<char>> {
    Seq::new(
        shape.m as nat,
        |i: int|
            slot_text(
                target,
                shape.offset + i,
                product_of(
                    regs,
                    shape.lhs_start + i * (shape.m + 1),
                    shape.rhs_start + i,
                ),
            ),
    )
}

/// The lines of a product whose filled elements are given, row by row.
pub open spec fn element_texts(
    target: MatMulTarget,
    plan: PlanView,
    regs: Seq<Seq<char>>,
) -> Seq<Seq<char>> {
    let n = plan.shape.n as int;
    Seq::new(
        (plan.shape.m * plan.shape.n) as nat,
        |s: int|
            slot_text(target, plan.shape.offset + s, element_text(plan, regs, s / n, s % n)),
    )
}

/// The lines that take the results of a product of whole operands, row by row.
pub open spec fn taken_texts(shape: MatMulRenderShape) -> Seq<Seq<char>> {
    let n = shape.n as int;
    Seq::new(
        (shape.m * shape.n) as nat,
        |s: int|
            filled(
                "\n\tout[{0}] = __mm{1}[{2}, {3}]"@,
                seq![
                    nat_text((shape.offset + s) as nat),
                    nat_text(shape.offset as nat),
                    nat_text((s / n) as nat),
                    nat_text((s % n) as nat),
                ],
            ),
    )
}

/// The texts of the registers from a start on.
pub open spec fn register_texts(regs: Seq<Seq<char>>, start: int, count: int) -> Seq<Seq<char>> {
    Seq::new(count as nat, |i: int| regs[start + i])
}

/// A matrix of given elements, row by row, in a library of Python.
pub open spec fn matrix_text(
    dialect: MatMulPyDialect,
    elements: Seq<Seq<char>>,
    rows: int,
    columns: int,
) -> Seq<char> {
    let all = join_text(elements, ", "@);
    match dialect {
        MatMulPyDialect::Jax => filled(
            "stack([{0}]).reshape(({1}, {2}))"@,
            seq![all, nat_text(rows as nat), nat_text(columns as nat)],
        ),
        MatMulPyDialect::Casadi => filled(
            "reshape(vertcat({0}), {2}, {1}).T"@,
            seq![all, nat_text(rows as nat), nat_text(columns as nat)],
        ),
    }
}

/// A product of whole operands, the left one of `m` rows and `k` columns, the right one
/// of `k` rows and `n` columns.
pub open spec fn whole_text(
    target: MatMulTarget,
    shape: MatMulRenderShape,
    regs: Seq<Seq<char>>,
) -> Seq<char> {
    let left = register_texts(regs, shape.lhs_start as int, shape.m * shape.k);
    let right = register_texts(regs, shape.rhs_start as int, shape.k * shape.n);
    let (m, k, n) = (nat_text(shape.m as nat), nat_text(shape.k as nat), nat_text(shape.n as nat));
    let start = nat_text(shape.offset as nat);
    let end = nat_text((shape.offset + shape.m * shape.n) as nat);
    match target {
        MatMulTarget::C => filled(
            "    /* MatMul {0}x{1}x{2}: output[{3}..{4}] */\n\t{\n\t\tdouble __lhs[{5}] = {{6}};\n\t\tdouble __rhs[{7}] = {{8}};\n\t\t__rumoca_dgemm({0}, {2}, {1}, __lhs, __rhs, &m->xdot[{3}]);\n\t}"@,
            seq![
                m,
                k,
                n,
                start,
                end,
                nat_text((shape.m * shape.k) as nat),
                join_text(left, ", "@),
                nat_text((shape.k * shape.n) as nat),
                join_text(right, ", "@),
            ],
        ),
        MatMulTarget::Python(dialect) => {
            let a = matrix_text(dialect, left, shape.m as int, shape.k as int);
            let b = matrix_text(dialect, right, shape.k as int, shape.n as int);
            let (label, call) = match dialect {
                MatMulPyDialect::Jax => ("jax"@, filled("matmul({0}, {1})"@, seq![a, b])),
                MatMulPyDialect::Casadi => ("casadi"@, filled("mtimes({0}, {1})"@, seq![a, b])),
            };
            filled(
                "\t# MatMul {0}x{1}x{2} ({5}): out[{3}..{4}]\n\t__mm{3} = {6}"@,
                seq![m, k, n, start, end, label, call],
            ) + in_turn(taken_texts(shape))
        },
    }
}

/// The comment above a product of which not all elements of the left operand hold
/// something.
pub open spec fn note_text(target: MatMulTarget, plan: PlanView) -> Seq<char> {
    let shape = plan.shape;
    let (m, k, n) = (nat_text(shape.m as nat), nat_text(shape.k as nat), nat_text(shape.n as nat));
    let start = nat_text(shape.offset as nat);
    let end = nat_text((shape.offset + shape.m * shape.n) as nat);
    let label = match target {
        MatMulTarget::C => ""@,
        MatMulTarget::Python(MatMulPyDialect::Jax) => "jax"@,
        MatMulTarget::Python(MatMulPyDialect::Casadi) => "casadi"@,
    };
    let args = seq![m, k, n, start, end, nat_text(plan.nnz.len()), label];
    if plan.filling is Diagonal {
        match target {
            MatMulTarget::C => filled("    /* DiagonalMul {0}x{0}: output[{3}..{4}] */"@, args),
            MatMulTarget::Python(_) => filled(
                "\t# DiagonalMul {0}x{0} ({6}): out[{3}..{4}]"@,
                args,
            ),
        }
    } else {
        match target {
            MatMulTarget::C => filled(
                "    /* SparseMul {0}x{1}x{2} ({5} nnz): output[{3}..{4}] */"@,
                args,
            ),
            MatMulTarget::Python(_) => filled(
                "\t# SparseMul {0}x{1}x{2} ({5} nnz, {6}): out[{3}..{4}]"@,
                args,
            ),
        }
    }
}

proof fn lemma_terms(
    shape: MatMulRenderShape,
    regs: Seq<Seq<char>>,
    row: int,
    column: int,
    nzs: Seq<(usize, usize)>,
    n: int,
)
    requires
        0 <= n <= nzs.len(),
    ensures
        term_texts(shape, regs, row, column, nzs, n) matches Ok(terms) ==> terms.len() == n
            && forall|t: int|
            0 <= t < n ==> #[trigger] terms[t] == product_of(
                regs,
                left_register(shape, row, nzs[t].1 as int),
                right_register(shape, nzs[t].1 as int, column),
            ),
    decreases n,
{
    if n > 0 {
        lemma_terms(shape, regs, row, column, nzs, n - 1);
    }
}

proof fn lemma_sparse_line(
    target: MatMulTarget,
    plan: PlanView,
    regs: Seq<Seq<char>>,
    s: int,
)
    requires
        0 <= s < plan.shape.m * plan.shape.n,
    ensures
        line_text(LineKind::Sparse, target, plan, regs, s) matches Ok(text) ==> text
            == element_texts(target, plan, regs)[s],
{
    let n = plan.shape.n as int;
    let (row, column) = (s / n, s % n);
    let nzs = row_positions(plan.nnz, row, plan.nnz.len() as int);
    lemma_row(plan.nnz, row);
    lemma_terms(plan.shape, regs, row, column, nzs, nzs.len() as int);
    let inner = filled_columns(plan.nnz, row);
    assert(inner.len() == nzs.len());
    if line_text(LineKind::Sparse, target, plan, regs, s) is Ok && nzs.len() > 0 {
        let terms = term_texts(plan.shape, regs, row, column, nzs, nzs.len() as int)->Ok_0;
        assert forall|t: int| 0 <= t < terms.len() implies #[trigger] terms[t] == product_of(
            regs,
            left_register(plan.shape, row, inner[t]),
            right_register(plan.shape, inner[t], column),
        ) by {
            assert(inner[t] == nzs[t].1 as int);
        }
        assert(terms =~= Seq::new(
            inner.len(),
            |t: int|
                product_of(
                    regs,
                    left_register(plan.shape, row, inner[t]),
                    right_register(plan.shape, inner[t], column),
                ),
        ));
    }
}

proof fn lemma_register_texts(regs: Seq<Seq<char>>, start: int, n: int)
    requires
        0 <= n,
    ensures
        register_list(regs, start, n) matches Ok(list) ==> list =~= register_texts(
            regs,
            start,
            n,
        ),
    decreases n,
{
    if n > 0 {
        lemma_register_texts(regs, start, n - 1);
    }
}

proof fn lemma_sizes(shape: MatMulRenderShape)
    ensures
        0 <= shape.m * shape.n,
        0 <= shape.m * shape.k,
        0 <= shape.k * shape.n,
{
    assert(0 <= shape.m * shape.n) by (nonlinear_arith);
    assert(0 <= shape.m * shape.k) by (nonlinear_arith);
    assert(0 <= shape.k * shape.n) by (nonlinear_arith);
}

proof fn lemma_diagonal_text(target: MatMulTarget, plan: PlanView, regs: Seq<Seq<char>>)
    requires
        plan.filling is Diagonal,
        plan.end_offset == plan.shape.offset + plan.shape.m * plan.shape.n,
    ensures
        planned_text(target, plan, regs) matches Ok(text) ==> text == note_text(target, plan)
            + in_turn(diagonal_texts(target, plan.shape, regs)),
{
    if planned_text(target, plan, regs) is Ok {
        let lines = diagonal_texts(target, plan.shape, regs);
        let piece = line_texts(LineKind::Diagonal, target, plan, regs);
        assert forall|i: int| 0 <= i < plan.shape.m && piece(i) is Ok implies piece(i)->Ok_0
            == #[trigger] lines[i] by {
            assert(piece(i) == line_text(LineKind::Diagonal, target, plan, regs, i));
        }
        lemma_pieces_in_turn(plan.shape.m as int, piece, lines);
    }
}

proof fn lemma_explicit_text(target: MatMulTarget, plan: PlanView, regs: Seq<Seq<char>>)
    requires
        plan.filling is Explicit,
        plan.end_offset == plan.shape.offset + plan.shape.m * plan.shape.n,
    ensures
        planned_text(target, plan, regs) matches Ok(text) ==> text == note_text(target, plan)
            + in_turn(element_texts(target, plan, regs)),
{
    lemma_sizes(plan.shape);
    if planned_text(target, plan, regs) is Ok {
        let lines = element_texts(target, plan, regs);
        let piece = line_texts(LineKind::Sparse, target, plan, regs);
        assert forall|i: int| 0 <= i < lines.len() && piece(i) is Ok implies piece(i)->Ok_0
            == #[trigger] lines[i] by {
            lemma_sparse_line(target, plan, regs, i);
        }
        lemma_pieces_in_turn(plan.shape.m * plan.shape.n, piece, lines);
    }
}

proof fn lemma_dense_text(target: MatMulTarget, plan: PlanView, regs: Seq<Seq<char>>)
    requires
        plan.filling is Dense,
        plan.end_offset == plan.shape.offset + plan.shape.m * plan.shape.n,
    ensures
        planned_text(target, plan, regs) matches Ok(text) ==> text == whole_text(
            target,
            plan.shape,
            regs,
        ),
{
    let shape = plan.shape;
    lemma_sizes(shape);
    if planned_text(target, plan, regs) is Ok {
        lemma_register_texts(regs, shape.lhs_start as int, shape.m * shape.k);
        lemma_register_texts(regs, shape.rhs_start as int, shape.k * shape.n);
        if target is Python {
            let lines = taken_texts(shape);
            let piece = line_texts(LineKind::Taken, target, plan, regs);
            assert forall|i: int| 0 <= i < lines.len() && piece(i) is Ok implies piece(i)->Ok_0
                == #[trigger] lines[i] by {
                assert(piece(i) == line_text(LineKind::Taken, target, plan, regs, i));
            }
            lemma_pieces_in_turn(shape.m * shape.n, piece, lines);
        }
    }
}

/// The text of a product of `m` rows and `n` columns gives every slot from the offset on
/// its result, row by row: with a diagonal the products along it, with the filled
/// elements given the sums over these, and else the elements of the product of the whole
/// operands.
pub proof fn law_products_are_written_out(
    target: MatMulTarget,
    node: ValueView,
    output_offset: ValueView,
    regs: Seq<Seq<char>>,
    offset: usize,
    plan: PlanView,
)
    requires
        output_offset.as_usize() == Some(offset),
        matmul_plan(node, offset) == Ok::<PlanView, Seq<char>>(plan),
    ensures
        matmul_text(target, node, output_offset, regs) matches Ok(text) ==> match plan.filling {
            Filling::Diagonal => text == note_text(target, plan) + in_turn(
                diagonal_texts(target, plan.shape, regs),
            ),
            Filling::Explicit => text == note_text(target, plan) + in_turn(
                element_texts(target, plan, regs),
            ),
            Filling::Dense => text == whole_text(target, plan.shape, regs),
        },
{
    law_products_are_as_described(node, offset);
    match plan.filling {
        Filling::Diagonal => {
            lemma_diagonal_text(target, plan, regs);
        },
        Filling::Explicit => {
            lemma_explicit_text(target, plan, regs);
        },
        Filling::Dense => {
            lemma_dense_text(target, plan, regs);
        },
    }
}

/// The lines that compute result `i` of a diagonal product and store it.
pub open spec fn diagonal_cells(shape: MatMulRenderShape, pfx: Seq<char>) -> Seq<Seq<char>> {
    Seq::new(
        shape.m as nat,
        |i: int|
            filled(
                "    %{0}_diag{1} = arith.mulf %{0}_r{2}, %{0}_r{3} : f64\n    %{0}_douti{1} = arith.constant {4} : index\n    memref.store %{0}_diag{1}, %out[%{0}_douti{1}] : memref<?xf64>\n"@,
                seq![
                    pfx,
                    nat_text(i as nat),
                    nat_text((shape.lhs_start + i * (shape.m + 1)) as nat),
                    nat_text((shape.rhs_start + i) as nat),
                    nat_text((shape.offset + i) as nat),
                ],
            ),
    )
}

/// The lines that put the elements of an operand into its buffer, row by row: the element
/// in each row and column from its own register.
pub open spec fn operand_cells(
    pfx: Seq<char>,
    buffer: Seq<char>,
    start: int,
    rows: int,
    columns: int,
) -> Seq<Seq<char>> {
    Seq::new(
        (rows * columns) as nat,
        |s: int|
            filled(
                "    %{0}_{6}i{1}_{2} = arith.constant {1} : index\n\t%{0}_{6}j{1}_{2} = arith.constant {2} : index\n\tmemref.store %{0}_r{3}, %{0}_{6}[%{0}_{6}i{1}_{2}, %{0}_{6}j{1}_{2}] : memref<{4}x{5}xf64>\n"@,
                seq![
                    pfx,
                    nat_text((s / columns) as nat),
                    nat_text((s % columns) as nat),
                    nat_text((start + s) as nat),
                    nat_text(rows as nat),
                    nat_text(columns as nat),
                    buffer,
                ],
            ),
    )
}

/// The lines that take the results of a product from its buffer and store them, row by
/// row.
pub open spec fn result_cells(shape: MatMulRenderShape, pfx: Seq<char>) -> Seq<Seq<char>> {
    let n = shape.n as int;
    Seq::new(
        (shape.m * shape.n) as nat,
        |s: int|
            filled(
                "    %{0}_Ci{1}_{2} = arith.constant {1} : index\n\t%{0}_Cj{1}_{2} = arith.constant {2} : index\n\t%{0}_Cv{1}_{2} = memref.load %{0}_C[%{0}_Ci{1}_{2}, %{0}_Cj{1}_{2}] : memref<{3}x{4}xf64>\n\t%{0}_oi{1}_{2} = arith.constant {5} : index\n\tmemref.store %{0}_Cv{1}_{2}, %out[%{0}_oi{1}_{2}] : memref<?xf64>\n"@,
                seq![
                    pfx,
                    nat_text((s / n) as nat),
                    nat_text((s % n) as nat),
                    nat_text(shape.m as nat),
                    nat_text(shape.n as nat),
                    nat_text((shape.offset + s) as nat),
                ],
            ),
    )
}

/// The line that multiplies term `t` of the element in a row and a column, and adds it to
/// the sum of the terms before it.
pub open spec fn term_cell(
    plan: PlanView,
    pfx: Seq<char>,
    row: int,
    column: int,
    t: int,
) -> Seq<char> {
    let inner = filled_columns(plan.nnz, row)[t];
    let left = nat_text(left_register(plan.shape, row, inner) as nat);
    let right = nat_text(right_register(plan.shape, inner, column) as nat);
    let (i, j) = (nat_text(row as nat), nat_text(column as nat));
    if t == 0 {
        filled(
            "    %{0}_eacc{1}_{2}_0 = arith.mulf %{0}_r{3}, %{0}_r{4} : f64\n"@,
            seq![pfx, i, j, left, right],
        )
    } else {
        filled(
            "    %{0}_eprod{1}_{2}_{5} = arith.mulf %{0}_r{3}, %{0}_r{4} : f64\n\t%{0}_eacc{1}_{2}_{5} = arith.addf %{0}_eacc{1}_{2}_{6}, %{0}_eprod{1}_{2}_{5} : f64\n"@,
            seq![pfx, i, j, left, right, nat_text(t as nat), nat_text((t - 1) as nat)],
        )
    }
}

/// The lines that sum the element in a row and a column over the columns of that row that
/// hold something, and store it in a slot; zero where there is none.
pub open spec fn element_cell(
    plan: PlanView,
    pfx: Seq<char>,
    row: int,
    column: int,
    slot: int,
) -> Seq<char> {
    let count = filled_columns(plan.nnz, row).len();
    let (i, j) = (nat_text(row as nat), nat_text(column as nat));
    if count == 0 {
        filled(
            "    %{0}_ez{1}_{2} = arith.constant 0.0 : f64\n\t%{0}_eoi{1}_{2} = arith.constant {3} : index\n\tmemref.store %{0}_ez{1}_{2}, %out[%{0}_eoi{1}_{2}] : memref<?xf64>\n"@,
            seq![pfx, i, j, nat_text(slot as nat)],
        )
    } else {
        in_turn(Seq::new(count, |t: int| term_cell(plan, pfx, row, column, t))) + filled(
            "    %{0}_eoi{1}_{2} = arith.constant {3} : index\n\tmemref.store %{0}_eacc{1}_{2}_{4}, %out[%{0}_eoi{1}_{2}] : memref<?xf64>\n"@,
            seq![pfx, i, j, nat_text(slot as nat), nat_text((count - 1) as nat)],
        )
    }
}

/// The lines of the elements of a product whose filled elements are given, row by row.
pub open spec fn element_cells(plan: PlanView, pfx: Seq<char>) -> Seq<Seq<char>> {
    let n = plan.shape.n as int;
    Seq::new(
        (plan.shape.m * plan.shape.n) as nat,
        |s: int| element_cell(plan, pfx, s / n, s % n, plan.shape.offset + s),
    )
}

/// The lines of a product of whole operands: the left one in a buffer, the right one in
/// another, their product in a third, and its elements stored.
pub open spec fn whole_cells(shape: MatMulRenderShape, pfx: Seq<char>) -> Seq<char> {
    let (m, k, n) = (nat_text(shape.m as nat), nat_text(shape.k as nat), nat_text(shape.n as nat));
    let made = "    %{0}_{1} = memref.alloca() : memref<{2}x{3}xf64>\n"@;
    filled(made, seq![pfx, "A"@, m, k]) + in_turn(
        operand_cells(pfx, "A"@, shape.lhs_start as int, shape.m as int, shape.k as int),
    ) + (filled(made, seq![pfx, "B"@, k, n]) + in_turn(
        operand_cells(pfx, "B"@, shape.rhs_start as int, shape.k as int, shape.n as int),
    )) + (filled(
        "    %{0}_zero = arith.constant 0.0 : f64\n\t%{0}_C = memref.alloca() : memref<{1}x{3}xf64>\n\tlinalg.fill ins(%{0}_zero : f64) outs(%{0}_C : memref<{1}x{3}xf64>)\n\tlinalg.matmul ins(%{0}_A, %{0}_B : memref<{1}x{2}xf64>, memref<{2}x{3}xf64>) outs(%{0}_C : memref<{1}x{3}xf64>)\n"@,
        seq![pfx, m, k, n],
    ) + in_turn(result_cells(shape, pfx)))
}

proof fn lemma_operand_piece(plan: PlanView, pfx: Seq<char>, s: int)
    ensures
        0 <= s < plan.shape.m * plan.shape.k ==> (mlir_piece(
            MlirPart::LhsElement,
            plan,
            pfx,
            s,
        ) matches Ok(text) ==> text == operand_cells(
            pfx,
            "A"@,
            plan.shape.lhs_start as int,
            plan.shape.m as int,
            plan.shape.k as int,
        )[s]),
        0 <= s < plan.shape.k * plan.shape.n ==> (mlir_piece(
            MlirPart::RhsElement,
            plan,
            pfx,
            s,
        ) matches Ok(text) ==> text == operand_cells(
            pfx,
            "B"@,
            plan.shape.rhs_start as int,
            plan.shape.k as int,
            plan.shape.n as int,
        )[s]),
{
    let shape = plan.shape;
    if 0 <= s < shape.m * shape.k {
        let (m, k) = (shape.m as int, shape.k as int);
        assert(k != 0) by (nonlinear_arith)
            requires
                0 <= s < m * k,
        ;
        vstd::arithmetic::div_mod::lemma_fundamental_div_mod(s, k);
        assert(k * (s / k) == (s / k) * k) by (nonlinear_arith);
    }
    if 0 <= s < shape.k * shape.n {
        let (k, n) = (shape.k as int, shape.n as int);
        assert(n != 0) by (nonlinear_arith)
            requires
                0 <= s < k * n,
        ;
        vstd::arithmetic::div_mod::lemma_fundamental_div_mod(s, n);
        assert(n * (s / n) == (s / n) * n) by (nonlinear_arith);
    }
}

proof fn lemma_dense_cells(plan: PlanView, pfx: Seq<char>)
    requires
        plan.filling is Dense,
    ensures
        product_mlir(plan, pfx) matches Ok(text) ==> text == whole_cells(plan.shape, pfx),
{
    let shape = plan.shape;
    lemma_sizes(shape);
    if product_mlir(plan, pfx) is Ok {
        let left = mlir_pieces(MlirPart::LhsElement, plan, pfx);
        let left_lines = operand_cells(
            pfx,
            "A"@,
            shape.lhs_start as int,
            shape.m as int,
            shape.k as int,
        );
        assert forall|s: int| 0 <= s < left_lines.len() && left(s) is Ok implies left(s)->Ok_0
            == #[trigger] left_lines[s] by {
            lemma_operand_piece(plan, pfx, s);
        }
        lemma_pieces_in_turn(shape.m * shape.k, left, left_lines);
        let right = mlir_pieces(MlirPart::RhsElement, plan, pfx);
        let right_lines = operand_cells(
            pfx,
            "B"@,
            shape.rhs_start as int,
            shape.k as int,
            shape.n as int,
        );
        assert forall|s: int| 0 <= s < right_lines.len() && right(s) is Ok implies right(s)->Ok_0
            == #[trigger] right_lines[s] by {
            lemma_operand_piece(plan, pfx, s);
        }
        lemma_pieces_in_turn(shape.k * shape.n, right, right_lines);
        let cells = mlir_pieces(MlirPart::ResultCell, plan, pfx);
        let lines = result_cells(shape, pfx);
        assert forall|s: int| 0 <= s < lines.len() && cells(s) is Ok implies cells(s)->Ok_0
            == #[trigger] lines[s] by {
            assert(cells(s) == mlir_piece(MlirPart::ResultCell, plan, pfx, s));
        }
        lemma_pieces_in_turn(shape.m * shape.n, cells, lines);
    }
}

proof fn lemma_element_cell(plan: PlanView, pfx: Seq<char>, s: int)
    requires
        0 <= s < plan.shape.m * plan.shape.n,
    ensures
        mlir_piece(MlirPart::SparseCell, plan, pfx, s) matches Ok(text) ==> text
            == element_cells(plan, pfx)[s],
{
    let n = plan.shape.n as int;
    let (row, column) = (s / n, s % n);
    let nzs = row_positions(plan.nnz, row, plan.nnz.len() as int);
    lemma_row(plan.nnz, row);
    if mlir_piece(MlirPart::SparseCell, plan, pfx, s) is Ok && nzs.len() > 0 {
        let piece = sparse_terms(plan.shape, pfx, row, column, nzs);
        let lines = Seq::new(nzs.len(), |t: int| term_cell(plan, pfx, row, column, t));
        assert forall|t: int| 0 <= t < lines.len() && piece(t) is Ok implies piece(t)->Ok_0
            == #[trigger] lines[t] by {
            assert(filled_columns(plan.nnz, row)[t] == nzs[t].1);
        }
        lemma_pieces_in_turn(nzs.len() as int, piece, lines);
    }
}

proof fn lemma_explicit_cells(plan: PlanView, pfx: Seq<char>)
    requires
        plan.filling is Explicit,
    ensures
        product_mlir(plan, pfx) matches Ok(text) ==> text == filled(
            "    // Explicit sparse: {0} nnz\n"@,
            seq![nat_text(plan.nnz.len())],
        ) + in_turn(element_cells(plan, pfx)),
{
    lemma_sizes(plan.shape);
    if product_mlir(plan, pfx) is Ok {
        let piece = mlir_pieces(MlirPart::SparseCell, plan, pfx);
        let lines = element_cells(plan, pfx);
        assert forall|s: int| 0 <= s < lines.len() && piece(s) is Ok implies piece(s)->Ok_0
            == #[trigger] lines[s] by {
            lemma_element_cell(plan, pfx, s);
        }
        lemma_pieces_in_turn(plan.shape.m * plan.shape.n, piece, lines);
    }
}

proof fn lemma_diagonal_cells(plan: PlanView, pfx: Seq<char>)
    requires
        plan.filling is Diagonal,
    ensures
        product_mlir(plan, pfx) matches Ok(text) ==> text == in_turn(
            diagonal_cells(plan.shape, pfx),
        ),
{
    if product_mlir(plan, pfx) is Ok {
        let piece = mlir_pieces(MlirPart::Diagonal, plan, pfx);
        let lines = diagonal_cells(plan.shape, pfx);
        assert forall|i: int| 0 <= i < lines.len() && piece(i) is Ok implies piece(i)->Ok_0
            == #[trigger] lines[i] by {
            assert(piece(i) == mlir_piece(MlirPart::Diagonal, plan, pfx, i));
        }
        lemma_pieces_in_turn(plan.shape.m as int, piece, lines);
    }
}

/// The MLIR text of a product is its heading, the programs that fill the registers of the
/// left operand and then those of the right one, and lines that store every result in the
/// slot as far behind the offset as the result is behind the first, row by row.
pub proof fn law_mlir_products_fill_their_slots(
    node: ValueView,
    node_id: ValueView,
    output_offset: ValueView,
    id: usize,
    offset: usize,
    plan: PlanView,
)
    requires
        usize_arg(node_id, "MatMul node_id"@) == Ok::<usize, Seq<char>>(id),
        usize_arg(output_offset, "MatMul output_offset"@) == Ok::<usize, Seq<char>>(offset),
        matmul_plan(node, offset) == Ok::<PlanView, Seq<char>>(plan),
    ensures
        matmul_mlir(node, node_id, output_offset) matches Ok(text) ==> {
            let pfx = "mm"@ + nat_text(id as nat);
            let left = program_text(node.field("lhs_ops"@)->0, pfx);
            let right = program_text(node.field("rhs_ops"@)->0, pfx);
            let heading = filled(
                "    // MatMul {0}x{1}x{2} → out[{3}..{4}]\n"@,
                seq![
                    nat_text(plan.shape.m as nat),
                    nat_text(plan.shape.k as nat),
                    nat_text(plan.shape.n as nat),
                    nat_text(offset as nat),
                    nat_text((offset + plan.shape.m * plan.shape.n) as nat),
                ],
            );
            &&& node.field("lhs_ops"@) is Some
            &&& node.field("rhs_ops"@) is Some
            &&& left is Ok
            &&& right is Ok
            &&& text == heading + left->Ok_0 + right->Ok_0 + match plan.filling {
                Filling::Diagonal => in_turn(diagonal_cells(plan.shape, pfx)),
                Filling::Explicit => filled(
                    "    // Explicit sparse: {0} nnz\n"@,
                    seq![nat_text(plan.nnz.len())],
                ) + in_turn(element_cells(plan, pfx)),
                Filling::Dense => whole_cells(plan.shape, pfx),
            }
        },
{
    let pfx = "mm"@ + nat_text(id as nat);
    law_products_are_as_described(node, offset);
    match plan.filling {
        Filling::Diagonal => {
            lemma_diagonal_cells(plan, pfx);
        },
        Filling::Explicit => {
            lemma_explicit_cells(plan, pfx);
        },
        Filling::Dense => {
            lemma_dense_cells(plan, pfx);
        },
    }
}

} // verus!
