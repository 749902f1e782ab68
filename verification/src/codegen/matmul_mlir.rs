//! Matrix products as MLIR text.
use crate::codegen::fill::{both, fill, filled, lemma_pieces_fail, pieces, rendered};
use crate::codegen::mlir_ops::{emit_linear_ops_mlir, program_text};
use crate::codegen::shape::{
    matmul_nnz_for_row, matmul_plan, plan_matmul, row_positions, Filling, MatMulPlan,
    MatMulRenderShape, PlanView,
};
use crate::codegen::value::{
    get_field, required_usize_arg, usize_arg, Outcome, RenderError, TemplateValue, ValueView,
};
use crate::text::{nat_text, owned, usize_to_text, views};
use vstd::prelude::*;

verus! {

/// The repeated parts of a matrix product.
#[derive(Clone, Copy, Debug, PartialEq, Eq, Structural)]
pub enum MlirPart {
    /// A product of a diagonal element and a vector element.
    Diagonal,
    /// An element of the left operand put into its buffer.
    LhsElement,
    /// An element of the right operand put into its buffer.
    RhsElement,
    /// A result taken from its buffer.
    ResultCell,
    /// A result summed over the nonzero elements of its row.
    SparseCell,
}

/// Number of columns of the matrix that a part runs over.
pub open spec fn part_columns(part: MlirPart, shape: MatMulRenderShape) -> usize {
    match part {
        MlirPart::Diagonal => 1,
        MlirPart::LhsElement => shape.k,
        _ => shape.n,
    }
}

/// The product of a diagonal element and a vector element.
pub open spec fn diagonal_piece(shape: MatMulRenderShape, pfx: Seq<char>, i: int) -> Outcome<
    Seq<char>,
> {
    match shape.diagonal_at(i) {
        Err(e) => Err(e),
        Ok(a) => match shape.vector_at(i) {
            Err(e) => Err(e),
            Ok(b) => match shape.output_at(i) {
                Err(e) => Err(e),
                Ok(out) => Ok(
                    filled(
                        "    %{0}_diag{1} = arith.mulf %{0}_r{2}, %{0}_r{3} : f64\n    %{0}_douti{1} = arith.constant {4} : index\n    memref.store %{0}_diag{1}, %out[%{0}_douti{1}] : memref<?xf64>\n"@,
                        seq![
                            pfx,
                            nat_text(i as nat),
                            nat_text(a as nat),
                            nat_text(b as nat),
                            nat_text(out as nat),
                        ],
                    ),
                ),
            },
        },
    }
}

fn render_diagonal_piece(shape: MatMulRenderShape, pfx: &str, i: usize) -> (r: Result<
    String,
    RenderError,
>)
    ensures
        rendered(r, diagonal_piece(shape, pfx@, i as int)),
{
    let a = match shape.diagonal_lhs_reg(i) {
        Ok(n) => n,
        Err(e) => {
            return Err(e);
        },
    };
    let b = match shape.rhs_vector_reg(i) {
        Ok(n) => n,
        Err(e) => {
            return Err(e);
        },
    };
    let out = match shape.output_index(i) {
        Ok(n) => n,
        Err(e) => {
            return Err(e);
        },
    };
    let args = vec![
        owned(pfx),
        usize_to_text(i),
        usize_to_text(a),
        usize_to_text(b),
        usize_to_text(out),
    ];
    assert(views(args@) =~= seq![
        pfx@,
        nat_text(i as nat),
        nat_text(a as nat),
        nat_text(b as nat),
        nat_text(out as nat),
    ]);
    Ok(
        fill(
            "    %{0}_diag{1} = arith.mulf %{0}_r{2}, %{0}_r{3} : f64\n    %{0}_douti{1} = arith.constant {4} : index\n    memref.store %{0}_diag{1}, %out[%{0}_douti{1}] : memref<?xf64>\n",
            &args,
        ),
    )
}

/// A register put into the buffer of an operand.
pub open spec fn element_piece(
    register: Outcome<int>,
    pfx: Seq<char>,
    buffer: Seq<char>,
    row: int,
    column: int,
    rows: usize,
    columns: usize,
) -> Outcome<Seq<char>> {
    match register {
        Err(e) => Err(e),
        Ok(register) => Ok(
            filled(
                "    %{0}_{6}i{1}_{2} = arith.constant {1} : index\n\t%{0}_{6}j{1}_{2} = arith.constant {2} : index\n\tmemref.store %{0}_r{3}, %{0}_{6}[%{0}_{6}i{1}_{2}, %{0}_{6}j{1}_{2}] : memref<{4}x{5}xf64>\n"@,
                seq![
                    pfx,
                    nat_text(row as nat),
                    nat_text(column as nat),
                    nat_text(register as nat),
                    nat_text(rows as nat),
                    nat_text(columns as nat),
                    buffer,
                ],
            ),
        ),
    }
}

fn render_element_piece(
    register: usize,
    pfx: &str,
    buffer: &str,
    row: usize,
    column: usize,
    rows: usize,
    columns: usize,
) -> (r: String)
    ensures
        element_piece(Ok(register as int), pfx@, buffer@, row as int, column as int, rows, columns)
            == Ok::<_, Seq<char>>(r@),
{
    let args = vec![
        owned(pfx),
        usize_to_text(row),
        usize_to_text(column),
        usize_to_text(register),
        usize_to_text(rows),
        usize_to_text(columns),
        owned(buffer),
    ];
    assert(views(args@) =~= seq![
        pfx@,
        nat_text(row as nat),
        nat_text(column as nat),
        nat_text(register as nat),
        nat_text(rows as nat),
        nat_text(columns as nat),
        buffer@,
    ]);
    fill(
        "    %{0}_{6}i{1}_{2} = arith.constant {1} : index\n\t%{0}_{6}j{1}_{2} = arith.constant {2} : index\n\tmemref.store %{0}_r{3}, %{0}_{6}[%{0}_{6}i{1}_{2}, %{0}_{6}j{1}_{2}] : memref<{4}x{5}xf64>\n",
        &args,
    )
}

/// A result taken from its buffer and stored.
pub open spec fn result_piece(shape: MatMulRenderShape, pfx: Seq<char>, slot: int) -> Outcome<
    Seq<char>,
> {
    match shape.output_at(slot) {
        Err(e) => Err(e),
        Ok(out) => Ok(
            filled(
                "    %{0}_Ci{1}_{2} = arith.constant {1} : index\n\t%{0}_Cj{1}_{2} = arith.constant {2} : index\n\t%{0}_Cv{1}_{2} = memref.load %{0}_C[%{0}_Ci{1}_{2}, %{0}_Cj{1}_{2}] : memref<{3}x{4}xf64>\n\t%{0}_oi{1}_{2} = arith.constant {5} : index\n\tmemref.store %{0}_Cv{1}_{2}, %out[%{0}_oi{1}_{2}] : memref<?xf64>\n"@,
                seq![
                    pfx,
                    nat_text((slot / shape.n as int) as nat),
                    nat_text((slot % shape.n as int) as nat),
                    nat_text(shape.m as nat),
                    nat_text(shape.n as nat),
                    nat_text(out as nat),
                ],
            ),
        ),
    }
}

fn render_result_piece(shape: MatMulRenderShape, pfx: &str, slot: usize) -> (r: Result<
    String,
    RenderError,
>)
    requires
        shape.n > 0,
    ensures
        rendered(r, result_piece(shape, pfx@, slot as int)),
{
    let out = match shape.output_index(slot) {
        Ok(n) => n,
        Err(e) => {
            return Err(e);
        },
    };
    let row: usize = slot / shape.n;
    let column: usize = slot % shape.n;
    let args = vec![
        owned(pfx),
        usize_to_text(row),
        usize_to_text(column),
        usize_to_text(shape.m),
        usize_to_text(shape.n),
        usize_to_text(out),
    ];
    assert(views(args@) =~= seq![
        pfx@,
        nat_text((slot as int / shape.n as int) as nat),
        nat_text((slot as int % shape.n as int) as nat),
        nat_text(shape.m as nat),
        nat_text(shape.n as nat),
        nat_text(out as nat),
    ]);
    Ok(
        fill(
            "    %{0}_Ci{1}_{2} = arith.constant {1} : index\n\t%{0}_Cj{1}_{2} = arith.constant {2} : index\n\t%{0}_Cv{1}_{2} = memref.load %{0}_C[%{0}_Ci{1}_{2}, %{0}_Cj{1}_{2}] : memref<{3}x{4}xf64>\n\t%{0}_oi{1}_{2} = arith.constant {5} : index\n\tmemref.store %{0}_Cv{1}_{2}, %out[%{0}_oi{1}_{2}] : memref<?xf64>\n",
            &args,
        ),
    )
}

/// Term `t` of a sparse sum: the first starts the sum, the others add to it.
pub open spec fn sparse_term(
    shape: MatMulRenderShape,
    pfx: Seq<char>,
    row: int,
    column: int,
    nzs: Seq<(usize, usize)>,
    t: int,
) -> Outcome<Seq<char>> {
    match shape.lhs_at(row, nzs[t].1 as int) {
        Err(e) => Err(e),
        Ok(a) => match shape.rhs_at(nzs[t].1 as int, column) {
            Err(e) => Err(e),
            Ok(b) => if t == 0 {
                Ok(
                    filled(
                        "    %{0}_eacc{1}_{2}_0 = arith.mulf %{0}_r{3}, %{0}_r{4} : f64\n"@,
                        seq![
                            pfx,
                            nat_text(row as nat),
                            nat_text(column as nat),
                            nat_text(a as nat),
                            nat_text(b as nat),
                        ],
                    ),
                )
            } else {
                Ok(
                    filled(
                        "    %{0}_eprod{1}_{2}_{5} = arith.mulf %{0}_r{3}, %{0}_r{4} : f64\n\t%{0}_eacc{1}_{2}_{5} = arith.addf %{0}_eacc{1}_{2}_{6}, %{0}_eprod{1}_{2}_{5} : f64\n"@,
                        seq![
                            pfx,
                            nat_text(row as nat),
                            nat_text(column as nat),
                            nat_text(a as nat),
                            nat_text(b as nat),
                            nat_text(t as nat),
                            nat_text((t - 1) as nat),
                        ],
                    ),
                )
            },
        },
    }
}

fn render_sparse_term(
    shape: MatMulRenderShape,
    pfx: &str,
    row: usize,
    column: usize,
    nzs: &Vec<(usize, usize)>,
    t: usize,
) -> (r: Result<String, RenderError>)
    requires
        t < nzs@.len(),
    ensures
        rendered(r, sparse_term(shape, pfx@, row as int, column as int, nzs@, t as int)),
{
    let inner: usize = nzs[t].1;
    let a = match shape.lhs_matrix_reg(row, inner) {
        Ok(n) => n,
        Err(e) => {
            return Err(e);
        },
    };
    let b = match shape.rhs_matrix_reg(inner, column) {
        Ok(n) => n,
        Err(e) => {
            return Err(e);
        },
    };
    if t == 0 {
        let args = vec![
            owned(pfx),
            usize_to_text(row),
            usize_to_text(column),
            usize_to_text(a),
            usize_to_text(b),
        ];
        assert(views(args@) =~= seq![
            pfx@,
            nat_text(row as nat),
            nat_text(column as nat),
            nat_text(a as nat),
            nat_text(b as nat),
        ]);
        Ok(fill("    %{0}_eacc{1}_{2}_0 = arith.mulf %{0}_r{3}, %{0}_r{4} : f64\n", &args))
    } else {
        let args = vec![
            owned(pfx),
            usize_to_text(row),
            usize_to_text(column),
            usize_to_text(a),
            usize_to_text(b),
            usize_to_text(t),
            usize_to_text(t - 1),
        ];
        assert(views(args@) =~= seq![
            pfx@,
            nat_text(row as nat),
            nat_text(column as nat),
            nat_text(a as nat),
            nat_text(b as nat),
            nat_text(t as nat),
            nat_text((t - 1) as nat),
        ]);
        Ok(
            fill(
                "    %{0}_eprod{1}_{2}_{5} = arith.mulf %{0}_r{3}, %{0}_r{4} : f64\n\t%{0}_eacc{1}_{2}_{5} = arith.addf %{0}_eacc{1}_{2}_{6}, %{0}_eprod{1}_{2}_{5} : f64\n",
                &args,
            ),
        )
    }
}

/// The terms of a sparse sum.
pub open spec fn sparse_terms(
    shape: MatMulRenderShape,
    pfx: Seq<char>,
    row: int,
    column: int,
    nzs: Seq<(usize, usize)>,
) -> spec_fn(int) -> Outcome<Seq<char>> {
    |t: int| sparse_term(shape, pfx, row, column, nzs, t)
}

/// A result summed over the nonzero elements of its row; zero where there are
/// none.
pub open spec fn sparse_piece(
    shape: MatMulRenderShape,
    pfx: Seq<char>,
    row: int,
    column: int,
    out: int,
    nzs: Seq<(usize, usize)>,
) -> Outcome<Seq<char>> {
    if nzs.len() == 0 {
        Ok(
            filled(
                "    %{0}_ez{1}_{2} = arith.constant 0.0 : f64\n\t%{0}_eoi{1}_{2} = arith.constant {3} : index\n\tmemref.store %{0}_ez{1}_{2}, %out[%{0}_eoi{1}_{2}] : memref<?xf64>\n"@,
                seq![
                    pfx,
                    nat_text(row as nat),
                    nat_text(column as nat),
                    nat_text(out as nat),
                ],
            ),
        )
    } else {
        both(
            pieces(nzs.len() as int, sparse_terms(shape, pfx, row, column, nzs)),
            Ok(
                filled(
                    "    %{0}_eoi{1}_{2} = arith.constant {3} : index\n\tmemref.store %{0}_eacc{1}_{2}_{4}, %out[%{0}_eoi{1}_{2}] : memref<?xf64>\n"@,
                    seq![
                        pfx,
                        nat_text(row as nat),
                        nat_text(column as nat),
                        nat_text(out as nat),
                        nat_text((nzs.len() - 1) as nat),
                    ],
                ),
            ),
        )
    }
}

fn render_sparse_matmul_cell_mlir(
    shape: MatMulRenderShape,
    pfx: &str,
    row: usize,
    column: usize,
    out_index: usize,
    nzs: &Vec<(usize, usize)>,
) -> (r: Result<String, RenderError>)
    ensures
        rendered(
            r,
            sparse_piece(shape, pfx@, row as int, column as int, out_index as int, nzs@),
        ),
{
    if nzs.len() == 0 {
        let args = vec![
            owned(pfx),
            usize_to_text(row),
            usize_to_text(column),
            usize_to_text(out_index),
        ];
        assert(views(args@) =~= seq![
            pfx@,
            nat_text(row as nat),
            nat_text(column as nat),
            nat_text(out_index as nat),
        ]);
        return Ok(
            fill(
                "    %{0}_ez{1}_{2} = arith.constant 0.0 : f64\n\t%{0}_eoi{1}_{2} = arith.constant {3} : index\n\tmemref.store %{0}_ez{1}_{2}, %out[%{0}_eoi{1}_{2}] : memref<?xf64>\n",
                &args,
            ),
        );
    }
    let ghost piece = sparse_terms(shape, pfx@, row as int, column as int, nzs@);
    let ghost whole = sparse_piece(shape, pfx@, row as int, column as int, out_index as int, nzs@);
    let mut out = String::new();
    let mut t: usize = 0;
    assert(out@ =~= Seq::<char>::empty());
    while t < nzs.len()
        invariant
            t <= nzs@.len(),
            piece == sparse_terms(shape, pfx@, row as int, column as int, nzs@),
            whole == sparse_piece(
                shape,
                pfx@,
                row as int,
                column as int,
                out_index as int,
                nzs@,
            ),
            nzs@.len() > 0,
            pieces(t as int, piece) == Ok::<_, Seq<char>>(out@),
        decreases nzs.len() - t,
    {
        match render_sparse_term(shape, pfx, row, column, nzs, t) {
            Ok(text) => {
                out.append(text.as_str());
            },
            Err(e) => {
                proof {
                    lemma_pieces_fail(t + 1, nzs@.len() as int, piece);
                }
                return Err(e);
            },
        }
        t = t + 1;
    }
    let args = vec![
        owned(pfx),
        usize_to_text(row),
        usize_to_text(column),
        usize_to_text(out_index),
        usize_to_text(nzs.len() - 1),
    ];
    assert(views(args@) =~= seq![
        pfx@,
        nat_text(row as nat),
        nat_text(column as nat),
        nat_text(out_index as nat),
        nat_text((nzs@.len() - 1) as nat),
    ]);
    out.append(
        fill(
            "    %{0}_eoi{1}_{2} = arith.constant {3} : index\n\tmemref.store %{0}_eacc{1}_{2}_{4}, %out[%{0}_eoi{1}_{2}] : memref<?xf64>\n",
            &args,
        ).as_str(),
    );
    Ok(out)
}

/// One repetition of a part.
pub open spec fn mlir_piece(part: MlirPart, plan: PlanView, pfx: Seq<char>, slot: int) -> Outcome<
    Seq<char>,
> {
    let shape = plan.shape;
    let columns = part_columns(part, shape) as int;
    let row = slot / columns;
    let column = slot % columns;
    match part {
        MlirPart::Diagonal => diagonal_piece(shape, pfx, slot),
        MlirPart::LhsElement => element_piece(
            shape.lhs_at(row, column),
            pfx,
            "A"@,
            row,
            column,
            shape.m,
            shape.k,
        ),
        MlirPart::RhsElement => element_piece(
            shape.rhs_at(row, column),
            pfx,
            "B"@,
            row,
            column,
            shape.k,
            shape.n,
        ),
        MlirPart::ResultCell => result_piece(shape, pfx, slot),
        MlirPart::SparseCell => match shape.output_at(slot) {
            Err(e) => Err(e),
            Ok(out) => sparse_piece(
                shape,
                pfx,
                row,
                column,
                out,
                row_positions(plan.nnz, row, plan.nnz.len() as int),
            ),
        },
    }
}

fn render_mlir_piece(part: MlirPart, plan: &MatMulPlan, pfx: &str, slot: usize) -> (r: Result<
    String,
    RenderError,
>)
    requires
        part_columns(part, plan.shape) > 0,
    ensures
        rendered(r, mlir_piece(part, plan@, pfx@, slot as int)),
{
    let shape = plan.shape;
    match part {
        MlirPart::Diagonal => render_diagonal_piece(shape, pfx, slot),
        MlirPart::LhsElement => {
            let row: usize = slot / shape.k;
            let column: usize = slot % shape.k;
            match shape.lhs_matrix_reg(row, column) {
                Ok(register) => Ok(
                    render_element_piece(register, pfx, "A", row, column, shape.m, shape.k),
                ),
                Err(e) => Err(e),
            }
        },
        MlirPart::RhsElement => {
            let row: usize = slot / shape.n;
            let column: usize = slot % shape.n;
            match shape.rhs_matrix_reg(row, column) {
                Ok(register) => Ok(
                    render_element_piece(register, pfx, "B", row, column, shape.k, shape.n),
                ),
                Err(e) => Err(e),
            }
        },
        MlirPart::ResultCell => render_result_piece(shape, pfx, slot),
        MlirPart::SparseCell => {
            let row: usize = slot / shape.n;
            let column: usize = slot % shape.n;
            match shape.output_index(slot) {
                Ok(out) => {
                    let nzs = matmul_nnz_for_row(&plan.nnz, row);
                    render_sparse_matmul_cell_mlir(shape, pfx, row, column, out, &nzs)
                },
                Err(e) => Err(e),
            }
        },
    }
}

/// The repetitions of a part.
pub open spec fn mlir_pieces(part: MlirPart, plan: PlanView, pfx: Seq<char>) -> spec_fn(
    int,
) -> Outcome<Seq<char>> {
    |slot: int| mlir_piece(part, plan, pfx, slot)
}

fn render_mlir_pieces(part: MlirPart, plan: &MatMulPlan, pfx: &str, count: usize) -> (r: Result<
    String,
    RenderError,
>)
    requires
        count > 0 ==> part_columns(part, plan.shape) > 0,
    ensures
        rendered(r, pieces(count as int, mlir_pieces(part, plan@, pfx@))),
{
    let ghost piece = mlir_pieces(part, plan@, pfx@);
    let mut out = String::new();
    let mut i: usize = 0;
    assert(out@ =~= Seq::<char>::empty());
    while i < count
        invariant
            i <= count,
            count > 0 ==> part_columns(part, plan.shape) > 0,
            piece == mlir_pieces(part, plan@, pfx@),
            pieces(i as int, piece) == Ok::<_, Seq<char>>(out@),
        decreases count - i,
    {
        match render_mlir_piece(part, plan, pfx, i) {
            Ok(text) => {
                out.append(text.as_str());
            },
            Err(e) => {
                proof {
                    lemma_pieces_fail(i + 1, count as int, piece);
                }
                return Err(e);
            },
        }
        i = i + 1;
    }
    Ok(out)
}

/// The line that makes the buffer of an operand.
pub open spec fn buffer_line(
    pfx: Seq<char>,
    buffer: Seq<char>,
    rows: usize,
    columns: usize,
) -> Seq<char> {
    filled(
        "    %{0}_{1} = memref.alloca() : memref<{2}x{3}xf64>\n"@,
        seq![pfx, buffer, nat_text(rows as nat), nat_text(columns as nat)],
    )
}

fn render_buffer_line(pfx: &str, buffer: &str, rows: usize, columns: usize) -> (r: String)
    ensures
        r@ == buffer_line(pfx@, buffer@, rows, columns),
{
    let args = vec![owned(pfx), owned(buffer), usize_to_text(rows), usize_to_text(columns)];
    assert(views(args@) =~= seq![pfx@, buffer@, nat_text(rows as nat), nat_text(columns as nat)]);
    fill("    %{0}_{1} = memref.alloca() : memref<{2}x{3}xf64>\n", &args)
}

/// The lines that multiply the buffers.
pub open spec fn multiply_lines(shape: MatMulRenderShape, pfx: Seq<char>) -> Seq<char> {
    filled(
        "    %{0}_zero = arith.constant 0.0 : f64\n\t%{0}_C = memref.alloca() : memref<{1}x{3}xf64>\n\tlinalg.fill ins(%{0}_zero : f64) outs(%{0}_C : memref<{1}x{3}xf64>)\n\tlinalg.matmul ins(%{0}_A, %{0}_B : memref<{1}x{2}xf64>, memref<{2}x{3}xf64>) outs(%{0}_C : memref<{1}x{3}xf64>)\n"@,
        seq![
            pfx,
            nat_text(shape.m as nat),
            nat_text(shape.k as nat),
            nat_text(shape.n as nat),
        ],
    )
}

fn render_multiply_lines(shape: MatMulRenderShape, pfx: &str) -> (r: String)
    ensures
        r@ == multiply_lines(shape, pfx@),
{
    let args = vec![
        owned(pfx),
        usize_to_text(shape.m),
        usize_to_text(shape.k),
        usize_to_text(shape.n),
    ];
    assert(views(args@) =~= seq![
        pfx@,
        nat_text(shape.m as nat),
        nat_text(shape.k as nat),
        nat_text(shape.n as nat),
    ]);
    fill(
        "    %{0}_zero = arith.constant 0.0 : f64\n\t%{0}_C = memref.alloca() : memref<{1}x{3}xf64>\n\tlinalg.fill ins(%{0}_zero : f64) outs(%{0}_C : memref<{1}x{3}xf64>)\n\tlinalg.matmul ins(%{0}_A, %{0}_B : memref<{1}x{2}xf64>, memref<{2}x{3}xf64>) outs(%{0}_C : memref<{1}x{3}xf64>)\n",
        &args,
    )
}

/// A part repeated as often as its count says.
pub open spec fn repeated(
    count: Outcome<int>,
    part: MlirPart,
    plan: PlanView,
    pfx: Seq<char>,
) -> Outcome<Seq<char>> {
    match count {
        Ok(count) => pieces(count, mlir_pieces(part, plan, pfx)),
        Err(e) => Err(e),
    }
}

/// A dense product: the operands in buffers, one multiplication, and the results
/// taken from its buffer.
pub open spec fn dense_mlir(plan: PlanView, pfx: Seq<char>) -> Outcome<Seq<char>> {
    let shape = plan.shape;
    let lhs = both(
        Ok(buffer_line(pfx, "A"@, shape.m, shape.k)),
        repeated(shape.lhs_elements(), MlirPart::LhsElement, plan, pfx),
    );
    let rhs = both(
        Ok(buffer_line(pfx, "B"@, shape.k, shape.n)),
        repeated(shape.rhs_elements(), MlirPart::RhsElement, plan, pfx),
    );
    let result = both(
        Ok(multiply_lines(shape, pfx)),
        repeated(shape.outputs(), MlirPart::ResultCell, plan, pfx),
    );
    both(both(lhs, rhs), result)
}

fn render_repeated(
    count: Result<usize, RenderError>,
    part: MlirPart,
    plan: &MatMulPlan,
    pfx: &str,
    head: String,
) -> (r: Result<String, RenderError>)
    requires
        count is Ok && count->Ok_0 > 0 ==> part_columns(part, plan.shape) > 0,
    ensures
        rendered(
            r,
            both(
                Ok(head@),
                repeated(
                    match count {
                        Ok(n) => Ok(n as int),
                        Err(e) => Err(e@),
                    },
                    part,
                    plan@,
                    pfx@,
                ),
            ),
        ),
{
    match count {
        Ok(n) => match render_mlir_pieces(part, plan, pfx, n) {
            Ok(text) => {
                let mut out = head;
                out.append(text.as_str());
                Ok(out)
            },
            Err(e) => Err(e),
        },
        Err(e) => Err(e),
    }
}

fn render_dense_matmul_mlir(plan: &MatMulPlan, pfx: &str) -> (r: Result<String, RenderError>)
    ensures
        rendered(r, dense_mlir(plan@, pfx@)),
{
    let shape = plan.shape;
    proof {
        assert(shape.k == 0 ==> shape.m * shape.k == 0) by (nonlinear_arith);
        assert(shape.n == 0 ==> shape.k * shape.n == 0) by (nonlinear_arith);
        assert(shape.n == 0 ==> shape.m * shape.n == 0) by (nonlinear_arith);
    }
    let head = render_buffer_line(pfx, "A", shape.m, shape.k);
    let lhs = match render_repeated(
        shape.dense_lhs_count(),
        MlirPart::LhsElement,
        plan,
        pfx,
        head,
    ) {
        Ok(text) => text,
        Err(e) => {
            return Err(e);
        },
    };
    let head = render_buffer_line(pfx, "B", shape.k, shape.n);
    let rhs = match render_repeated(
        shape.dense_rhs_count(),
        MlirPart::RhsElement,
        plan,
        pfx,
        head,
    ) {
        Ok(text) => text,
        Err(e) => {
            return Err(e);
        },
    };
    let head = render_multiply_lines(shape, pfx);
    let result = match render_repeated(
        shape.output_count(),
        MlirPart::ResultCell,
        plan,
        pfx,
        head,
    ) {
        Ok(text) => text,
        Err(e) => {
            return Err(e);
        },
    };
    let mut out = lhs;
    out.append(rhs.as_str());
    out.append(result.as_str());
    Ok(out)
}

/// A product over the nonzero elements that are given.
pub open spec fn explicit_mlir(plan: PlanView, pfx: Seq<char>) -> Outcome<Seq<char>> {
    both(
        Ok(filled("    // Explicit sparse: {0} nnz\n"@, seq![nat_text(plan.nnz.len())])),
        repeated(plan.shape.outputs(), MlirPart::SparseCell, plan, pfx),
    )
}

fn render_explicit_sparse_matmul_mlir(plan: &MatMulPlan, pfx: &str) -> (r: Result<
    String,
    RenderError,
>)
    ensures
        rendered(r, explicit_mlir(plan@, pfx@)),
{
    let shape = plan.shape;
    proof {
        assert(shape.n == 0 ==> shape.m * shape.n == 0) by (nonlinear_arith);
    }
    let args = vec![usize_to_text(plan.nnz.len())];
    assert(views(args@) =~= seq![nat_text(plan@.nnz.len())]);
    let head = fill("    // Explicit sparse: {0} nnz\n", &args);
    render_repeated(shape.output_count(), MlirPart::SparseCell, plan, pfx, head)
}

/// The product itself, without the programs that fill its operands.
pub open spec fn product_mlir(plan: PlanView, pfx: Seq<char>) -> Outcome<Seq<char>> {
    match plan.filling {
        Filling::Diagonal => pieces(
            plan.shape.m as int,
            mlir_pieces(MlirPart::Diagonal, plan, pfx),
        ),
        Filling::Explicit => explicit_mlir(plan, pfx),
        Filling::Dense => dense_mlir(plan, pfx),
    }
}

fn render_product_mlir(plan: &MatMulPlan, pfx: &str) -> (r: Result<String, RenderError>)
    ensures
        rendered(r, product_mlir(plan@, pfx@)),
{
    match plan.filling {
        Filling::Diagonal => render_mlir_pieces(MlirPart::Diagonal, plan, pfx, plan.shape.m),
        Filling::Explicit => render_explicit_sparse_matmul_mlir(plan, pfx),
        Filling::Dense => render_dense_matmul_mlir(plan, pfx),
    }
}

/// The comment that opens a matrix product.
pub open spec fn product_heading(plan: PlanView) -> Seq<char> {
    filled(
        "    // MatMul {0}x{1}x{2} → out[{3}..{4}]\n"@,
        seq![
            nat_text(plan.shape.m as nat),
            nat_text(plan.shape.k as nat),
            nat_text(plan.shape.n as nat),
            nat_text(plan.shape.offset as nat),
            nat_text(plan.end_offset as nat),
        ],
    )
}

/// A planned product: its heading, the programs of its operands and the product.
pub open spec fn planned_mlir(node: ValueView, plan: PlanView, pfx: Seq<char>) -> Outcome<Seq<char>> {
    both(
        both(
            both(
                Ok(product_heading(plan)),
                program_text(node.field("lhs_ops"@)->0, pfx),
            ),
            program_text(node.field("rhs_ops"@)->0, pfx),
        ),
        product_mlir(plan, pfx),
    )
}

/// A matrix product as MLIR text.
pub open spec fn matmul_mlir(node: ValueView, node_id: ValueView, output_offset: ValueView) -> Outcome<
    Seq<char>,
> {
    match usize_arg(node_id, "MatMul node_id"@) {
        Err(e) => Err(e),
        Ok(id) => match usize_arg(output_offset, "MatMul output_offset"@) {
            Err(e) => Err(e),
            Ok(offset) => match matmul_plan(node, offset) {
                Err(e) => Err(e),
                Ok(plan) => planned_mlir(node, plan, "mm"@ + nat_text(id as nat)),
            },
        },
    }
}

fn render_planned_mlir(node: &TemplateValue, plan: &MatMulPlan, pfx: &str) -> (r: Result<
    String,
    RenderError,
>)
    requires
        node@.field("lhs_ops"@) is Some,
        node@.field("rhs_ops"@) is Some,
    ensures
        rendered(r, planned_mlir(node@, plan@, pfx@)),
{
    let args = vec![
        usize_to_text(plan.shape.m),
        usize_to_text(plan.shape.k),
        usize_to_text(plan.shape.n),
        usize_to_text(plan.shape.offset),
        usize_to_text(plan.end_offset),
    ];
    assert(views(args@) =~= seq![
        nat_text(plan@.shape.m as nat),
        nat_text(plan@.shape.k as nat),
        nat_text(plan@.shape.n as nat),
        nat_text(plan@.shape.offset as nat),
        nat_text(plan@.end_offset as nat),
    ]);
    let mut out = fill("    // MatMul {0}x{1}x{2} → out[{3}..{4}]\n", &args);
    let lhs_ops = match get_field(node, "lhs_ops") {
        Ok(v) => v,
        Err(e) => {
            return Err(e);
        },
    };
    match emit_linear_ops_mlir(lhs_ops, pfx) {
        Ok(text) => {
            out.append(text.as_str());
        },
        Err(e) => {
            return Err(e);
        },
    }
    let rhs_ops = match get_field(node, "rhs_ops") {
        Ok(v) => v,
        Err(e) => {
            return Err(e);
        },
    };
    match emit_linear_ops_mlir(rhs_ops, pfx) {
        Ok(text) => {
            out.append(text.as_str());
        },
        Err(e) => {
            return Err(e);
        },
    }
    match render_product_mlir(plan, pfx) {
        Ok(text) => {
            out.append(text.as_str());
        },
        Err(e) => {
            return Err(e);
        },
    }
    Ok(out)
}

/// A matrix product as MLIR text: diagonal products and products over given
/// nonzero elements are written out one by one, all others multiply buffers.
pub fn render_matmul_mlir_function(
    node: &TemplateValue,
    node_id: &TemplateValue,
    output_offset: &TemplateValue,
) -> (r: Result<String, RenderError>)
    ensures
        rendered(r, matmul_mlir(node@, node_id@, output_offset@)),
{
    let id = match required_usize_arg(node_id, "MatMul node_id") {
        Ok(n) => n,
        Err(e) => {
            return Err(e);
        },
    };
    let offset = match required_usize_arg(output_offset, "MatMul output_offset") {
        Ok(n) => n,
        Err(e) => {
            return Err(e);
        },
    };
    let plan = match plan_matmul(node, offset) {
        Ok(plan) => plan,
        Err(e) => {
            return Err(e);
        },
    };
    let mut pfx = owned("mm");
    pfx.append(usize_to_text(id).as_str());
    render_planned_mlir(node, &plan, pfx.as_str())
}

} // verus!
