//! Linear solves as MLIR text.
use crate::codegen::fill::{both, fill, filled, lemma_pieces_fail, pieces, rendered};
use crate::codegen::mlir_ops::{emit_linear_ops_mlir, program_text};
use crate::codegen::shape::{
    plain_field, valid_linsolve, validate_linsolve_render_shape, LinSolveRenderShape,
};
use crate::codegen::value::{
    get_field, required_usize_arg, required_usize_field, usize_arg, usize_field, Outcome,
    RenderError, TemplateValue, ValueView,
};
use crate::text::{nat_text, owned, usize_to_text, views};
use vstd::prelude::*;

verus! {

/// The repeated parts of a linear solve.
#[derive(Clone, Copy, Debug, PartialEq, Eq, Structural)]
pub enum LinSolvePart {
    /// An element of the matrix put into its buffer.
    Matrix,
    /// An element of the right-hand side put into its buffer.
    Rhs,
    /// A component of the solution computed and stored.
    Component,
}

/// A register put into a buffer.
pub open spec fn buffer_element(
    register: Outcome<int>,
    pfx: Seq<char>,
    buffer: Seq<char>,
    i: int,
    size: int,
) -> Outcome<Seq<char>> {
    match register {
        Err(e) => Err(e),
        Ok(register) => Ok(
            filled(
                "    %{0}_{4}i{1} = arith.constant {1} : index\n\tmemref.store %{0}_r{2}, %{0}_{4}[%{0}_{4}i{1}] : memref<{3}xf64>\n"@,
                seq![
                    pfx,
                    nat_text(i as nat),
                    nat_text(register as nat),
                    nat_text(size as nat),
                    buffer,
                ],
            ),
        ),
    }
}

fn render_buffer_element(
    register: usize,
    pfx: &str,
    buffer: &str,
    i: usize,
    size: usize,
) -> (r: String)
    ensures
        buffer_element(Ok(register as int), pfx@, buffer@, i as int, size as int) == Ok::<
            _,
            Seq<char>,
        >(r@),
{
    let args = vec![
        owned(pfx),
        usize_to_text(i),
        usize_to_text(register),
        usize_to_text(size),
        owned(buffer),
    ];
    assert(views(args@) =~= seq![
        pfx@,
        nat_text(i as nat),
        nat_text(register as nat),
        nat_text(size as nat),
        buffer@,
    ]);
    fill(
        "    %{0}_{4}i{1} = arith.constant {1} : index\n\tmemref.store %{0}_r{2}, %{0}_{4}[%{0}_{4}i{1}] : memref<{3}xf64>\n",
        &args,
    )
}

/// A component of the solution computed and stored.
pub open spec fn component_piece(output: Outcome<int>, pfx: Seq<char>, i: int) -> Outcome<
    Seq<char>,
> {
    match output {
        Err(e) => Err(e),
        Ok(out) => Ok(
            filled(
                "    %{0}_comp{1} = arith.constant {1} : i64\n\t%{0}_x{1} = func.call @rumoca_solve_linear_component(%{0}_Ai64, %{0}_bi64, %{0}_nn, %{0}_comp{1}) : (i64, i64, i64, i64) -> f64\n\t%{0}_oi{1} = arith.constant {2} : index\n\tmemref.store %{0}_x{1}, %out[%{0}_oi{1}] : memref<?xf64>\n"@,
                seq![pfx, nat_text(i as nat), nat_text(out as nat)],
            ),
        ),
    }
}

fn render_component_piece(out: usize, pfx: &str, i: usize) -> (r: String)
    ensures
        component_piece(Ok(out as int), pfx@, i as int) == Ok::<_, Seq<char>>(r@),
{
    let args = vec![owned(pfx), usize_to_text(i), usize_to_text(out)];
    assert(views(args@) =~= seq![pfx@, nat_text(i as nat), nat_text(out as nat)]);
    fill(
        "    %{0}_comp{1} = arith.constant {1} : i64\n\t%{0}_x{1} = func.call @rumoca_solve_linear_component(%{0}_Ai64, %{0}_bi64, %{0}_nn, %{0}_comp{1}) : (i64, i64, i64, i64) -> f64\n\t%{0}_oi{1} = arith.constant {2} : index\n\tmemref.store %{0}_x{1}, %out[%{0}_oi{1}] : memref<?xf64>\n",
        &args,
    )
}

/// One repetition of a part whose whole size is `size`.
pub open spec fn linsolve_piece(
    part: LinSolvePart,
    shape: LinSolveRenderShape,
    pfx: Seq<char>,
    size: int,
    i: int,
) -> Outcome<Seq<char>> {
    match part {
        LinSolvePart::Matrix => buffer_element(shape.matrix_at(i), pfx, "A"@, i, size),
        LinSolvePart::Rhs => buffer_element(shape.rhs_at(i), pfx, "b"@, i, size),
        LinSolvePart::Component => component_piece(shape.output_at(i), pfx, i),
    }
}

/// The repetitions of a part.
pub open spec fn linsolve_pieces(
    part: LinSolvePart,
    shape: LinSolveRenderShape,
    pfx: Seq<char>,
    size: int,
) -> spec_fn(int) -> Outcome<Seq<char>> {
    |i: int| linsolve_piece(part, shape, pfx, size, i)
}

fn render_linsolve_piece(
    part: LinSolvePart,
    shape: LinSolveRenderShape,
    pfx: &str,
    size: usize,
    i: usize,
) -> (r: Result<String, RenderError>)
    ensures
        rendered(r, linsolve_piece(part, shape, pfx@, size as int, i as int)),
{
    match part {
        LinSolvePart::Matrix => match shape.matrix_reg(i) {
            Ok(register) => Ok(render_buffer_element(register, pfx, "A", i, size)),
            Err(e) => Err(e),
        },
        LinSolvePart::Rhs => match shape.rhs_reg(i) {
            Ok(register) => Ok(render_buffer_element(register, pfx, "b", i, size)),
            Err(e) => Err(e),
        },
        LinSolvePart::Component => match shape.output_index(i) {
            Ok(out) => Ok(render_component_piece(out, pfx, i)),
            Err(e) => Err(e),
        },
    }
}

fn render_linsolve_pieces(
    part: LinSolvePart,
    shape: LinSolveRenderShape,
    pfx: &str,
    size: usize,
    head: String,
) -> (r: Result<String, RenderError>)
    ensures
        rendered(
            r,
            both(Ok(head@), pieces(size as int, linsolve_pieces(part, shape, pfx@, size as int))),
        ),
{
    let ghost piece = linsolve_pieces(part, shape, pfx@, size as int);
    let ghost front = head@;
    let mut text = String::new();
    let mut i: usize = 0;
    assert(text@ =~= Seq::<char>::empty());
    while i < size
        invariant
            i <= size,
            front == head@,
            piece == linsolve_pieces(part, shape, pfx@, size as int),
            pieces(i as int, piece) == Ok::<_, Seq<char>>(text@),
        decreases size - i,
    {
        match render_linsolve_piece(part, shape, pfx, size, i) {
            Ok(piece_text) => {
                text.append(piece_text.as_str());
            },
            Err(e) => {
                proof {
                    lemma_pieces_fail(i + 1, size as int, piece);
                }
                return Err(e);
            },
        }
        i = i + 1;
    }
    let mut out = head;
    out.append(text.as_str());
    Ok(out)
}

/// The line that makes a buffer.
pub open spec fn flat_buffer_line(pfx: Seq<char>, buffer: Seq<char>, size: int) -> Seq<char> {
    filled(
        "    %{0}_{1} = memref.alloca() : memref<{2}xf64>\n"@,
        seq![pfx, buffer, nat_text(size as nat)],
    )
}

fn render_flat_buffer_line(pfx: &str, buffer: &str, size: usize) -> (r: String)
    ensures
        r@ == flat_buffer_line(pfx@, buffer@, size as int),
{
    let args = vec![owned(pfx), owned(buffer), usize_to_text(size)];
    assert(views(args@) =~= seq![pfx@, buffer@, nat_text(size as nat)]);
    fill("    %{0}_{1} = memref.alloca() : memref<{2}xf64>\n", &args)
}

/// The lines that turn the buffers into numbers to pass on.
pub open spec fn pointer_lines(pfx: Seq<char>, matrix: int, rhs: int, n: usize) -> Seq<char> {
    filled(
        "    %{0}_Aidx = memref.extract_aligned_pointer_as_index %{0}_A : memref<{1}xf64> -> index\n\t%{0}_Ai64 = arith.index_cast %{0}_Aidx : index to i64\n\t%{0}_bidx = memref.extract_aligned_pointer_as_index %{0}_b : memref<{2}xf64> -> index\n\t%{0}_bi64 = arith.index_cast %{0}_bidx : index to i64\n\t%{0}_nn = arith.constant {3} : i64\n"@,
        seq![pfx, nat_text(matrix as nat), nat_text(rhs as nat), nat_text(n as nat)],
    )
}

fn render_pointer_lines(pfx: &str, matrix: usize, rhs: usize, n: usize) -> (r: String)
    ensures
        r@ == pointer_lines(pfx@, matrix as int, rhs as int, n),
{
    let args = vec![owned(pfx), usize_to_text(matrix), usize_to_text(rhs), usize_to_text(n)];
    assert(views(args@) =~= seq![
        pfx@,
        nat_text(matrix as nat),
        nat_text(rhs as nat),
        nat_text(n as nat),
    ]);
    fill(
        "    %{0}_Aidx = memref.extract_aligned_pointer_as_index %{0}_A : memref<{1}xf64> -> index\n\t%{0}_Ai64 = arith.index_cast %{0}_Aidx : index to i64\n\t%{0}_bidx = memref.extract_aligned_pointer_as_index %{0}_b : memref<{2}xf64> -> index\n\t%{0}_bi64 = arith.index_cast %{0}_bidx : index to i64\n\t%{0}_nn = arith.constant {3} : i64\n",
        &args,
    )
}

/// The solve after its setup: the buffers, their addresses and a call for each
/// component.
pub open spec fn solve_body(
    shape: LinSolveRenderShape,
    pfx: Seq<char>,
    matrix: int,
    rhs: int,
) -> Outcome<Seq<char>> {
    let matrix_part = both(
        Ok(flat_buffer_line(pfx, "A"@, matrix)),
        pieces(matrix, linsolve_pieces(LinSolvePart::Matrix, shape, pfx, matrix)),
    );
    let rhs_part = both(
        Ok(flat_buffer_line(pfx, "b"@, rhs)),
        pieces(rhs, linsolve_pieces(LinSolvePart::Rhs, shape, pfx, rhs)),
    );
    let components = both(
        Ok(pointer_lines(pfx, matrix, rhs, shape.n)),
        pieces(
            shape.n as int,
            linsolve_pieces(LinSolvePart::Component, shape, pfx, shape.n as int),
        ),
    );
    both(both(matrix_part, rhs_part), components)
}

fn render_solve_body(shape: LinSolveRenderShape, pfx: &str, matrix: usize, rhs: usize) -> (r: Result<
    String,
    RenderError,
>)
    ensures
        rendered(r, solve_body(shape, pfx@, matrix as int, rhs as int)),
{
    let head = render_flat_buffer_line(pfx, "A", matrix);
    let matrix_part = match render_linsolve_pieces(
        LinSolvePart::Matrix,
        shape,
        pfx,
        matrix,
        head,
    ) {
        Ok(text) => text,
        Err(e) => {
            return Err(e);
        },
    };
    let head = render_flat_buffer_line(pfx, "b", rhs);
    let rhs_part = match render_linsolve_pieces(LinSolvePart::Rhs, shape, pfx, rhs, head) {
        Ok(text) => text,
        Err(e) => {
            return Err(e);
        },
    };
    let head = render_pointer_lines(pfx, matrix, rhs, shape.n);
    let components = match render_linsolve_pieces(
        LinSolvePart::Component,
        shape,
        pfx,
        shape.n,
        head,
    ) {
        Ok(text) => text,
        Err(e) => {
            return Err(e);
        },
    };
    let mut out = matrix_part;
    out.append(rhs_part.as_str());
    out.append(components.as_str());
    Ok(out)
}

/// The comment that opens a linear solve.
pub open spec fn solve_heading(shape: LinSolveRenderShape, end: int) -> Seq<char> {
    filled(
        "    // LinSolve {0}×{0} → out[{1}..{2}]\n"@,
        seq![
            nat_text(shape.n as nat),
            nat_text(shape.output_offset as nat),
            nat_text(end as nat),
        ],
    )
}

/// A solve of this shape after the program that fills its registers.
pub open spec fn shaped_linsolve(
    setup_ops: ValueView,
    shape: LinSolveRenderShape,
    pfx: Seq<char>,
) -> Outcome<Seq<char>> {
    match valid_linsolve(shape) {
        Err(e) => Err(e),
        Ok((matrix, rhs, end)) => both(
            both(Ok(solve_heading(shape, end)), program_text(setup_ops, pfx)),
            solve_body(shape, pfx, matrix, rhs),
        ),
    }
}

/// The shape of the solve that a node describes.
pub open spec fn linsolve_shape(node: ValueView, offset: usize) -> Outcome<LinSolveRenderShape> {
    match usize_field(node, "matrix_start"@) {
        Err(e) => Err(e),
        Ok(matrix_start) => match usize_field(node, "rhs_start"@) {
            Err(e) => Err(e),
            Ok(rhs_start) => match usize_field(node, "n"@) {
                Err(e) => Err(e),
                Ok(n) => Ok(
                    LinSolveRenderShape { matrix_start, rhs_start, n, output_offset: offset },
                ),
            },
        },
    }
}

/// A linear solve as MLIR text.
pub open spec fn linsolve_mlir(
    node: ValueView,
    node_id: ValueView,
    output_offset: ValueView,
) -> Outcome<Seq<char>> {
    match usize_arg(node_id, "LinSolve node_id"@) {
        Err(e) => Err(e),
        Ok(id) => match usize_arg(output_offset, "LinSolve output_offset"@) {
            Err(e) => Err(e),
            Ok(offset) => match plain_field(node, "setup_ops"@) {
                Err(e) => Err(e),
                Ok(setup_ops) => match linsolve_shape(node, offset) {
                    Err(e) => Err(e),
                    Ok(shape) => shaped_linsolve(setup_ops, shape, "ls"@ + nat_text(id as nat)),
                },
            },
        },
    }
}

fn render_shaped_linsolve(
    setup_ops: &TemplateValue,
    shape: LinSolveRenderShape,
    pfx: &str,
) -> (r: Result<String, RenderError>)
    ensures
        rendered(r, shaped_linsolve(setup_ops@, shape, pfx@)),
{
    let (matrix, rhs, end) = match validate_linsolve_render_shape(shape) {
        Ok(sizes) => sizes,
        Err(e) => {
            return Err(e);
        },
    };
    let args = vec![usize_to_text(shape.n), usize_to_text(shape.output_offset), usize_to_text(end)];
    assert(views(args@) =~= seq![
        nat_text(shape.n as nat),
        nat_text(shape.output_offset as nat),
        nat_text(end as nat),
    ]);
    let mut out = fill("    // LinSolve {0}×{0} → out[{1}..{2}]\n", &args);
    match emit_linear_ops_mlir(setup_ops, pfx) {
        Ok(text) => {
            out.append(text.as_str());
        },
        Err(e) => {
            return Err(e);
        },
    }
    match render_solve_body(shape, pfx, matrix, rhs) {
        Ok(text) => {
            out.append(text.as_str());
        },
        Err(e) => {
            return Err(e);
        },
    }
    Ok(out)
}

/// A linear solve as MLIR text: matrix and right-hand side go into buffers, and
/// each component of the solution comes from a call.
pub fn render_linsolve_mlir_function(
    node: &TemplateValue,
    node_id: &TemplateValue,
    output_offset: &TemplateValue,
) -> (r: Result<String, RenderError>)
    ensures
        rendered(r, linsolve_mlir(node@, node_id@, output_offset@)),
{
    let id = match required_usize_arg(node_id, "LinSolve node_id") {
        Ok(n) => n,
        Err(e) => {
            return Err(e);
        },
    };
    let offset = match required_usize_arg(output_offset, "LinSolve output_offset") {
        Ok(n) => n,
        Err(e) => {
            return Err(e);
        },
    };
    let setup_ops = match get_field(node, "setup_ops") {
        Ok(v) => v,
        Err(e) => {
            return Err(e);
        },
    };
    let matrix_start = match required_usize_field(node, "matrix_start") {
        Ok(n) => n,
        Err(e) => {
            return Err(e);
        },
    };
    let rhs_start = match required_usize_field(node, "rhs_start") {
        Ok(n) => n,
        Err(e) => {
            return Err(e);
        },
    };
    let n = match required_usize_field(node, "n") {
        Ok(n) => n,
        Err(e) => {
            return Err(e);
        },
    };
    let shape = LinSolveRenderShape { matrix_start, rhs_start, n, output_offset: offset };
    let mut pfx = owned("ls");
    pfx.append(usize_to_text(id).as_str());
    render_shaped_linsolve(setup_ops, shape, pfx.as_str())
}

} // verus!
