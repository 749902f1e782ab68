//! What the text of a linear solve reads and writes.
use crate::codegen::fill::{filled, pieces};
use crate::codegen::linsolve_mlir::{linsolve_mlir, linsolve_pieces, LinSolvePart};
use crate::codegen::mlir_ops::program_text;
use crate::codegen::shape::{plain_field, LinSolveRenderShape};
use crate::codegen::value::{usize_arg, usize_field, ValueView};
use crate::text::nat_text;
use vstd::prelude::*;

verus! {

/// The lines that put register `register` into element `i` of a buffer of `size`.
pub open spec fn element_store(
    pfx: Seq<char>,
    buffer: Seq<char>,
    i: nat,
    register: nat,
    size: nat,
) -> Seq<char> {
    filled(
        "    %{0}_{4}i{1} = arith.constant {1} : index\n\tmemref.store %{0}_r{2}, %{0}_{4}[%{0}_{4}i{1}] : memref<{3}xf64>\n"@,
        seq![pfx, nat_text(i), nat_text(register), nat_text(size), buffer],
    )
}

/// The lines that fill the first `k` elements of a buffer of `size` from the registers
/// `start` and on, element for element.
pub open spec fn element_stores(
    pfx: Seq<char>,
    buffer: Seq<char>,
    start: nat,
    size: nat,
    k: nat,
) -> Seq<char>
    decreases k,
{
    if k == 0 {
        Seq::empty()
    } else {
        element_stores(pfx, buffer, start, size, (k - 1) as nat) + element_store(
            pfx,
            buffer,
            (k - 1) as nat,
            (start + k - 1) as nat,
            size,
        )
    }
}

/// The lines that compute component `i` of the solution.
pub open spec fn component_call(pfx: Seq<char>, i: nat) -> Seq<char> {
    filled(
        "    %{0}_comp{1} = arith.constant {1} : i64\n\t%{0}_x{1} = func.call @rumoca_solve_linear_component(%{0}_Ai64, %{0}_bi64, %{0}_nn, %{0}_comp{1}) : (i64, i64, i64, i64) -> f64\n"@,
        seq![pfx, nat_text(i)],
    )
}

/// The lines that store component `i` of the solution in a slot of the output.
pub open spec fn component_store(pfx: Seq<char>, i: nat, slot: nat) -> Seq<char> {
    filled(
        "\t%{0}_oi{1} = arith.constant {2} : index\n\tmemref.store %{0}_x{1}, %out[%{0}_oi{1}] : memref<?xf64>\n"@,
        seq![pfx, nat_text(i), nat_text(slot)],
    )
}

/// The lines that compute the first `k` components of the solution and store component
/// `i` in the slot `offset + i` of the output.
pub open spec fn component_stores(pfx: Seq<char>, offset: nat, k: nat) -> Seq<char>
    decreases k,
{
    if k == 0 {
        Seq::empty()
    } else {
        component_stores(pfx, offset, (k - 1) as nat) + component_call(pfx, (k - 1) as nat)
            + component_store(pfx, (k - 1) as nat, (offset + k - 1) as nat)
    }
}

/// The line that makes a buffer of a size.
pub open spec fn new_buffer(pfx: Seq<char>, buffer: Seq<char>, size: nat) -> Seq<char> {
    filled(
        "    %{0}_{1} = memref.alloca() : memref<{2}xf64>\n"@,
        seq![pfx, buffer, nat_text(size)],
    )
}

/// The lines that name the addresses of the matrix of `n * n` elements and of the
/// right-hand side of `n` elements, and the size `n`.
pub open spec fn operand_names(pfx: Seq<char>, n: nat) -> Seq<char> {
    filled(
        "    %{0}_Aidx = memref.extract_aligned_pointer_as_index %{0}_A : memref<{1}xf64> -> index\n\t%{0}_Ai64 = arith.index_cast %{0}_Aidx : index to i64\n\t%{0}_bidx = memref.extract_aligned_pointer_as_index %{0}_b : memref<{2}xf64> -> index\n\t%{0}_bi64 = arith.index_cast %{0}_bidx : index to i64\n\t%{0}_nn = arith.constant {3} : i64\n"@,
        seq![pfx, nat_text(n * n), nat_text(n), nat_text(n)],
    )
}

/// Filling two texts one after the other fills both, where no gap lies across the seam.
proof fn lemma_filled_parts(a: Seq<char>, b: Seq<char>, args: Seq<Seq<char>>)
    requires
        a.len() >= 1 ==> a[a.len() - 1] != '{',
        a.len() >= 2 ==> a[a.len() - 2] != '{',
    ensures
        filled(a + b, args) == filled(a, args) + filled(b, args),
    decreases a.len(),
{
    let t = a + b;
    if a.len() == 0 {
        assert(t =~= b);
        assert(filled(t, args) =~= filled(a, args) + filled(b, args));
    } else {
        assert(t[0] == a[0]);
        if a.len() >= 3 {
            assert(t[1] == a[1] && t[2] == a[2]);
            assert(t.skip(3) =~= a.skip(3) + b);
            lemma_filled_parts(a.skip(3), b, args);
        }
        assert(t.skip(1) =~= a.skip(1) + b);
        lemma_filled_parts(a.skip(1), b, args);
        assert(filled(t, args) =~= filled(a, args) + filled(b, args));
    }
}

/// Arguments that no gap asks for make no difference.
proof fn lemma_fewer_arguments(t: Seq<char>, args: Seq<Seq<char>>, more: Seq<Seq<char>>)
    requires
        args.len() <= more.len(),
        forall|i: int| 0 <= i < args.len() ==> args[i] == more[i],
        forall|i: int|
            0 <= i < t.len() ==> '0' <= (#[trigger] t[i]) <= '9' ==> (t[i] as int) - ('0' as int)
                < args.len() || i == 0 || t[i - 1] != '{',
    ensures
        filled(t, args) == filled(t, more),
    decreases t.len(),
{
    if t.len() > 0 {
        if t.len() >= 3 {
            assert(t[1] == t[1]);
            let rest = t.skip(3);
            assert forall|i: int| 0 <= i < rest.len() implies '0' <= (#[trigger] rest[i]) <= '9'
                ==> (rest[i] as int) - ('0' as int) < args.len() || i == 0 || rest[i - 1]
                != '{' by {
                assert(rest[i] == t[i + 3]);
            }
            lemma_fewer_arguments(rest, args, more);
        }
        let rest = t.skip(1);
        assert forall|i: int| 0 <= i < rest.len() implies '0' <= (#[trigger] rest[i]) <= '9' ==> (
        rest[i] as int) - ('0' as int) < args.len() || i == 0 || rest[i - 1] != '{' by {
            assert(rest[i] == t[i + 1]);
        }
        lemma_fewer_arguments(rest, args, more);
    }
}

proof fn lemma_component_piece(pfx: Seq<char>, i: nat, slot: nat)
    ensures
        filled(
            "    %{0}_comp{1} = arith.constant {1} : i64\n\t%{0}_x{1} = func.call @rumoca_solve_linear_component(%{0}_Ai64, %{0}_bi64, %{0}_nn, %{0}_comp{1}) : (i64, i64, i64, i64) -> f64\n\t%{0}_oi{1} = arith.constant {2} : index\n\tmemref.store %{0}_x{1}, %out[%{0}_oi{1}] : memref<?xf64>\n"@,
            seq![pfx, nat_text(i), nat_text(slot)],
        ) == component_call(pfx, i) + component_store(pfx, i, slot),
{
    reveal_strlit(
        "    %{0}_comp{1} = arith.constant {1} : i64\n\t%{0}_x{1} = func.call @rumoca_solve_linear_component(%{0}_Ai64, %{0}_bi64, %{0}_nn, %{0}_comp{1}) : (i64, i64, i64, i64) -> f64\n\t%{0}_oi{1} = arith.constant {2} : index\n\tmemref.store %{0}_x{1}, %out[%{0}_oi{1}] : memref<?xf64>\n",
    );
    reveal_strlit(
        "    %{0}_comp{1} = arith.constant {1} : i64\n\t%{0}_x{1} = func.call @rumoca_solve_linear_component(%{0}_Ai64, %{0}_bi64, %{0}_nn, %{0}_comp{1}) : (i64, i64, i64, i64) -> f64\n",
    );
    reveal_strlit(
        "\t%{0}_oi{1} = arith.constant {2} : index\n\tmemref.store %{0}_x{1}, %out[%{0}_oi{1}] : memref<?xf64>\n",
    );
    let whole =
        "    %{0}_comp{1} = arith.constant {1} : i64\n\t%{0}_x{1} = func.call @rumoca_solve_linear_component(%{0}_Ai64, %{0}_bi64, %{0}_nn, %{0}_comp{1}) : (i64, i64, i64, i64) -> f64\n\t%{0}_oi{1} = arith.constant {2} : index\n\tmemref.store %{0}_x{1}, %out[%{0}_oi{1}] : memref<?xf64>\n"@;
    let call =
        "    %{0}_comp{1} = arith.constant {1} : i64\n\t%{0}_x{1} = func.call @rumoca_solve_linear_component(%{0}_Ai64, %{0}_bi64, %{0}_nn, %{0}_comp{1}) : (i64, i64, i64, i64) -> f64\n"@;
    let store =
        "\t%{0}_oi{1} = arith.constant {2} : index\n\tmemref.store %{0}_x{1}, %out[%{0}_oi{1}] : memref<?xf64>\n"@;
    assert(whole =~= call + store);
    let args = seq![pfx, nat_text(i), nat_text(slot)];
    lemma_filled_parts(call, store, args);
    lemma_fewer_arguments(call, seq![pfx, nat_text(i)], args);
}

proof fn lemma_component_pieces(shape: LinSolveRenderShape, pfx: Seq<char>, size: int, n: int)
    requires
        0 <= n,
        pieces(n, linsolve_pieces(LinSolvePart::Component, shape, pfx, size)) is Ok,
    ensures
        pieces(n, linsolve_pieces(LinSolvePart::Component, shape, pfx, size))->Ok_0
            == component_stores(pfx, shape.output_offset as nat, n as nat),
    decreases n,
{
    if n > 0 {
        lemma_component_pieces(shape, pfx, size, n - 1);
        lemma_component_piece(pfx, (n - 1) as nat, (shape.output_offset + n - 1) as nat);
        let before = component_stores(pfx, shape.output_offset as nat, (n - 1) as nat);
        let call = component_call(pfx, (n - 1) as nat);
        let store = component_store(
            pfx,
            (n - 1) as nat,
            (shape.output_offset + n - 1) as nat,
        );
        assert(before + call + store =~= before + (call + store));
    }
}

proof fn lemma_element_pieces(
    part: LinSolvePart,
    shape: LinSolveRenderShape,
    pfx: Seq<char>,
    size: int,
    n: int,
)
    requires
        !(part is Component),
        0 <= n,
        0 <= size,
        pieces(n, linsolve_pieces(part, shape, pfx, size)) is Ok,
    ensures
        pieces(n, linsolve_pieces(part, shape, pfx, size))->Ok_0 == element_stores(
            pfx,
            if part is Matrix {
                "A"@
            } else {
                "b"@
            },
            if part is Matrix {
                shape.matrix_start as nat
            } else {
                shape.rhs_start as nat
            },
            size as nat,
            n as nat,
        ),
    decreases n,
{
    if n > 0 {
        lemma_element_pieces(part, shape, pfx, size, n - 1);
    }
}

/// The text of a linear solve of size `n` is its heading, the program that fills its
/// registers, and then: the `n * n` registers from that of the matrix on go into one
/// buffer and the `n` registers from that of the right-hand side on into another, each
/// into the element of its number; component `i` of the solution, for every `i` below
/// `n`, is computed from these and stored in the slot `i` places behind the offset. So
/// the slots from the offset on are filled, each once.
pub proof fn law_linear_solves_fill_their_slots(
    node: ValueView,
    node_id: ValueView,
    output_offset: ValueView,
    n: usize,
    matrix_start: usize,
    rhs_start: usize,
    id: usize,
    offset: usize,
)
    requires
        usize_field(node, "n"@) == Ok::<usize, Seq<char>>(n),
        usize_field(node, "matrix_start"@) == Ok::<usize, Seq<char>>(matrix_start),
        usize_field(node, "rhs_start"@) == Ok::<usize, Seq<char>>(rhs_start),
        usize_arg(node_id, "LinSolve node_id"@) == Ok::<usize, Seq<char>>(id),
        usize_arg(output_offset, "LinSolve output_offset"@) == Ok::<usize, Seq<char>>(offset),
    ensures
        linsolve_mlir(node, node_id, output_offset) matches Ok(text) ==> {
            let pfx = "ls"@ + nat_text(id as nat);
            let setup = program_text(plain_field(node, "setup_ops"@)->Ok_0, pfx);
            &&& plain_field(node, "setup_ops"@) is Ok
            &&& setup is Ok
            &&& text == filled(
                "    // LinSolve {0}×{0} → out[{1}..{2}]\n"@,
                seq![
                    nat_text(n as nat),
                    nat_text(offset as nat),
                    nat_text((offset + n) as nat),
                ],
            ) + setup->Ok_0 + (new_buffer(pfx, "A"@, (n * n) as nat) + element_stores(
                pfx,
                "A"@,
                matrix_start as nat,
                (n * n) as nat,
                (n * n) as nat,
            ) + (new_buffer(pfx, "b"@, n as nat) + element_stores(
                pfx,
                "b"@,
                rhs_start as nat,
                n as nat,
                n as nat,
            )) + (operand_names(pfx, n as nat) + component_stores(pfx, offset as nat, n as nat)))
        },
{
    let pfx = "ls"@ + nat_text(id as nat);
    let shape = LinSolveRenderShape { matrix_start, rhs_start, n, output_offset: offset };
    if linsolve_mlir(node, node_id, output_offset) is Ok {
        assert(0 <= n * n) by (nonlinear_arith)
            requires
                0 <= n,
        ;
        lemma_element_pieces(LinSolvePart::Matrix, shape, pfx, n * n, n * n);
        lemma_element_pieces(LinSolvePart::Rhs, shape, pfx, n as int, n as int);
        lemma_component_pieces(shape, pfx, n as int, n as int);
    }
}

/// In a row of component stores every component has its own store, in the slot that is
/// as far behind the offset as the component is behind the first.
pub proof fn law_every_component_is_stored(pfx: Seq<char>, offset: nat, n: nat, i: nat)
    requires
        i < n,
    ensures
        exists|front: Seq<char>, back: Seq<char>|
            component_stores(pfx, offset, n) == #[trigger] (front + (component_call(pfx, i)
                + component_store(pfx, i, offset + i)) + back),
    decreases n,
{
    let before = component_stores(pfx, offset, (n - 1) as nat);
    let last = component_call(pfx, (n - 1) as nat) + component_store(
        pfx,
        (n - 1) as nat,
        (offset + n - 1) as nat,
    );
    let middle = component_call(pfx, i) + component_store(pfx, i, offset + i);
    assert(component_stores(pfx, offset, n) =~= before + last);
    if i == n - 1 {
        assert(component_stores(pfx, offset, n) =~= before + middle + Seq::<char>::empty());
    } else {
        law_every_component_is_stored(pfx, offset, (n - 1) as nat, i);
        let (front, back) = choose|front: Seq<char>, back: Seq<char>|
            before == #[trigger] (front + middle + back);
        assert(component_stores(pfx, offset, n) =~= front + middle + (back + last));
    }
}

} // verus!
