//! What instructions become as MLIR text.
use crate::codegen::fill::{filled, lemma_pieces_fail, pieces};
use crate::codegen::matmul_laws::{in_turn, lemma_pieces_in_turn};
use crate::codegen::mlir_ops::{
    binary_operation, op_text, op_texts, program_text, unary_operation,
};
use crate::codegen::value::{usize_field, KindView, ValueView};
use crate::text::{int_text, nat_text};
use vstd::prelude::*;

verus! {

/// Whether a value is an instruction of a kind with given fields.
pub open spec fn is_instruction(op: ValueView, kind: Seq<char>, fields: ValueView) -> bool {
    &&& op.kind is Record
    &&& op.names == seq![kind]
    &&& op.items == seq![fields]
}

/// Whether an instruction has a register or a number under a name.
pub open spec fn has_count(fields: ValueView, name: Seq<char>, count: usize) -> bool {
    usize_field(fields, name) == Ok::<usize, Seq<char>>(count)
}

proof fn lemma_only_field(op: ValueView, kind: Seq<char>, fields: ValueView, name: Seq<char>)
    requires
        is_instruction(op, kind, fields),
    ensures
        op.field(name) == if name == kind {
            Some(fields)
        } else {
            None
        },
{
    reveal_with_fuel(ValueView::field_at, 2);
    assert(op.field_count() == 1);
    assert(op.names[0] == kind);
    assert(op.items[0] == fields);
}

proof fn lemma_kinds(op: ValueView, kind: Seq<char>, fields: ValueView)
    requires
        is_instruction(op, kind, fields),
    ensures
        op.field("Const"@) is Some <==> kind == "Const"@,
        op.field("LoadY"@) is Some <==> kind == "LoadY"@,
        op.field("LoadP"@) is Some <==> kind == "LoadP"@,
        op.field("LoadIndexedP"@) is Some <==> kind == "LoadIndexedP"@,
        op.field("Move"@) is Some <==> kind == "Move"@,
        op.field("Unary"@) is Some <==> kind == "Unary"@,
        op.field("Binary"@) is Some <==> kind == "Binary"@,
        op.field("StoreOutput"@) is Some <==> kind == "StoreOutput"@,
        op.field(kind) == Some(fields),
        "LoadY"@ != "LoadP"@,
        "Const"@ != "LoadY"@,
        "Const"@ != "LoadP"@,
        "Unary"@ != "Const"@,
        "Unary"@ != "LoadY"@,
        "Unary"@ != "LoadP"@,
{
    lemma_only_field(op, kind, fields, "Const"@);
    lemma_only_field(op, kind, fields, "LoadY"@);
    lemma_only_field(op, kind, fields, "LoadP"@);
    lemma_only_field(op, kind, fields, "LoadIndexedP"@);
    lemma_only_field(op, kind, fields, "Move"@);
    lemma_only_field(op, kind, fields, "Unary"@);
    lemma_only_field(op, kind, fields, "Binary"@);
    lemma_only_field(op, kind, fields, "StoreOutput"@);
    lemma_only_field(op, kind, fields, kind);
    reveal_strlit("Const");
    reveal_strlit("LoadY");
    reveal_strlit("LoadP");
    reveal_strlit("Unary");
    assert("LoadY"@[4] != "LoadP"@[4]);
    assert("Const"@[0] != "LoadY"@[0]);
    assert("Const"@[0] != "LoadP"@[0]);
    assert("Unary"@[0] != "Const"@[0]);
    assert("Unary"@[0] != "LoadY"@[0]);
    assert("Unary"@[0] != "LoadP"@[0]);
}

proof fn lemma_lengths()
    ensures
        "Const"@.len() == 5,
        "LoadY"@.len() == 5,
        "LoadP"@.len() == 5,
        "LoadIndexedP"@.len() == 12,
        "Move"@.len() == 4,
        "Unary"@.len() == 5,
        "Binary"@.len() == 6,
        "StoreOutput"@.len() == 11,
{
    reveal_strlit("Const");
    reveal_strlit("LoadY");
    reveal_strlit("LoadP");
    reveal_strlit("LoadIndexedP");
    reveal_strlit("Move");
    reveal_strlit("Unary");
    reveal_strlit("Binary");
    reveal_strlit("StoreOutput");
}

/// The line that a register gets from an operation on registers.
pub open spec fn operation_line(
    pfx: Seq<char>,
    dst: usize,
    operation: Seq<char>,
    operands: Seq<usize>,
) -> Seq<char> {
    if operands.len() == 1 {
        filled(
            "    %{0}_r{1} = {3} %{0}_r{2} : f64\n"@,
            seq![pfx, nat_text(dst as nat), nat_text(operands[0] as nat), operation],
        )
    } else {
        filled(
            "    %{0}_r{1} = {4} %{0}_r{2}, %{0}_r{3} : f64\n"@,
            seq![
                pfx,
                nat_text(dst as nat),
                nat_text(operands[0] as nat),
                nat_text(operands[1] as nat),
                operation,
            ],
        )
    }
}

/// The lines by which a register gets the element of an index of an array.
pub open spec fn element_lines(
    pfx: Seq<char>,
    dst: usize,
    index: usize,
    tag: Seq<char>,
    array: Seq<char>,
) -> Seq<char> {
    filled(
        "    %{0}_{3}{1} = arith.constant {2} : index\n\t%{0}_r{1} = memref.load %{4}[%{0}_{3}{1}] : memref<?xf64>\n"@,
        seq![pfx, nat_text(dst as nat), nat_text(index as nat), tag, array],
    )
}

/// A load gives its register the element of its index, a state of the states and a
/// parameter of the parameters; a move gives it what another holds; storing an output
/// writes nothing.
pub proof fn law_loads_and_moves_are_written(
    op: ValueView,
    fields: ValueView,
    pfx: Seq<char>,
    dst: usize,
    from: usize,
)
    requires
        has_count(fields, "dst"@, dst),
    ensures
        is_instruction(op, "LoadY"@, fields) && has_count(fields, "index"@, from) ==> op_text(
            op,
            pfx,
        ) == Ok::<_, Seq<char>>(element_lines(pfx, dst, from, "iy"@, "y"@)),
        is_instruction(op, "LoadP"@, fields) && has_count(fields, "index"@, from) ==> op_text(
            op,
            pfx,
        ) == Ok::<_, Seq<char>>(element_lines(pfx, dst, from, "ip"@, "p"@)),
        is_instruction(op, "Move"@, fields) && has_count(fields, "src"@, from) ==> op_text(op, pfx)
            == Ok::<_, Seq<char>>(
            filled(
                "    %{0}_mz{1} = arith.constant 0.0 : f64\n\t%{0}_r{1} = arith.addf %{0}_r{2}, %{0}_mz{1} : f64\n"@,
                seq![pfx, nat_text(dst as nat), nat_text(from as nat)],
            ),
        ),
        is_instruction(op, "StoreOutput"@, fields) ==> op_text(op, pfx) == Ok::<_, Seq<char>>(
            ""@,
        ),
{
    lemma_lengths();
    if is_instruction(op, "LoadY"@, fields) {
        lemma_kinds(op, "LoadY"@, fields);
    }
    if is_instruction(op, "LoadP"@, fields) {
        lemma_kinds(op, "LoadP"@, fields);
    }
    if is_instruction(op, "Move"@, fields) {
        lemma_kinds(op, "Move"@, fields);
    }
    if is_instruction(op, "StoreOutput"@, fields) {
        lemma_kinds(op, "StoreOutput"@, fields);
    }
}

/// A constant is written with its digits, a whole number with a fraction of nothing.
pub proof fn law_constants_are_written(
    op: ValueView,
    fields: ValueView,
    pfx: Seq<char>,
    dst: usize,
    value: ValueView,
)
    requires
        is_instruction(op, "Const"@, fields),
        has_count(fields, "dst"@, dst),
        fields.field("value"@) == Some(value),
    ensures
        value.kind matches KindView::Integer(i) ==> op_text(op, pfx) == Ok::<_, Seq<char>>(
            filled(
                "    %{0}_r{1} = arith.constant {2} : f64\n"@,
                seq![pfx, nat_text(dst as nat), int_text(i as int) + ".0"@],
            ),
        ),
        value.kind matches KindView::Number(s) ==> op_text(op, pfx) == Ok::<_, Seq<char>>(
            filled(
                "    %{0}_r{1} = arith.constant {2} : f64\n"@,
                seq![
                    pfx,
                    nat_text(dst as nat),
                    if s == "inf"@ {
                        "INFINITY"@
                    } else if s == "-inf"@ {
                        "-"@ + "INFINITY"@
                    } else {
                        s
                    },
                ],
            ),
        ),
{
    lemma_lengths();
    lemma_kinds(op, "Const"@, fields);
}

/// A parameter whose index is computed is loaded from as far behind the base as the index
/// says, rounded, but not before the first and not behind the last of the range.
pub proof fn law_indexed_loads_are_written(
    op: ValueView,
    fields: ValueView,
    pfx: Seq<char>,
    dst: usize,
    base: usize,
    count: usize,
    index: usize,
)
    requires
        is_instruction(op, "LoadIndexedP"@, fields),
        has_count(fields, "dst"@, dst),
        has_count(fields, "base"@, base),
        has_count(fields, "count"@, count),
        has_count(fields, "index"@, index),
    ensures
        op_text(op, pfx) == Ok::<_, Seq<char>>(
            filled(
                "    %{0}_rnd{1} = math.round %{0}_r{2} : f64\n\t%{0}_zr{1} = arith.constant 0.0 : f64\n\t%{0}_lo{1} = arith.maximumf %{0}_rnd{1}, %{0}_zr{1} : f64\n\t%{0}_hi{1} = arith.constant {3}.0 : f64\n\t%{0}_cl{1} = arith.minimumf %{0}_lo{1}, %{0}_hi{1} : f64\n\t%{0}_si{1} = arith.fptosi %{0}_cl{1} : f64 to i64\n\t%{0}_ic{1} = arith.index_cast %{0}_si{1} : i64 to index\n\t%{0}_bs{1} = arith.constant {4} : index\n\t%{0}_ix{1} = arith.addi %{0}_ic{1}, %{0}_bs{1} : index\n\t%{0}_r{1} = memref.load %p[%{0}_ix{1}] : memref<?xf64>\n"@,
                seq![
                    pfx,
                    nat_text(dst as nat),
                    nat_text(index as nat),
                    nat_text(
                        if count > 0 {
                            (count - 1) as nat
                        } else {
                            0
                        },
                    ),
                    nat_text(base as nat),
                ],
            ),
        ),
{
    lemma_lengths();
    lemma_kinds(op, "LoadIndexedP"@, fields);
}

/// Whether an operation of MLIR is what the name of an operator of one operand says.
pub open spec fn is_unary(name: Seq<char>, operation: Seq<char>) -> bool {
    ||| name == "Neg"@ && operation == "arith.negf"@
    ||| name == "Abs"@ && operation == "math.absf"@
    ||| name == "Sqrt"@ && operation == "math.sqrt"@
    ||| name == "Sin"@ && operation == "math.sin"@
    ||| name == "Cos"@ && operation == "math.cos"@
    ||| name == "Tan"@ && operation == "math.tan"@
    ||| name == "Exp"@ && operation == "math.exp"@
    ||| name == "Log"@ && operation == "math.log"@
    ||| name == "Floor"@ && operation == "math.floor"@
    ||| name == "Ceil"@ && operation == "math.ceil"@
    ||| name == "Trunc"@ && operation == "math.trunc"@
}

/// Whether an operation of MLIR is what the name of an operator of two operands says.
pub open spec fn is_binary(name: Seq<char>, operation: Seq<char>) -> bool {
    ||| name == "Add"@ && operation == "arith.addf"@
    ||| name == "Sub"@ && operation == "arith.subf"@
    ||| name == "Mul"@ && operation == "arith.mulf"@
    ||| name == "Div"@ && operation == "arith.divf"@
    ||| name == "Pow"@ && operation == "math.powf"@
    ||| name == "Min"@ && operation == "arith.minimumf"@
    ||| name == "Max"@ && operation == "arith.maximumf"@
}

/// An operation is what its name says, on its operands in their order; with another name
/// it is refused.
pub proof fn law_operations_are_written(
    op: ValueView,
    fields: ValueView,
    pfx: Seq<char>,
    name: ValueView,
    text: Seq<char>,
    dst: usize,
    a: usize,
    b: usize,
)
    requires
        has_count(fields, "dst"@, dst),
        fields.field("op"@) == Some(name),
        name.kind == KindView::Text(text),
    ensures
        is_instruction(op, "Unary"@, fields) && has_count(fields, "arg"@, a) ==> match op_text(
            op,
            pfx,
        ) {
            Ok(line) => exists|operation: Seq<char>| #[trigger]
                is_unary(text, operation) && line == operation_line(pfx, dst, operation, seq![a]),
            Err(_) => forall|operation: Seq<char>| !is_unary(text, operation),
        },
        is_instruction(op, "Binary"@, fields) && has_count(fields, "lhs"@, a) && has_count(
            fields,
            "rhs"@,
            b,
        ) ==> match op_text(op, pfx) {
            Ok(line) => exists|operation: Seq<char>| #[trigger]
                is_binary(text, operation) && line == operation_line(
                    pfx,
                    dst,
                    operation,
                    seq![a, b],
                ),
            Err(_) => forall|operation: Seq<char>| !is_binary(text, operation),
        },
{
    lemma_lengths();
    if is_instruction(op, "Unary"@, fields) {
        lemma_kinds(op, "Unary"@, fields);
        if let Some(operation) = unary_operation(text) {
            assert(is_unary(text, operation));
        }
    }
    if is_instruction(op, "Binary"@, fields) {
        lemma_kinds(op, "Binary"@, fields);
        if let Some(operation) = binary_operation(text) {
            assert(is_binary(text, operation));
        }
    }
}

/// A program is written instruction by instruction.
pub proof fn law_programs_are_written_in_order(ops: ValueView, pfx: Seq<char>)
    ensures
        program_text(ops, pfx) matches Ok(text) ==> {
            &&& forall|i: int|
                0 <= i < ops.items.len() ==> op_text(#[trigger] ops.items[i], pfx) is Ok
            &&& text == in_turn(
                Seq::new(ops.items.len(), |i: int| op_text(ops.items[i], pfx)->Ok_0),
            )
        },
{
    if program_text(ops, pfx) is Ok {
        let piece = op_texts(ops.items, pfx);
        let lines = Seq::new(ops.items.len(), |i: int| op_text(ops.items[i], pfx)->Ok_0);
        assert forall|i: int| 0 <= i < ops.items.len() implies op_text(
            #[trigger] ops.items[i],
            pfx,
        ) is Ok by {
            if op_text(ops.items[i], pfx) is Err {
                assert(piece(i) is Err);
                assert(pieces(i + 1, piece) is Err);
                lemma_pieces_fail(i + 1, ops.items.len() as int, piece);
            }
        }
        lemma_pieces_in_turn(ops.items.len() as int, piece, lines);
    }
}

} // verus!
