//! Register programs as MLIR text.
use crate::codegen::fill::{fill, filled, lemma_pieces_fail, pieces, rendered};
use crate::codegen::shown::{show_value, shown};
use crate::codegen::value::{
    get_field, lemma_view_items, missing_field, render_err, required_usize_field, usize_field,
    value_views, KindView, Outcome, RenderError, TemplateValue, ValueKind, ValueView,
};
use crate::text::{nat_text, owned, push_wide_int, same_text, usize_to_text, views};
use vstd::prelude::*;

verus! {

/// The operation for a unary operator, where there is one.
pub open spec fn unary_operation(op: Seq<char>) -> Option<Seq<char>> {
    if op == "Neg"@ {
        Some("arith.negf"@)
    } else if op == "Abs"@ {
        Some("math.absf"@)
    } else if op == "Sqrt"@ {
        Some("math.sqrt"@)
    } else if op == "Sin"@ {
        Some("math.sin"@)
    } else if op == "Cos"@ {
        Some("math.cos"@)
    } else if op == "Tan"@ {
        Some("math.tan"@)
    } else if op == "Exp"@ {
        Some("math.exp"@)
    } else if op == "Log"@ {
        Some("math.log"@)
    } else if op == "Floor"@ {
        Some("math.floor"@)
    } else if op == "Ceil"@ {
        Some("math.ceil"@)
    } else if op == "Trunc"@ {
        Some("math.trunc"@)
    } else {
        None
    }
}

/// The operation for a unary operator, where there is one.
pub fn unary_to_mlir_op(op: &str) -> (r: Option<&'static str>)
    ensures
        match r {
            Some(s) => unary_operation(op@) == Some(s@),
            None => unary_operation(op@) is None,
        },
{
    if same_text(op, "Neg") {
        Some("arith.negf")
    } else if same_text(op, "Abs") {
        Some("math.absf")
    } else if same_text(op, "Sqrt") {
        Some("math.sqrt")
    } else if same_text(op, "Sin") {
        Some("math.sin")
    } else if same_text(op, "Cos") {
        Some("math.cos")
    } else if same_text(op, "Tan") {
        Some("math.tan")
    } else if same_text(op, "Exp") {
        Some("math.exp")
    } else if same_text(op, "Log") {
        Some("math.log")
    } else if same_text(op, "Floor") {
        Some("math.floor")
    } else if same_text(op, "Ceil") {
        Some("math.ceil")
    } else if same_text(op, "Trunc") {
        Some("math.trunc")
    } else {
        None
    }
}

/// The operation for a binary operator, where there is one.
pub open spec fn binary_operation(op: Seq<char>) -> Option<Seq<char>> {
    if op == "Add"@ {
        Some("arith.addf"@)
    } else if op == "Sub"@ {
        Some("arith.subf"@)
    } else if op == "Mul"@ {
        Some("arith.mulf"@)
    } else if op == "Div"@ {
        Some("arith.divf"@)
    } else if op == "Pow"@ {
        Some("math.powf"@)
    } else if op == "Min"@ {
        Some("arith.minimumf"@)
    } else if op == "Max"@ {
        Some("arith.maximumf"@)
    } else {
        None
    }
}

/// The operation for a binary operator, where there is one.
pub fn binary_to_mlir_op(op: &str) -> (r: Option<&'static str>)
    ensures
        match r {
            Some(s) => binary_operation(op@) == Some(s@),
            None => binary_operation(op@) is None,
        },
{
    if same_text(op, "Add") {
        Some("arith.addf")
    } else if same_text(op, "Sub") {
        Some("arith.subf")
    } else if same_text(op, "Mul") {
        Some("arith.mulf")
    } else if same_text(op, "Div") {
        Some("arith.divf")
    } else if same_text(op, "Pow") {
        Some("math.powf")
    } else if same_text(op, "Min") {
        Some("arith.minimumf")
    } else if same_text(op, "Max") {
        Some("arith.maximumf")
    } else {
        None
    }
}

/// The name of an enum value: the text itself, or the name of its only field.
pub open spec fn variant_name(v: ValueView) -> Outcome<Seq<char>> {
    match v.kind {
        KindView::Text(s) => Ok(s),
        KindView::Record => if v.names.len() == 1 {
            Ok(v.names[0])
        } else {
            Err("expected an enum variant"@)
        },
        _ => Err("expected an enum variant"@),
    }
}

/// The name of an enum value.
pub fn solve_variant_name(v: &TemplateValue) -> (r: Result<String, RenderError>)
    ensures
        rendered(r, variant_name(v@)),
{
    proof {
        lemma_view_items(*v);
    }
    match &v.kind {
        ValueKind::Text(s) => Ok(s.clone()),
        ValueKind::Record => {
            if v.names.len() == 1 {
                assert(v@.names[0] == v.names@[0]@);
                Ok(v.names[0].clone())
            } else {
                Err(render_err("expected an enum variant"))
            }
        },
        _ => Err(render_err("expected an enum variant")),
    }
}

/// The text of a constant: whole numbers get a fraction, the infinite ones the
/// given name.
pub open spec fn constant_text(v: ValueView, infinity: Seq<char>) -> Outcome<Seq<char>> {
    match v.field("value"@) {
        None => Err(missing_field("value"@)),
        Some(value) => match value.kind {
            KindView::Integer(i) => Ok(crate::text::int_text(i as int) + ".0"@),
            KindView::Number(s) => if s == "inf"@ {
                Ok(infinity)
            } else if s == "-inf"@ {
                Ok("-"@ + infinity)
            } else {
                Ok(s)
            },
            KindView::Text(s) => Ok(s),
            _ => Err("solve constant value must be a number"@),
        },
    }
}

/// The text of a constant.
pub fn solve_const_value_string(v: &TemplateValue, infinity: &str) -> (r: Result<
    String,
    RenderError,
>)
    ensures
        rendered(r, constant_text(v@, infinity@)),
{
    let value = match get_field(v, "value") {
        Ok(value) => value,
        Err(e) => {
            return Err(e);
        },
    };
    proof {
        lemma_view_items(*value);
    }
    match &value.kind {
        ValueKind::Integer(i) => {
            let mut s = String::new();
            push_wide_int(&mut s, *i);
            assert(s@ =~= crate::text::int_text(*i as int));
            s.append(".0");
            Ok(s)
        },
        ValueKind::Number(s) => {
            if same_text(s.as_str(), "inf") {
                Ok(owned(infinity))
            } else if same_text(s.as_str(), "-inf") {
                let mut text = owned("-");
                text.append(infinity);
                Ok(text)
            } else {
                Ok(s.clone())
            }
        },
        ValueKind::Text(s) => Ok(s.clone()),
        _ => Err(render_err("solve constant value must be a number")),
    }
}

/// The registers and numbers of an instruction, by field name.
pub open spec fn two_counts(v: ValueView, a: Seq<char>, b: Seq<char>) -> Outcome<(usize, usize)> {
    match usize_field(v, a) {
        Ok(x) => match usize_field(v, b) {
            Ok(y) => Ok((x, y)),
            Err(e) => Err(e),
        },
        Err(e) => Err(e),
    }
}

fn read_two(v: &TemplateValue, a: &str, b: &str) -> (r: Result<(usize, usize), RenderError>)
    ensures
        match r {
            Ok(p) => two_counts(v@, a@, b@) == Ok::<_, Seq<char>>(p),
            Err(e) => two_counts(v@, a@, b@) == Err::<(usize, usize), _>(e@),
        },
{
    match required_usize_field(v, a) {
        Ok(x) => match required_usize_field(v, b) {
            Ok(y) => Ok((x, y)),
            Err(e) => Err(e),
        },
        Err(e) => Err(e),
    }
}

/// A constant in a register.
pub open spec fn const_line(v: ValueView, pfx: Seq<char>) -> Outcome<Seq<char>> {
    match usize_field(v, "dst"@) {
        Ok(dst) => match constant_text(v, "INFINITY"@) {
            Ok(value) => Ok(
                filled(
                    "    %{0}_r{1} = arith.constant {2} : f64\n"@,
                    seq![pfx, nat_text(dst as nat), value],
                ),
            ),
            Err(e) => Err(e),
        },
        Err(e) => Err(e),
    }
}

fn emit_const(v: &TemplateValue, pfx: &str) -> (r: Result<String, RenderError>)
    ensures
        rendered(r, const_line(v@, pfx@)),
{
    let dst = match required_usize_field(v, "dst") {
        Ok(n) => n,
        Err(e) => {
            return Err(e);
        },
    };
    let value = match solve_const_value_string(v, "INFINITY") {
        Ok(s) => s,
        Err(e) => {
            return Err(e);
        },
    };
    let ghost text = value@;
    let args = vec![owned(pfx), usize_to_text(dst), value];
    assert(views(args@) =~= seq![pfx@, nat_text(dst as nat), text]);
    Ok(fill("    %{0}_r{1} = arith.constant {2} : f64\n", &args))
}

/// A value loaded from an array.
pub open spec fn load_line(v: ValueView, pfx: Seq<char>, tag: Seq<char>, array: Seq<char>) -> Outcome<
    Seq<char>,
> {
    match two_counts(v, "dst"@, "index"@) {
        Ok((dst, index)) => Ok(
            filled(
                "    %{0}_{3}{1} = arith.constant {2} : index\n\t%{0}_r{1} = memref.load %{4}[%{0}_{3}{1}] : memref<?xf64>\n"@,
                seq![pfx, nat_text(dst as nat), nat_text(index as nat), tag, array],
            ),
        ),
        Err(e) => Err(e),
    }
}

fn emit_load(v: &TemplateValue, pfx: &str, tag: &str, array: &str) -> (r: Result<
    String,
    RenderError,
>)
    ensures
        rendered(r, load_line(v@, pfx@, tag@, array@)),
{
    let (dst, index) = match read_two(v, "dst", "index") {
        Ok(p) => p,
        Err(e) => {
            return Err(e);
        },
    };
    let args = vec![
        owned(pfx),
        usize_to_text(dst),
        usize_to_text(index),
        owned(tag),
        owned(array),
    ];
    assert(views(args@) =~= seq![
        pfx@,
        nat_text(dst as nat),
        nat_text(index as nat),
        tag@,
        array@,
    ]);
    Ok(
        fill(
            "    %{0}_{3}{1} = arith.constant {2} : index\n\t%{0}_r{1} = memref.load %{4}[%{0}_{3}{1}] : memref<?xf64>\n",
            &args,
        ),
    )
}

/// The last position of a range that an index is clamped to.
pub open spec fn last_of(count: usize) -> nat {
    if count == 0 {
        0
    } else {
        (count - 1) as nat
    }
}

/// A parameter loaded by a computed index, rounded and clamped to its range.
pub open spec fn indexed_line(v: ValueView, pfx: Seq<char>) -> Outcome<Seq<char>> {
    match two_counts(v, "dst"@, "base"@) {
        Ok((dst, base)) => match two_counts(v, "count"@, "index"@) {
            Ok((count, index)) => Ok(
                filled(
                    "    %{0}_rnd{1} = math.round %{0}_r{2} : f64\n\t%{0}_zr{1} = arith.constant 0.0 : f64\n\t%{0}_lo{1} = arith.maximumf %{0}_rnd{1}, %{0}_zr{1} : f64\n\t%{0}_hi{1} = arith.constant {3}.0 : f64\n\t%{0}_cl{1} = arith.minimumf %{0}_lo{1}, %{0}_hi{1} : f64\n\t%{0}_si{1} = arith.fptosi %{0}_cl{1} : f64 to i64\n\t%{0}_ic{1} = arith.index_cast %{0}_si{1} : i64 to index\n\t%{0}_bs{1} = arith.constant {4} : index\n\t%{0}_ix{1} = arith.addi %{0}_ic{1}, %{0}_bs{1} : index\n\t%{0}_r{1} = memref.load %p[%{0}_ix{1}] : memref<?xf64>\n"@,
                    seq![
                        pfx,
                        nat_text(dst as nat),
                        nat_text(index as nat),
                        nat_text(last_of(count)),
                        nat_text(base as nat),
                    ],
                ),
            ),
            Err(e) => Err(e),
        },
        Err(e) => Err(e),
    }
}

fn emit_indexed(v: &TemplateValue, pfx: &str) -> (r: Result<String, RenderError>)
    ensures
        rendered(r, indexed_line(v@, pfx@)),
{
    let (dst, base) = match read_two(v, "dst", "base") {
        Ok(p) => p,
        Err(e) => {
            return Err(e);
        },
    };
    let (count, index) = match read_two(v, "count", "index") {
        Ok(p) => p,
        Err(e) => {
            return Err(e);
        },
    };
    let last: usize = if count == 0 {
        0
    } else {
        count - 1
    };
    let args = vec![
        owned(pfx),
        usize_to_text(dst),
        usize_to_text(index),
        usize_to_text(last),
        usize_to_text(base),
    ];
    assert(views(args@) =~= seq![
        pfx@,
        nat_text(dst as nat),
        nat_text(index as nat),
        nat_text(last_of(count)),
        nat_text(base as nat),
    ]);
    Ok(
        fill(
            "    %{0}_rnd{1} = math.round %{0}_r{2} : f64\n\t%{0}_zr{1} = arith.constant 0.0 : f64\n\t%{0}_lo{1} = arith.maximumf %{0}_rnd{1}, %{0}_zr{1} : f64\n\t%{0}_hi{1} = arith.constant {3}.0 : f64\n\t%{0}_cl{1} = arith.minimumf %{0}_lo{1}, %{0}_hi{1} : f64\n\t%{0}_si{1} = arith.fptosi %{0}_cl{1} : f64 to i64\n\t%{0}_ic{1} = arith.index_cast %{0}_si{1} : i64 to index\n\t%{0}_bs{1} = arith.constant {4} : index\n\t%{0}_ix{1} = arith.addi %{0}_ic{1}, %{0}_bs{1} : index\n\t%{0}_r{1} = memref.load %p[%{0}_ix{1}] : memref<?xf64>\n",
            &args,
        ),
    )
}

/// A copy of a register.
pub open spec fn move_line(v: ValueView, pfx: Seq<char>) -> Outcome<Seq<char>> {
    match two_counts(v, "dst"@, "src"@) {
        Ok((dst, src)) => Ok(
            filled(
                "    %{0}_mz{1} = arith.constant 0.0 : f64\n\t%{0}_r{1} = arith.addf %{0}_r{2}, %{0}_mz{1} : f64\n"@,
                seq![pfx, nat_text(dst as nat), nat_text(src as nat)],
            ),
        ),
        Err(e) => Err(e),
    }
}

fn emit_move(v: &TemplateValue, pfx: &str) -> (r: Result<String, RenderError>)
    ensures
        rendered(r, move_line(v@, pfx@)),
{
    let (dst, src) = match read_two(v, "dst", "src") {
        Ok(p) => p,
        Err(e) => {
            return Err(e);
        },
    };
    let args = vec![owned(pfx), usize_to_text(dst), usize_to_text(src)];
    assert(views(args@) =~= seq![pfx@, nat_text(dst as nat), nat_text(src as nat)]);
    Ok(
        fill(
            "    %{0}_mz{1} = arith.constant 0.0 : f64\n\t%{0}_r{1} = arith.addf %{0}_r{2}, %{0}_mz{1} : f64\n",
            &args,
        ),
    )
}

/// The operator of an instruction.
pub open spec fn operator_name(v: ValueView) -> Outcome<Seq<char>> {
    match v.field("op"@) {
        None => Err(missing_field("op"@)),
        Some(op) => variant_name(op),
    }
}

fn read_operator(v: &TemplateValue) -> (r: Result<String, RenderError>)
    ensures
        rendered(r, operator_name(v@)),
{
    match get_field(v, "op") {
        Ok(op) => solve_variant_name(op),
        Err(e) => Err(e),
    }
}

/// An operation on one register.
pub open spec fn unary_line(v: ValueView, pfx: Seq<char>) -> Outcome<Seq<char>> {
    match two_counts(v, "dst"@, "arg"@) {
        Ok((dst, arg)) => match operator_name(v) {
            Ok(name) => match unary_operation(name) {
                Some(operation) => Ok(
                    filled(
                        "    %{0}_r{1} = {3} %{0}_r{2} : f64\n"@,
                        seq![pfx, nat_text(dst as nat), nat_text(arg as nat), operation],
                    ),
                ),
                None => Err("unsupported unary in MatMul ops: "@ + name),
            },
            Err(e) => Err(e),
        },
        Err(e) => Err(e),
    }
}

fn emit_unary(v: &TemplateValue, pfx: &str) -> (r: Result<String, RenderError>)
    ensures
        rendered(r, unary_line(v@, pfx@)),
{
    let (dst, arg) = match read_two(v, "dst", "arg") {
        Ok(p) => p,
        Err(e) => {
            return Err(e);
        },
    };
    let name = match read_operator(v) {
        Ok(s) => s,
        Err(e) => {
            return Err(e);
        },
    };
    match unary_to_mlir_op(name.as_str()) {
        Some(operation) => {
            let args = vec![
                owned(pfx),
                usize_to_text(dst),
                usize_to_text(arg),
                owned(operation),
            ];
            assert(views(args@) =~= seq![
                pfx@,
                nat_text(dst as nat),
                nat_text(arg as nat),
                operation@,
            ]);
            Ok(fill("    %{0}_r{1} = {3} %{0}_r{2} : f64\n", &args))
        },
        None => {
            let mut detail = owned("unsupported unary in MatMul ops: ");
            detail.append(name.as_str());
            Err(RenderError { detail })
        },
    }
}

/// An operation on two registers.
pub open spec fn binary_line(v: ValueView, pfx: Seq<char>) -> Outcome<Seq<char>> {
    match two_counts(v, "dst"@, "lhs"@) {
        Ok((dst, lhs)) => match usize_field(v, "rhs"@) {
            Ok(rhs) => match operator_name(v) {
                Ok(name) => match binary_operation(name) {
                    Some(operation) => Ok(
                        filled(
                            "    %{0}_r{1} = {4} %{0}_r{2}, %{0}_r{3} : f64\n"@,
                            seq![
                                pfx,
                                nat_text(dst as nat),
                                nat_text(lhs as nat),
                                nat_text(rhs as nat),
                                operation,
                            ],
                        ),
                    ),
                    None => Err("unsupported binary in MatMul ops: "@ + name),
                },
                Err(e) => Err(e),
            },
            Err(e) => Err(e),
        },
        Err(e) => Err(e),
    }
}

fn emit_binary(v: &TemplateValue, pfx: &str) -> (r: Result<String, RenderError>)
    ensures
        rendered(r, binary_line(v@, pfx@)),
{
    let (dst, lhs) = match read_two(v, "dst", "lhs") {
        Ok(p) => p,
        Err(e) => {
            return Err(e);
        },
    };
    let rhs = match required_usize_field(v, "rhs") {
        Ok(n) => n,
        Err(e) => {
            return Err(e);
        },
    };
    let name = match read_operator(v) {
        Ok(s) => s,
        Err(e) => {
            return Err(e);
        },
    };
    match binary_to_mlir_op(name.as_str()) {
        Some(operation) => {
            let args = vec![
                owned(pfx),
                usize_to_text(dst),
                usize_to_text(lhs),
                usize_to_text(rhs),
                owned(operation),
            ];
            assert(views(args@) =~= seq![
                pfx@,
                nat_text(dst as nat),
                nat_text(lhs as nat),
                nat_text(rhs as nat),
                operation@,
            ]);
            Ok(fill("    %{0}_r{1} = {4} %{0}_r{2}, %{0}_r{3} : f64\n", &args))
        },
        None => {
            let mut detail = owned("unsupported binary in MatMul ops: ");
            detail.append(name.as_str());
            Err(RenderError { detail })
        },
    }
}

/// One instruction as text. Storing an output writes nothing: the registers hold
/// the operands of a matrix node.
pub open spec fn op_text(op: ValueView, pfx: Seq<char>) -> Outcome<Seq<char>> {
    if op.field("Const"@) is Some {
        const_line(op.field("Const"@)->0, pfx)
    } else if op.field("LoadY"@) is Some {
        load_line(op.field("LoadY"@)->0, pfx, "iy"@, "y"@)
    } else if op.field("LoadP"@) is Some {
        load_line(op.field("LoadP"@)->0, pfx, "ip"@, "p"@)
    } else if op.field("LoadIndexedP"@) is Some {
        indexed_line(op.field("LoadIndexedP"@)->0, pfx)
    } else if op.field("Move"@) is Some {
        move_line(op.field("Move"@)->0, pfx)
    } else if op.field("Unary"@) is Some {
        unary_line(op.field("Unary"@)->0, pfx)
    } else if op.field("Binary"@) is Some {
        binary_line(op.field("Binary"@)->0, pfx)
    } else if op.field("StoreOutput"@) is Some {
        Ok(""@)
    } else {
        Err("unsupported LinearOp in MatMul lhs/rhs: "@ + shown(op, false))
    }
}

/// One instruction as text.
pub fn emit_one_linear_op_mlir(op: &TemplateValue, pfx: &str) -> (r: Result<String, RenderError>)
    ensures
        rendered(r, op_text(op@, pfx@)),
{
    if let Ok(v) = get_field(op, "Const") {
        return emit_const(v, pfx);
    }
    if let Ok(v) = get_field(op, "LoadY") {
        return emit_load(v, pfx, "iy", "y");
    }
    if let Ok(v) = get_field(op, "LoadP") {
        return emit_load(v, pfx, "ip", "p");
    }
    if let Ok(v) = get_field(op, "LoadIndexedP") {
        return emit_indexed(v, pfx);
    }
    if let Ok(v) = get_field(op, "Move") {
        return emit_move(v, pfx);
    }
    if let Ok(v) = get_field(op, "Unary") {
        return emit_unary(v, pfx);
    }
    if let Ok(v) = get_field(op, "Binary") {
        return emit_binary(v, pfx);
    }
    if let Ok(_) = get_field(op, "StoreOutput") {
        return Ok(owned(""));
    }
    let mut detail = owned("unsupported LinearOp in MatMul lhs/rhs: ");
    detail.append(show_value(op, false).as_str());
    Err(RenderError { detail })
}

/// The instructions of a list, one by one.
pub open spec fn op_texts(items: Seq<ValueView>, pfx: Seq<char>) -> spec_fn(int) -> Outcome<
    Seq<char>,
> {
    |i: int| op_text(items[i], pfx)
}

/// A whole register program as text.
pub open spec fn program_text(ops: ValueView, pfx: Seq<char>) -> Outcome<Seq<char>> {
    if ops.kind is List {
        pieces(ops.items.len() as int, op_texts(ops.items, pfx))
    } else {
        Err("MatMul lhs_ops/rhs_ops must be iterable"@)
    }
}

/// A whole register program as text.
pub fn emit_linear_ops_mlir(ops: &TemplateValue, pfx: &str) -> (r: Result<String, RenderError>)
    ensures
        rendered(r, program_text(ops@, pfx@)),
{
    proof {
        lemma_view_items(*ops);
    }
    let is_list: bool = match &ops.kind {
        ValueKind::List => true,
        _ => false,
    };
    if !is_list {
        return Err(render_err("MatMul lhs_ops/rhs_ops must be iterable"));
    }
    let ghost items = ops@.items;
    let ghost piece = op_texts(items, pfx@);
    let mut out = String::new();
    let mut i: usize = 0;
    assert(out@ =~= Seq::<char>::empty());
    while i < ops.items.len()
        invariant
            i <= ops.items@.len(),
            items == value_views(ops.items@),
            piece == op_texts(items, pfx@),
            program_text(ops@, pfx@) == pieces(items.len() as int, piece),
            pieces(i as int, piece) == Ok::<_, Seq<char>>(out@),
        decreases ops.items.len() - i,
    {
        assert(items[i as int] == ops.items@[i as int]@);
        match emit_one_linear_op_mlir(&ops.items[i], pfx) {
            Ok(text) => {
                out.append(text.as_str());
            },
            Err(e) => {
                proof {
                    lemma_pieces_fail(i + 1, items.len() as int, piece);
                }
                return Err(e);
            },
        }
        i = i + 1;
    }
    Ok(out)
}

} // verus!
