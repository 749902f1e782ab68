//! What expressions mean, before an event and after it.
//!
//! A [`World`] says what variables are and what their left limits are. An expression has
//! a value in it, and a left limit: the value it had just before. The left limit of a
//! left limit is one step further back, so that a value is asked for at a level: as it
//! is at level zero, as its left limit is at level one, and so on.
use crate::dae::const_eval::{const_bool, const_value, static_choice, ConstValue};
use crate::dae::pre_targets::{all_fixed, fixed_text, is_pre_name, index_subscripts};
use crate::dae::scalar_name::encoded_parts;
use crate::expr::tree::{
    BuiltinFunction, ExprView, LiteralView, NodeView, OpBinary, OpUnary,
};
use vstd::prelude::*;

verus! {

/// A value of an expression.
pub enum Value {
    Integer(int),
    Truth(bool),
    /// Any other value, by a number of its own.
    Other(int),
}

/// What variables are, and what is computed from values.
pub struct World {
    /// The value of a variable or of an element of it, by name and subscripts.
    pub now: spec_fn(Seq<char>, Seq<Value>) -> Value,
    /// Its left limit.
    pub left: spec_fn(Seq<char>, Seq<Value>) -> Value,
    /// Whether a name is that of something which has a left limit of its own.
    pub moves: spec_fn(Seq<char>) -> bool,
    /// What calls and other operations give.
    pub other: spec_fn(NodeView, Seq<Value>) -> Value,
}

impl World {
    pub open spec fn value(self, name: Seq<char>, subs: Seq<Value>) -> Value {
        (self.now)(name, subs)
    }

    pub open spec fn limit(self, name: Seq<char>, subs: Seq<Value>) -> Value {
        (self.left)(name, subs)
    }

    pub open spec fn can_move(self, name: Seq<char>) -> bool {
        (self.moves)(name)
    }

    pub open spec fn compute(self, node: NodeView, values: Seq<Value>) -> Value {
        (self.other)(node, values)
    }
}

/// Whether a value is true.
pub open spec fn is_true(v: Value) -> bool {
    v == Value::Truth(true)
}

/// The value of a unary operation.
pub open spec fn unary_meaning(w: World, op: OpUnary, a: Value) -> Value {
    match (op, a) {
        (OpUnary::Not, _) => Value::Truth(!is_true(a)),
        (OpUnary::Minus, Value::Integer(x)) => Value::Integer(-x),
        (OpUnary::Plus, Value::Integer(x)) => Value::Integer(x),
        _ => w.compute(NodeView::Unary(op), seq![a]),
    }
}

/// The value of a binary operation.
pub open spec fn binary_meaning(w: World, op: OpBinary, a: Value, b: Value) -> Value {
    match op {
        OpBinary::And => Value::Truth(is_true(a) && is_true(b)),
        OpBinary::Or => Value::Truth(is_true(a) || is_true(b)),
        OpBinary::Eq => Value::Truth(a == b),
        OpBinary::Neq => Value::Truth(a != b),
        _ => match (a, b) {
            (Value::Integer(x), Value::Integer(y)) => match op {
                OpBinary::Add => Value::Integer(x + y),
                OpBinary::Sub => Value::Integer(x - y),
                OpBinary::Mul => Value::Integer(x * y),
                OpBinary::Lt => Value::Truth(x < y),
                OpBinary::Le => Value::Truth(x <= y),
                OpBinary::Gt => Value::Truth(x > y),
                OpBinary::Ge => Value::Truth(x >= y),
                _ => w.compute(NodeView::Binary(op), seq![a, b]),
            },
            _ => w.compute(NodeView::Binary(op), seq![a, b]),
        },
    }
}

/// Whether a node calls a function, built in or by its name.
pub open spec fn calls_function(
    node: NodeView,
    function: BuiltinFunction,
    name: Seq<char>,
) -> bool {
    node == NodeView::BuiltinCall(function) || calls_by_name(node, name)
}

/// Whether a node calls a function by its name.
pub open spec fn calls_by_name(node: NodeView, name: Seq<char>) -> bool {
    match node {
        NodeView::FunctionCall { name: called, .. } => called == name,
        _ => false,
    }
}

/// The call by which the runtime knows a clock tick.
pub open spec fn tick_call() -> NodeView {
    NodeView::FunctionCall { name: "__rumoca_sample"@, is_constructor: false }
}

/// The name of what a reference denotes, and its subscripts: a variable, an element of it
/// or a field. Fixed subscripts in front of a field are a part of the name. A parameter
/// that holds a left limit is denoted by no such name.
pub open spec fn denoted(e: ExprView) -> Option<(Seq<char>, Seq<ExprView>)>
    decreases e,
{
    match e.node {
        NodeView::VarRef { name } => if is_pre_name(name) {
            None
        } else {
            Some(
                (
                    encoded_parts(name).0,
                    index_subscripts(encoded_parts(name).1, e.span) + e.args,
                ),
            )
        },
        NodeView::Index => if e.args.len() == 0 {
            None
        } else {
            match denoted(e.args[0]) {
                Some((name, subs)) => Some((name, subs + e.args.skip(1))),
                None => None,
            }
        },
        NodeView::FieldAccess { field } => if e.args.len() == 0 {
            None
        } else {
            match denoted(e.args[0]) {
                Some((name, subs)) => if subs.len() == 0 {
                    Some((name + "."@ + field, Seq::empty()))
                } else if all_fixed(subs) {
                    Some((name + "["@ + fixed_text(subs) + "]."@ + field, Seq::empty()))
                } else {
                    None
                },
                None => None,
            }
        },
        _ => None,
    }
}

/// Integers as values.
pub open spec fn integers(list: Seq<i64>) -> Seq<Value> {
    Seq::new(list.len(), |i: int| Value::Integer(list[i] as int))
}

/// At which level operand `i` is read where its node is: at the same, but for the ranges
/// of a comprehension, which are read as they are.
pub open spec fn operand_level(e: ExprView, i: int, k: nat) -> nat {
    match e.node {
        NodeView::ArrayComprehension { has_filter, .. } => if i >= 2 || (i == 1 && !has_filter) {
            0
        } else {
            k
        },
        _ => k,
    }
}

/// The value of an expression at a level.
///
/// The left limit of what moves is that of its name, at the subscripts that it has. A
/// comprehension is read at one value of its indices.
pub open spec fn meaning(e: ExprView, w: World, k: nat) -> Value
    decreases e, e.args.len() + 3,
{
    let n = e.args.len();
    match e.node {
        NodeView::VarRef { name } => if is_pre_name(name) {
            w.limit(name.skip("__pre__."@.len() as int), operands(e, w, k, n as int))
        } else {
            let (stem, subs) = encoded_parts(name);
            if k > 0 && w.can_move(stem) {
                w.limit(stem, integers(subs) + operands(e, w, (k - 1) as nat, n as int))
            } else {
                w.value(stem, integers(subs) + operands(e, w, k, n as int))
            }
        },
        NodeView::Index => if k > 0 && denoted(e) is Some && w.can_move((denoted(e)->0).0) {
            w.limit((denoted(e)->0).0, sub_values(e, w, (k - 1) as nat))
        } else {
            w.compute(e.node, operands(e, w, k, n as int))
        },
        NodeView::FieldAccess { .. } => if k > 0 && denoted(e) is Some && w.can_move(
            (denoted(e)->0).0,
        ) {
            w.limit((denoted(e)->0).0, sub_values(e, w, (k - 1) as nat))
        } else {
            w.compute(e.node, operands(e, w, k, n as int))
        },
        NodeView::Literal(LiteralView::Integer(v)) => Value::Integer(v as int),
        NodeView::Literal(LiteralView::Boolean(b)) => Value::Truth(b),
        NodeView::SubscriptIndex(v) => Value::Integer(v as int),
        NodeView::SubscriptExpr => if n > 0 {
            meaning(e.args[0], w, k)
        } else {
            w.compute(e.node, Seq::empty())
        },
        NodeView::If => choice(e, w, k, 0),
        NodeView::Unary(op) => if n == 1 {
            unary_meaning(w, op, meaning(e.args[0], w, k))
        } else {
            w.compute(e.node, operands(e, w, k, n as int))
        },
        NodeView::Binary(op) => if n == 2 {
            binary_meaning(w, op, meaning(e.args[0], w, k), meaning(e.args[1], w, k))
        } else {
            w.compute(e.node, operands(e, w, k, n as int))
        },
        _ => if calls_function(e.node, BuiltinFunction::Pre, "pre"@) {
            if n > 0 {
                meaning(e.args[0], w, k + 1)
            } else {
                w.compute(e.node, Seq::empty())
            }
        } else if calls_function(e.node, BuiltinFunction::Edge, "edge"@) {
            Value::Truth(
                n > 0 && is_true(meaning(e.args[0], w, k)) && !is_true(
                    meaning(e.args[0], w, k + 1),
                ),
            )
        } else if calls_function(e.node, BuiltinFunction::Change, "change"@) {
            Value::Truth(n > 0 && meaning(e.args[0], w, k) != meaning(e.args[0], w, k + 1))
        } else if calls_function(e.node, BuiltinFunction::Sample, "sample"@) {
            if n == 1 {
                meaning(e.args[0], w, k + 1)
            } else if k > 0 && e.node is BuiltinCall {
                Value::Truth(false)
            } else {
                w.compute(tick_call(), operands(e, w, k, n as int))
            }
        } else if calls_by_name(e.node, "previous"@) {
            if n > 0 {
                meaning(e.args[0], w, k + 1)
            } else {
                w.compute(e.node, Seq::empty())
            }
        } else {
            w.compute(e.node, operands(e, w, k, n as int))
        },
    }
}

/// The values of the first `n` operands.
pub open spec fn operands(e: ExprView, w: World, k: nat, n: int) -> Seq<Value>
    decreases e, n,
{
    if n <= 0 || n > e.args.len() {
        Seq::empty()
    } else {
        operands(e, w, k, n - 1).push(meaning(e.args[n - 1], w, operand_level(e, n - 1, k)))
    }
}

/// The values of the subscripts of a reference.
pub open spec fn sub_values(e: ExprView, w: World, k: nat) -> Seq<Value>
    decreases e, e.args.len() + 2,
{
    match e.node {
        NodeView::VarRef { name } => integers(encoded_parts(name).1) + operands(
            e,
            w,
            k,
            e.args.len() as int,
        ),
        NodeView::Index => if e.args.len() == 0 {
            Seq::empty()
        } else {
            sub_values(e.args[0], w, k) + operands(e, w, k, e.args.len() as int).skip(1)
        },
        _ => Seq::empty(),
    }
}

/// The value of a conditional, from the condition at `c` on: that of the branch of the
/// first condition that is true.
pub open spec fn choice(e: ExprView, w: World, k: nat, c: int) -> Value
    decreases
        e,
        if 0 <= c < e.args.len() {
            e.args.len() - c
        } else {
            0
        },
{
    let n = e.args.len();
    if n == 0 || c < 0 {
        w.compute(e.node, Seq::empty())
    } else if c + 1 >= n {
        meaning(e.args[n - 1], w, k)
    } else if is_true(meaning(e.args[c], w, k)) {
        meaning(e.args[c + 1], w, k)
    } else {
        choice(e, w, k, c + 2)
    }
}

/// The operands have the values of their expressions.
pub proof fn lemma_operands(e: ExprView, w: World, k: nat, n: int)
    requires
        0 <= n <= e.args.len(),
    ensures
        operands(e, w, k, n).len() == n,
        forall|i: int|
            0 <= i < n ==> #[trigger] operands(e, w, k, n)[i] == meaning(
                e.args[i],
                w,
                operand_level(e, i, k),
            ),
    decreases n,
{
    if n > 0 {
        lemma_operands(e, w, k, n - 1);
    }
}

/// The values of a list of expressions.
pub open spec fn values(list: Seq<ExprView>, w: World, k: nat) -> Seq<Value> {
    Seq::new(list.len(), |i: int| meaning(list[i], w, k))
}

/// The subscripts of what a reference denotes have the values of its subscripts.
pub proof fn lemma_sub_values(e: ExprView, w: World, k: nat)
    requires
        denoted(e) is Some,
    ensures
        sub_values(e, w, k) == values((denoted(e)->0).1, w, k),
    decreases e,
{
    let n = e.args.len() as int;
    lemma_operands(e, w, k, n);
    let subs = (denoted(e)->0).1;
    match e.node {
        NodeView::VarRef { name } => {
            let fixed = encoded_parts(name).1;
            assert forall|i: int| 0 <= i < subs.len() implies #[trigger] values(subs, w, k)[i]
                == sub_values(e, w, k)[i] by {
                if i < fixed.len() {
                    assert(subs[i] == index_subscripts(fixed, e.span)[i]);
                } else {
                    assert(subs[i] == e.args[i - fixed.len()]);
                }
            }
            assert(sub_values(e, w, k) =~= values(subs, w, k));
        },
        NodeView::Index => {
            lemma_sub_values(e.args[0], w, k);
            let front = (denoted(e.args[0])->0).1;
            assert forall|i: int| 0 <= i < subs.len() implies #[trigger] values(subs, w, k)[i]
                == sub_values(e, w, k)[i] by {
                if i < front.len() {
                    assert(subs[i] == front[i]);
                } else {
                    assert(subs[i] == e.args[1 + i - front.len()]);
                }
            }
            assert(sub_values(e, w, k) =~= values(subs, w, k));
        },
        _ => {
            assert(sub_values(e, w, k) =~= values(subs, w, k));
        },
    }
}

/// A constant as a value.
pub open spec fn constant(v: ConstValue) -> Value {
    match v {
        ConstValue::Integer(i) => Value::Integer(i as int),
        ConstValue::Boolean(b) => Value::Truth(b),
    }
}

/// A constant expression has the value that it is evaluated to, in every world and at
/// every level.
pub proof fn law_constants_have_their_value(e: ExprView, w: World, k: nat)
    ensures
        const_value(e) matches Some(v) ==> meaning(e, w, k) == constant(v),
    decreases e,
{
    if const_value(e) is Some {
        match e.node {
            NodeView::Unary(op) => {
                law_constants_have_their_value(e.args[0], w, k);
            },
            NodeView::Binary(op) => {
                law_constants_have_their_value(e.args[0], w, k);
                law_constants_have_their_value(e.args[1], w, k);
            },
            _ => {},
        }
    }
}

/// A conditional that comes down to one of its operands has the value of that operand.
pub proof fn law_static_choice_keeps_meaning(e: ExprView, w: World, k: nat, c: int)
    requires
        0 <= c,
        static_choice(e.args, c) is Some,
    ensures
        0 <= static_choice(e.args, c)->0 < e.args.len(),
        choice(e, w, k, c) == meaning(e.args[static_choice(e.args, c)->0], w, k),
    decreases e.args.len() - c,
{
    if c + 1 < e.args.len() {
        law_constants_have_their_value(e.args[c], w, k);
        if const_bool(e.args[c]) == Some(false) {
            law_static_choice_keeps_meaning(e, w, k, c + 2);
        }
    }
}

} // verus!
