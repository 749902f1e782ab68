//! Constant conditions.
use crate::expr::tree::{
    expr_views, lemma_view_args, ExprView, Expression, Literal, LiteralView, Node, NodeView,
    OpBinary, OpUnary,
};
use vstd::prelude::*;

verus! {

/// The value of a constant expression of integers and truth values.
#[derive(Clone, Copy, Debug, PartialEq, Eq, Structural)]
pub enum ConstValue {
    Integer(i64),
    Boolean(bool),
}

/// A mathematical integer as a constant, where it fits.
pub open spec fn fitting(v: int) -> Option<ConstValue> {
    if i64::MIN <= v <= i64::MAX {
        Some(ConstValue::Integer(v as i64))
    } else {
        None
    }
}

pub open spec fn unary_value(op: OpUnary, a: ConstValue) -> Option<ConstValue> {
    match (op, a) {
        (OpUnary::Plus, ConstValue::Integer(v)) => Some(ConstValue::Integer(v)),
        (OpUnary::Minus, ConstValue::Integer(v)) => fitting(-v),
        (OpUnary::Not, ConstValue::Boolean(b)) => Some(ConstValue::Boolean(!b)),
        _ => None,
    }
}

pub open spec fn binary_value(op: OpBinary, a: ConstValue, b: ConstValue) -> Option<ConstValue> {
    match (a, b) {
        (ConstValue::Integer(x), ConstValue::Integer(y)) => match op {
            OpBinary::Add => fitting(x + y),
            OpBinary::Sub => fitting(x - y),
            OpBinary::Mul => fitting(x * y),
            OpBinary::Lt => Some(ConstValue::Boolean(x < y)),
            OpBinary::Le => Some(ConstValue::Boolean(x <= y)),
            OpBinary::Gt => Some(ConstValue::Boolean(x > y)),
            OpBinary::Ge => Some(ConstValue::Boolean(x >= y)),
            OpBinary::Eq => Some(ConstValue::Boolean(x == y)),
            OpBinary::Neq => Some(ConstValue::Boolean(x != y)),
            _ => None,
        },
        (ConstValue::Boolean(x), ConstValue::Boolean(y)) => match op {
            OpBinary::And => Some(ConstValue::Boolean(x && y)),
            OpBinary::Or => Some(ConstValue::Boolean(x || y)),
            OpBinary::Eq => Some(ConstValue::Boolean(x == y)),
            OpBinary::Neq => Some(ConstValue::Boolean(x != y)),
            _ => None,
        },
        _ => None,
    }
}

/// The value of an expression of integer and truth literals and operators;
/// nothing where anything else occurs or a number does not fit.
pub open spec fn const_value(e: ExprView) -> Option<ConstValue>
    decreases e,
{
    match e.node {
        NodeView::Literal(LiteralView::Integer(v)) => Some(ConstValue::Integer(v)),
        NodeView::Literal(LiteralView::Boolean(b)) => Some(ConstValue::Boolean(b)),
        NodeView::Unary(op) => if e.args.len() == 1 {
            match const_value(e.args[0]) {
                Some(a) => unary_value(op, a),
                None => None,
            }
        } else {
            None
        },
        NodeView::Binary(op) => if e.args.len() == 2 {
            match (const_value(e.args[0]), const_value(e.args[1])) {
                (Some(a), Some(b)) => binary_value(op, a, b),
                _ => None,
            }
        } else {
            None
        },
        _ => None,
    }
}

/// The truth value of a constant condition.
pub open spec fn const_bool(e: ExprView) -> Option<bool> {
    match const_value(e) {
        Some(ConstValue::Boolean(b)) => Some(b),
        _ => None,
    }
}

pub fn eval_unary(op: OpUnary, a: ConstValue) -> (r: Option<ConstValue>)
    ensures
        r == unary_value(op, a),
{
    match (op, a) {
        (OpUnary::Plus, ConstValue::Integer(v)) => Some(ConstValue::Integer(v)),
        (OpUnary::Minus, ConstValue::Integer(v)) => {
            if v == i64::MIN {
                None
            } else {
                Some(ConstValue::Integer(-v))
            }
        },
        (OpUnary::Not, ConstValue::Boolean(b)) => Some(ConstValue::Boolean(!b)),
        _ => None,
    }
}

fn integer(v: Option<i64>) -> (r: Option<ConstValue>)
    ensures
        r == match v {
            Some(i) => Some(ConstValue::Integer(i)),
            None => None,
        },
{
    match v {
        Some(i) => Some(ConstValue::Integer(i)),
        None => None,
    }
}

pub fn eval_binary(op: OpBinary, a: ConstValue, b: ConstValue) -> (r: Option<ConstValue>)
    ensures
        r == binary_value(op, a, b),
{
    match (a, b) {
        (ConstValue::Integer(x), ConstValue::Integer(y)) => match op {
            OpBinary::Add => integer(x.checked_add(y)),
            OpBinary::Sub => integer(x.checked_sub(y)),
            OpBinary::Mul => integer(x.checked_mul(y)),
            OpBinary::Lt => Some(ConstValue::Boolean(x < y)),
            OpBinary::Le => Some(ConstValue::Boolean(x <= y)),
            OpBinary::Gt => Some(ConstValue::Boolean(x > y)),
            OpBinary::Ge => Some(ConstValue::Boolean(x >= y)),
            OpBinary::Eq => Some(ConstValue::Boolean(x == y)),
            OpBinary::Neq => Some(ConstValue::Boolean(x != y)),
            _ => None,
        },
        (ConstValue::Boolean(x), ConstValue::Boolean(y)) => match op {
            OpBinary::And => Some(ConstValue::Boolean(x && y)),
            OpBinary::Or => Some(ConstValue::Boolean(x || y)),
            OpBinary::Eq => Some(ConstValue::Boolean(x == y)),
            OpBinary::Neq => Some(ConstValue::Boolean(x != y)),
            _ => None,
        },
        _ => None,
    }
}

/// The value of a constant expression.
pub fn eval_const_expr(e: &Expression) -> (r: Option<ConstValue>)
    ensures
        r == const_value(e@),
    decreases e,
{
    proof {
        lemma_view_args(*e);
    }
    match &e.node {
        Node::Literal(Literal::Integer(v)) => Some(ConstValue::Integer(*v)),
        Node::Literal(Literal::Boolean(b)) => Some(ConstValue::Boolean(*b)),
        Node::Unary(op) => {
            if e.args.len() != 1 {
                return None;
            }
            match eval_const_expr(&e.args[0]) {
                Some(a) => eval_unary(*op, a),
                None => None,
            }
        },
        Node::Binary(op) => {
            if e.args.len() != 2 {
                return None;
            }
            match (eval_const_expr(&e.args[0]), eval_const_expr(&e.args[1])) {
                (Some(a), Some(b)) => eval_binary(*op, a, b),
                _ => None,
            }
        },
        _ => None,
    }
}

/// The truth value of a constant condition.
pub fn static_bool_expr(e: &Expression) -> (r: Option<bool>)
    ensures
        r == const_bool(e@),
{
    match eval_const_expr(e) {
        Some(ConstValue::Boolean(b)) => Some(b),
        _ => None,
    }
}

/// Which operand a conditional with constant conditions comes down to, looking
/// from the branch at `k` on; nothing where a condition that counts is not
/// constant.
pub open spec fn static_choice(args: Seq<ExprView>, k: int) -> Option<int>
    decreases args.len() - k,
{
    if args.len() == 0 {
        None
    } else if k + 1 >= args.len() {
        Some(args.len() - 1)
    } else {
        match const_bool(args[k]) {
            Some(true) => Some(k + 1),
            Some(false) => static_choice(args, k + 2),
            None => None,
        }
    }
}

/// The choice is one of the operands.
pub proof fn lemma_static_choice(args: Seq<ExprView>, k: int)
    requires
        0 <= k,
    ensures
        static_choice(args, k) matches Some(i) ==> 0 <= i < args.len(),
    decreases args.len() - k,
{
    if args.len() > 0 && k + 1 < args.len() && const_bool(args[k]) == Some(false) {
        lemma_static_choice(args, k + 2);
    }
}

/// Which operand a conditional with constant conditions comes down to.
pub fn selected_static_if_branch(e: &Expression) -> (r: Option<usize>)
    ensures
        match r {
            Some(i) => static_choice(e@.args, 0) == Some(i as int) && i < e.args@.len(),
            None => static_choice(e@.args, 0) is None,
        },
{
    proof {
        lemma_view_args(*e);
    }
    let n: usize = e.args.len();
    if n == 0 {
        return None;
    }
    let mut k: usize = 0;
    while k < n - 1
        invariant
            n == e.args@.len(),
            n > 0,
            e@.args == expr_views(e.args@),
            static_choice(e@.args, 0) == static_choice(e@.args, k as int),
        decreases n + 1 - k,
    {
        match static_bool_expr(&e.args[k]) {
            Some(true) => {
                return Some(k + 1);
            },
            Some(false) => {},
            None => {
                return None;
            },
        }
        if k + 1 >= n - 1 {
            assert(static_choice(e@.args, k + 2) == Some(n - 1));
            return Some(n - 1);
        }
        k = k + 2;
    }
    Some(n - 1)
}

} // verus!
