//! Expression trees and their mathematical content.
//!
//! A tree node carries what its kind needs and the ordered list of its
//! operands; [`Node`] says for each kind what the operands are.
use crate::solve::error::Real;
use crate::span::Span;
use crate::text::{copy_strings, held, owned, same_strings, same_text, views};
use vstd::prelude::*;

verus! {

/// A literal value.
#[derive(Debug)]
pub enum Literal {
    Real(Real),
    Integer(i64),
    Boolean(bool),
    String(String),
}

pub enum LiteralView {
    Real(Real),
    Integer(i64),
    Boolean(bool),
    String(Seq<char>),
}

impl View for Literal {
    type V = LiteralView;

    open spec fn view(&self) -> LiteralView {
        match *self {
            Literal::Real(r) => LiteralView::Real(r),
            Literal::Integer(i) => LiteralView::Integer(i),
            Literal::Boolean(b) => LiteralView::Boolean(b),
            Literal::String(s) => LiteralView::String(s@),
        }
    }
}

#[derive(Clone, Copy, Debug, PartialEq, Eq, Structural)]
pub enum OpBinary {
    Add,
    Sub,
    Mul,
    Div,
    Exp,
    Lt,
    Le,
    Gt,
    Ge,
    Eq,
    Neq,
    And,
    Or,
}

impl OpBinary {
    pub open spec fn relational(self) -> bool {
        ||| self is Lt
        ||| self is Le
        ||| self is Gt
        ||| self is Ge
        ||| self is Eq
        ||| self is Neq
    }

    /// Whether the operator compares its operands.
    pub fn is_relational(&self) -> (r: bool)
        ensures
            r == self.relational(),
    {
        match self {
            OpBinary::Lt => true,
            OpBinary::Le => true,
            OpBinary::Gt => true,
            OpBinary::Ge => true,
            OpBinary::Eq => true,
            OpBinary::Neq => true,
            _ => false,
        }
    }
}

#[derive(Clone, Copy, Debug, PartialEq, Eq, Structural)]
pub enum OpUnary {
    Minus,
    Plus,
    Not,
}

#[derive(Clone, Copy, Debug, PartialEq, Eq, Structural)]
pub enum BuiltinFunction {
    Der,
    Pre,
    Edge,
    Change,
    Sample,
    Initial,
    Terminal,
    NoEvent,
    Smooth,
    Delay,
    Abs,
    Sign,
    Sqrt,
    Mod,
    Rem,
    Floor,
    Ceil,
    Integer,
    Sin,
    Cos,
    Tan,
    Asin,
    Acos,
    Atan,
    Atan2,
    Sinh,
    Cosh,
    Tanh,
    Exp,
    Log,
    Log10,
    Min,
    Max,
    Sum,
    Product,
    Size,
    Transpose,
}

/// The kind of a tree node.
#[derive(Debug)]
pub enum Node {
    Empty,
    Literal(Literal),
    /// Operands: the subscripts.
    VarRef { name: String },
    /// Operands: left, right.
    Binary(OpBinary),
    /// Operand: the argument.
    Unary(OpUnary),
    /// Operands: the arguments.
    BuiltinCall(BuiltinFunction),
    /// Operands: the arguments.
    FunctionCall { name: String, is_constructor: bool },
    /// Operands: condition and value of each branch in turn, then the value of
    /// the last resort.
    If,
    /// Operands: the elements.
    Array { is_matrix: bool },
    /// Operands: the elements.
    Tuple,
    /// Operands: start, step where there is one, end.
    Range,
    /// Operands: the base, then the subscripts.
    Index,
    /// Operand: the base.
    FieldAccess { field: String },
    /// Operands: the element, the filter where there is one, then the range of
    /// each index.
    ArrayComprehension { indices: Vec<String>, has_filter: bool },
    /// A subscript with a fixed value.
    SubscriptIndex(i64),
    /// A computed subscript. Operand: its expression.
    SubscriptExpr,
    /// A whole dimension.
    SubscriptColon,
}

pub enum NodeView {
    Empty,
    Literal(LiteralView),
    VarRef { name: Seq<char> },
    Binary(OpBinary),
    Unary(OpUnary),
    BuiltinCall(BuiltinFunction),
    FunctionCall { name: Seq<char>, is_constructor: bool },
    If,
    Array { is_matrix: bool },
    Tuple,
    Range,
    Index,
    FieldAccess { field: Seq<char> },
    ArrayComprehension { indices: Seq<Seq<char>>, has_filter: bool },
    SubscriptIndex(i64),
    SubscriptExpr,
    SubscriptColon,
}

impl View for Node {
    type V = NodeView;

    open spec fn view(&self) -> NodeView {
        match *self {
            Node::Empty => NodeView::Empty,
            Node::Literal(value) => NodeView::Literal(value@),
            Node::VarRef { name } => NodeView::VarRef { name: name@ },
            Node::Binary(op) => NodeView::Binary(op),
            Node::Unary(op) => NodeView::Unary(op),
            Node::BuiltinCall(function) => NodeView::BuiltinCall(function),
            Node::FunctionCall { name, is_constructor } => NodeView::FunctionCall {
                name: name@,
                is_constructor,
            },
            Node::If => NodeView::If,
            Node::Array { is_matrix } => NodeView::Array { is_matrix },
            Node::Tuple => NodeView::Tuple,
            Node::Range => NodeView::Range,
            Node::Index => NodeView::Index,
            Node::FieldAccess { field } => NodeView::FieldAccess { field: field@ },
            Node::ArrayComprehension { indices, has_filter } => NodeView::ArrayComprehension {
                indices: views(indices@),
                has_filter,
            },
            Node::SubscriptIndex(value) => NodeView::SubscriptIndex(value),
            Node::SubscriptExpr => NodeView::SubscriptExpr,
            Node::SubscriptColon => NodeView::SubscriptColon,
        }
    }
}

/// An expression: a node, its operands and its source position.
#[derive(Debug)]
pub struct Expression {
    pub node: Node,
    pub args: Vec<Expression>,
    pub span: Span,
}

/// The mathematical content of an [`Expression`].
#[verifier::ext_equal]
pub struct ExprView {
    pub node: NodeView,
    pub args: Seq<ExprView>,
    pub span: Span,
}

/// The content of an expression, operand by operand.
pub open spec fn expr_view(e: Expression) -> ExprView
    decreases e,
{
    ExprView {
        node: e.node@,
        args: Seq::new(
            e.args@.len(),
            |i: int|
                if 0 <= i < e.args@.len() {
                    expr_view(e.args@[i])
                } else {
                    arbitrary()
                },
        ),
        span: e.span,
    }
}

impl View for Expression {
    type V = ExprView;

    open spec fn view(&self) -> ExprView {
        expr_view(*self)
    }
}

/// The mathematical content of a list of expressions.
pub open spec fn expr_views(list: Seq<Expression>) -> Seq<ExprView> {
    Seq::new(list.len(), |i: int| list[i]@)
}

/// The operands of a tree, by content.
pub proof fn lemma_view_args(e: Expression)
    ensures
        e@.args == expr_views(e.args@),
        e@.node == e.node@,
        e@.span == e.span,
{
    reveal_with_fuel(expr_view, 2);
    assert(e@.args =~= expr_views(e.args@));
}

/// Appending an expression appends its content.
pub proof fn lemma_expr_views_push(list: Seq<Expression>, e: Expression)
    ensures
        expr_views(list.push(e)) == expr_views(list).push(e@),
{
    assert(expr_views(list.push(e)) =~= expr_views(list).push(e@));
}

impl ExprView {
    /// The source position, where there is one.
    pub open spec fn source(self) -> Option<Span> {
        if self.span == Span::dummy_spec() {
            None
        } else {
            Some(self.span)
        }
    }

    /// The same tree without any source positions.
    pub open spec fn unplaced(self) -> ExprView
        decreases self,
    {
        ExprView {
            node: self.node,
            args: Seq::new(
                self.args.len(),
                |i: int|
                    if 0 <= i < self.args.len() {
                        self.args[i].unplaced()
                    } else {
                        arbitrary()
                    },
            ),
            span: Span::dummy_spec(),
        }
    }

    /// Whether the tree compares values anywhere.
    pub open spec fn compares(self) -> bool
        decreases self,
    {
        ||| self.node matches NodeView::Binary(op) && op.relational()
        ||| exists|i: int| 0 <= i < self.args.len() && (#[trigger] self.args[i]).compares()
    }
}

impl Clone for Literal {
    fn clone(&self) -> (r: Self)
        ensures
            r@ == self@,
    {
        match self {
            Literal::Real(v) => Literal::Real(*v),
            Literal::Integer(v) => Literal::Integer(*v),
            Literal::Boolean(v) => Literal::Boolean(*v),
            Literal::String(s) => Literal::String(s.clone()),
        }
    }
}

impl Clone for Node {
    fn clone(&self) -> (r: Self)
        ensures
            r@ == self@,
    {
        match self {
            Node::Empty => Node::Empty,
            Node::Literal(value) => Node::Literal(value.clone()),
            Node::VarRef { name } => Node::VarRef { name: name.clone() },
            Node::Binary(op) => Node::Binary(*op),
            Node::Unary(op) => Node::Unary(*op),
            Node::BuiltinCall(function) => Node::BuiltinCall(*function),
            Node::FunctionCall { name, is_constructor } => Node::FunctionCall {
                name: name.clone(),
                is_constructor: *is_constructor,
            },
            Node::If => Node::If,
            Node::Array { is_matrix } => Node::Array { is_matrix: *is_matrix },
            Node::Tuple => Node::Tuple,
            Node::Range => Node::Range,
            Node::Index => Node::Index,
            Node::FieldAccess { field } => Node::FieldAccess { field: field.clone() },
            Node::ArrayComprehension { indices, has_filter } => Node::ArrayComprehension {
                indices: copy_strings(indices),
                has_filter: *has_filter,
            },
            Node::SubscriptIndex(value) => Node::SubscriptIndex(*value),
            Node::SubscriptExpr => Node::SubscriptExpr,
            Node::SubscriptColon => Node::SubscriptColon,
        }
    }
}

impl Clone for Expression {
    fn clone(&self) -> (r: Self)
        ensures
            r@ == self@,
        decreases self,
    {
        let mut args: Vec<Expression> = Vec::new();
        let mut i: usize = 0;
        proof {
            lemma_view_args(*self);
        }
        assert(expr_views(args@) =~= self@.args.take(0));
        while i < self.args.len()
            invariant
                i <= self.args.len(),
                self@.args == expr_views(self.args@),
                expr_views(args@) == self@.args.take(i as int),
            decreases self.args.len() - i,
        {
            let copy = self.args[i].clone();
            proof {
                lemma_expr_views_push(args@, copy);
            }
            args.push(copy);
            i = i + 1;
            assert(expr_views(args@) =~= self@.args.take(i as int));
        }
        let r = Expression { node: self.node.clone(), args, span: self.span };
        proof {
            assert(self@.args.take(i as int) =~= self@.args);
            lemma_view_args(r);
        }
        r
    }
}

fn same_literal(a: &Literal, b: &Literal) -> (r: bool)
    ensures
        r == (a@ == b@),
{
    match (a, b) {
        (Literal::Real(x), Literal::Real(y)) => *x == *y,
        (Literal::Integer(x), Literal::Integer(y)) => *x == *y,
        (Literal::Boolean(x), Literal::Boolean(y)) => *x == *y,
        (Literal::String(x), Literal::String(y)) => same_text(x.as_str(), y.as_str()),
        _ => false,
    }
}

/// Whether two nodes are of the same kind with the same content.
pub fn same_node(a: &Node, b: &Node) -> (r: bool)
    ensures
        r == (a@ == b@),
{
    match (a, b) {
        (Node::Empty, Node::Empty) => true,
        (Node::Literal(x), Node::Literal(y)) => same_literal(x, y),
        (Node::VarRef { name: x }, Node::VarRef { name: y }) => same_text(x.as_str(), y.as_str()),
        (Node::Binary(x), Node::Binary(y)) => *x == *y,
        (Node::Unary(x), Node::Unary(y)) => *x == *y,
        (Node::BuiltinCall(x), Node::BuiltinCall(y)) => *x == *y,
        (
            Node::FunctionCall { name: x, is_constructor: cx },
            Node::FunctionCall { name: y, is_constructor: cy },
        ) => same_text(x.as_str(), y.as_str()) && *cx == *cy,
        (Node::If, Node::If) => true,
        (Node::Array { is_matrix: x }, Node::Array { is_matrix: y }) => *x == *y,
        (Node::Tuple, Node::Tuple) => true,
        (Node::Range, Node::Range) => true,
        (Node::Index, Node::Index) => true,
        (Node::FieldAccess { field: x }, Node::FieldAccess { field: y }) => same_text(
            x.as_str(),
            y.as_str(),
        ),
        (
            Node::ArrayComprehension { indices: x, has_filter: fx },
            Node::ArrayComprehension { indices: y, has_filter: fy },
        ) => same_strings(x, y) && *fx == *fy,
        (Node::SubscriptIndex(x), Node::SubscriptIndex(y)) => *x == *y,
        (Node::SubscriptExpr, Node::SubscriptExpr) => true,
        (Node::SubscriptColon, Node::SubscriptColon) => true,
        _ => false,
    }
}

/// Whether two expressions are the same, source positions included.
pub fn same_expression(a: &Expression, b: &Expression) -> (r: bool)
    ensures
        r == (a@ == b@),
    decreases a,
{
    proof {
        lemma_view_args(*a);
        lemma_view_args(*b);
    }
    if !same_node(&a.node, &b.node) || !(a.span == b.span) {
        return false;
    }
    if a.args.len() != b.args.len() {
        assert(a@.args.len() != b@.args.len());
        return false;
    }
    let mut i: usize = 0;
    while i < a.args.len()
        invariant
            i <= a.args.len(),
            a.args@.len() == b.args@.len(),
            a@.args == expr_views(a.args@),
            b@.args == expr_views(b.args@),
            forall|k: int| 0 <= k < i ==> a@.args[k] == b@.args[k],
        decreases a.args.len() - i,
    {
        if !same_expression(&a.args[i], &b.args[i]) {
            assert(a@.args[i as int] != b@.args[i as int]);
            return false;
        }
        i = i + 1;
    }
    assert(a@.args =~= b@.args);
    true
}

/// Whether two expressions are the same but for source positions.
pub fn expressions_semantically_equal(a: &Expression, b: &Expression) -> (r: bool)
    ensures
        r == (a@.unplaced() == b@.unplaced()),
    decreases a,
{
    proof {
        lemma_view_args(*a);
        lemma_view_args(*b);
    }
    if !same_node(&a.node, &b.node) {
        return false;
    }
    if a.args.len() != b.args.len() {
        assert(a@.unplaced().args.len() != b@.unplaced().args.len());
        return false;
    }
    let mut i: usize = 0;
    while i < a.args.len()
        invariant
            i <= a.args.len(),
            a.args@.len() == b.args@.len(),
            a@.args == expr_views(a.args@),
            b@.args == expr_views(b.args@),
            forall|k: int| 0 <= k < i ==> a@.unplaced().args[k] == b@.unplaced().args[k],
        decreases a.args.len() - i,
    {
        assert(a@.unplaced().args[i as int] == a.args@[i as int]@.unplaced());
        assert(b@.unplaced().args[i as int] == b.args@[i as int]@.unplaced());
        if !expressions_semantically_equal(&a.args[i], &b.args[i]) {
            return false;
        }
        i = i + 1;
    }
    assert(a@.unplaced().args =~= b@.unplaced().args);
    true
}

impl Expression {
    /// An expression of this content.
    pub fn new(node: Node, args: Vec<Expression>, span: Span) -> (e: Expression)
        ensures
            e@ == (ExprView { node: node@, args: expr_views(args@), span }),
    {
        let e = Expression { node, args, span };
        proof {
            lemma_view_args(e);
        }
        e
    }

    /// A literal.
    pub fn literal(value: Literal, span: Span) -> (e: Expression)
        ensures
            e@ == (ExprView { node: NodeView::Literal(value@), args: Seq::empty(), span }),
    {
        let e = Expression::new(Node::Literal(value), Vec::new(), span);
        assert(e@.args =~= Seq::empty());
        e
    }

    /// A reference to a variable.
    pub fn var_ref(name: &str, subscripts: Vec<Expression>, span: Span) -> (e: Expression)
        ensures
            e@ == (ExprView {
                node: NodeView::VarRef { name: name@ },
                args: expr_views(subscripts@),
                span,
            }),
    {
        Expression::new(Node::VarRef { name: owned(name) }, subscripts, span)
    }

    /// An operation with two operands.
    pub fn binary(op: OpBinary, lhs: Expression, rhs: Expression, span: Span) -> (e: Expression)
        ensures
            e@ == (ExprView { node: NodeView::Binary(op), args: seq![lhs@, rhs@], span }),
    {
        let mut args: Vec<Expression> = Vec::new();
        args.push(lhs);
        args.push(rhs);
        let e = Expression::new(Node::Binary(op), args, span);
        assert(e@.args =~= seq![lhs@, rhs@]);
        e
    }

    /// An operation with one operand.
    pub fn unary(op: OpUnary, rhs: Expression, span: Span) -> (e: Expression)
        ensures
            e@ == (ExprView { node: NodeView::Unary(op), args: seq![rhs@], span }),
    {
        let mut args: Vec<Expression> = Vec::new();
        args.push(rhs);
        let e = Expression::new(Node::Unary(op), args, span);
        assert(e@.args =~= seq![rhs@]);
        e
    }

    /// A call of a built-in function.
    pub fn builtin_call(function: BuiltinFunction, args: Vec<Expression>, span: Span) -> (e:
        Expression)
        ensures
            e@ == (ExprView {
                node: NodeView::BuiltinCall(function),
                args: expr_views(args@),
                span,
            }),
    {
        Expression::new(Node::BuiltinCall(function), args, span)
    }

    /// A call of a named function.
    pub fn function_call(name: &str, args: Vec<Expression>, is_constructor: bool, span: Span) -> (e:
        Expression)
        ensures
            e@ == (ExprView {
                node: NodeView::FunctionCall { name: name@, is_constructor },
                args: expr_views(args@),
                span,
            }),
    {
        Expression::new(Node::FunctionCall { name: owned(name), is_constructor }, args, span)
    }

    /// A subscript with a fixed value.
    pub fn subscript_index(value: i64, span: Span) -> (e: Expression)
        ensures
            e@ == (ExprView { node: NodeView::SubscriptIndex(value), args: Seq::empty(), span }),
    {
        let e = Expression::new(Node::SubscriptIndex(value), Vec::new(), span);
        assert(e@.args =~= Seq::empty());
        e
    }

    /// A computed subscript.
    pub fn subscript_expr(value: Expression, span: Span) -> (e: Expression)
        ensures
            e@ == (ExprView { node: NodeView::SubscriptExpr, args: seq![value@], span }),
    {
        let mut args: Vec<Expression> = Vec::new();
        args.push(value);
        let e = Expression::new(Node::SubscriptExpr, args, span);
        assert(e@.args =~= seq![value@]);
        e
    }

    /// The source position, where there is one.
    pub fn source_span(&self) -> (r: Option<Span>)
        ensures
            r == self@.source(),
    {
        if self.span.is_dummy() {
            None
        } else {
            Some(self.span)
        }
    }

    /// The same expression at another source position.
    pub fn with_span(self, span: Span) -> (e: Expression)
        ensures
            e@ == (ExprView { node: self@.node, args: self@.args, span }),
    {
        let e = Expression { node: self.node, args: self.args, span };
        proof {
            lemma_view_args(self);
            lemma_view_args(e);
        }
        e
    }

    /// Whether the tree compares values anywhere.
    pub fn contains_relational_operator(&self) -> (r: bool)
        ensures
            r == self@.compares(),
        decreases self,
    {
        proof {
            lemma_view_args(*self);
        }
        if let Node::Binary(op) = &self.node {
            if op.is_relational() {
                return true;
            }
        }
        let mut i: usize = 0;
        while i < self.args.len()
            invariant
                i <= self.args.len(),
                self@.args == expr_views(self.args@),
                !(self@.node matches NodeView::Binary(op) && op.relational()),
                forall|k: int| 0 <= k < i ==> !(#[trigger] self@.args[k]).compares(),
            decreases self.args.len() - i,
        {
            if self.args[i].contains_relational_operator() {
                assert(self@.args[i as int].compares());
                return true;
            }
            i = i + 1;
        }
        false
    }
}

/// A copy of an optional expression.
pub fn copy_optional(o: &Option<Expression>) -> (r: Option<Expression>)
    ensures
        held(r) == held(*o),
{
    match o {
        Some(e) => Some(e.clone()),
        None => None,
    }
}

/// A copy of a list of expressions.
pub fn copy_expressions(list: &Vec<Expression>) -> (r: Vec<Expression>)
    ensures
        expr_views(r@) == expr_views(list@),
{
    let mut r: Vec<Expression> = Vec::new();
    let mut i: usize = 0;
    assert(expr_views(r@) =~= expr_views(list@).take(0));
    while i < list.len()
        invariant
            i <= list.len(),
            expr_views(r@) == expr_views(list@).take(i as int),
        decreases list.len() - i,
    {
        let copy = list[i].clone();
        proof {
            lemma_expr_views_push(r@, copy);
        }
        r.push(copy);
        i = i + 1;
        assert(expr_views(r@) =~= expr_views(list@).take(i as int));
    }
    assert(expr_views(list@).take(i as int) =~= expr_views(list@));
    r
}

} // verus!
