//! Replacing temporal calls by references to left-limit parameters.
use crate::dae::const_eval::{selected_static_if_branch, static_choice};
use crate::dae::error::{ToDaeError, ToDaeErrorView};
use crate::dae::pre_targets::{
    pre_target_parts, target_parts, temporal_call, temporal_of, PreTarget, Targets, Temporal,
};
use crate::dae::relation_memory::{memory_views, Memory};
use crate::expr::tree::{
    expr_views, lemma_expr_views_push, lemma_view_args, same_expression, BuiltinFunction, ExprView,
    Expression, Literal, LiteralView, Node, NodeView, OpBinary, OpUnary,
};
use crate::ir::name_map::{value_of_name, NameMap};
use crate::span::Span;
use crate::text::owned;
use vstd::prelude::*;

verus! {

/// Name of the parameter that holds the left limit of a variable.
pub open spec fn pre_name(name: Seq<char>) -> Seq<char> {
    "__pre__."@ + name
}

/// A reference to the left limit of a variable.
pub open spec fn pre_ref(name: Seq<char>, subs: Seq<ExprView>, span: Span) -> ExprView {
    ExprView { node: NodeView::VarRef { name: pre_name(name) }, args: subs, span }
}

/// The truth value `false`.
pub open spec fn false_at(span: Span) -> ExprView {
    ExprView {
        node: NodeView::Literal(LiteralView::Boolean(false)),
        args: Seq::empty(),
        span,
    }
}

/// `current and not previous`.
pub open spec fn rising(current: ExprView, previous: ExprView, span: Span) -> ExprView {
    ExprView {
        node: NodeView::Binary(OpBinary::And),
        args: seq![
            current,
            ExprView { node: NodeView::Unary(OpUnary::Not), args: seq![previous], span },
        ],
        span,
    }
}

/// Name of the parameter that holds the left limit of a variable.
pub fn make_pre_name(name: &str) -> (s: String)
    ensures
        s@ == pre_name(name@),
{
    let mut s = owned("__pre__.");
    s.append(name);
    s
}

fn pre_var_ref(name: &str, subs: Vec<Expression>, span: Span) -> (e: Expression)
    ensures
        e@ == pre_ref(name@, expr_views(subs@), span),
{
    Expression::var_ref(make_pre_name(name).as_str(), subs, span)
}

fn make_false(span: Span) -> (e: Expression)
    ensures
        e@ == false_at(span),
{
    Expression::literal(Literal::Boolean(false), span)
}

fn make_rising(current: Expression, previous: Expression, span: Span) -> (e: Expression)
    ensures
        e@ == rising(current@, previous@, span),
{
    Expression::binary(
        OpBinary::And,
        current,
        Expression::unary(OpUnary::Not, previous, span),
        span,
    )
}

/// Whether a left limit is taken nowhere in an expression.
pub open spec fn pre_free(e: ExprView) -> bool
    decreases e,
{
    &&& temporal_of(e.node) != Some(Temporal::Pre)
    &&& forall|i: int| 0 <= i < e.args.len() ==> pre_free(#[trigger] e.args[i])
}

/// Whether a left limit is taken nowhere in an expression.
pub fn is_pre_free(e: &Expression) -> (r: bool)
    ensures
        r == pre_free(e@),
    decreases e,
{
    proof {
        lemma_view_args(*e);
    }
    if let Some(Temporal::Pre) = temporal_call(&e.node) {
        return false;
    }
    let mut i: usize = 0;
    while i < e.args.len()
        invariant
            i <= e.args@.len(),
            e@.args == expr_views(e.args@),
            temporal_of(e@.node) != Some(Temporal::Pre),
            forall|k: int| 0 <= k < i ==> pre_free(#[trigger] e@.args[k]),
        decreases e.args.len() - i,
    {
        if !is_pre_free(&e.args[i]) {
            assert(!pre_free(e@.args[i as int]));
            return false;
        }
        i = i + 1;
    }
    true
}

/// How many operands of a node are rewritten where left limits are taken: as many
/// as elsewhere, and all where one of the others takes a left limit itself.
pub open spec fn reached(e: ExprView) -> nat {
    if forall|i: int| walked(e) <= i < e.args.len() ==> pre_free(#[trigger] e.args[i]) {
        walked(e)
    } else {
        e.args.len()
    }
}

fn reached_operands(e: &Expression) -> (n: usize)
    ensures
        n == reached(e@),
        n <= e.args@.len(),
{
    proof {
        lemma_view_args(*e);
    }
    let n: usize = walked_operands(e);
    let mut i: usize = n;
    while i < e.args.len()
        invariant
            n == walked(e@),
            n <= i <= e.args@.len(),
            e@.args == expr_views(e.args@),
            forall|k: int| n <= k < i ==> pre_free(#[trigger] e@.args[k]),
        decreases e.args.len() - i,
    {
        if !is_pre_free(&e.args[i]) {
            assert(!pre_free(e@.args[i as int]));
            return e.args.len();
        }
        i = i + 1;
    }
    n
}

/// How many operands of a node are rewritten: all, but for the ranges of an
/// array comprehension.
pub open spec fn walked(e: ExprView) -> nat {
    match e.node {
        NodeView::ArrayComprehension { has_filter, .. } => {
            let count: nat = if has_filter {
                2
            } else {
                1
            };
            if e.args.len() < count {
                e.args.len()
            } else {
                count
            }
        },
        _ => e.args.len(),
    }
}

fn walked_operands(e: &Expression) -> (n: usize)
    ensures
        n == walked(e@),
        n <= e.args@.len(),
{
    proof {
        lemma_view_args(*e);
    }
    match &e.node {
        Node::ArrayComprehension { has_filter, .. } => {
            let count: usize = if *has_filter {
                2
            } else {
                1
            };
            if e.args.len() < count {
                e.args.len()
            } else {
                count
            }
        },
        _ => e.args.len(),
    }
}

/// The node with its first operands replaced.
pub open spec fn rebuilt(e: ExprView, front: Seq<ExprView>) -> ExprView {
    ExprView {
        node: e.node,
        args: front + e.args.skip(front.len() as int),
        span: e.span,
    }
}

/// The target that an expression denotes: where its left limit is found, its
/// subscripts and where the target was first used.
pub open spec fn known_target(
    parts: Option<(Seq<char>, Seq<ExprView>)>,
    targets: Targets,
) -> Option<(Seq<char>, Seq<ExprView>, Span)> {
    match parts {
        Some((name, subs)) => match value_of_name(targets, name) {
            Some(target) => Some((target.source_name, subs, target.span)),
            None => None,
        },
        None => None,
    }
}

/// The left limit of an expression: every target in it becomes a reference to
/// its left limit, and a clock tick is over.
pub open spec fn value_rewrite(e: ExprView, targets: Targets) -> Result<ExprView, ToDaeErrorView>
    decreases e, e.args.len() + 1,
{
    match target_parts(e) {
        Err(x) => Err(x),
        Ok(parts) => match known_target(parts, targets) {
            Some((name, subs, first_use)) => Ok(
                pre_ref(
                    name,
                    subs,
                    match e.source() {
                        Some(span) => span,
                        None => first_use,
                    },
                ),
            ),
            None => if e.node == NodeView::BuiltinCall(BuiltinFunction::Sample) && e.args.len()
                != 1 {
                Ok(false_at(e.span))
            } else {
                match value_rewrite_args(e, walked(e) as int, targets) {
                    Ok(front) => Ok(rebuilt(e, front)),
                    Err(x) => Err(x),
                }
            },
        },
    }
}

/// The left limits of the first `n` operands.
pub open spec fn value_rewrite_args(e: ExprView, n: int, targets: Targets) -> Result<
    Seq<ExprView>,
    ToDaeErrorView,
>
    decreases e, n,
{
    if n <= 0 || n > e.args.len() {
        Ok(Seq::empty())
    } else {
        match value_rewrite_args(e, n - 1, targets) {
            Ok(front) => match value_rewrite(e.args[n - 1], targets) {
                Ok(arg) => Ok(front.push(arg)),
                Err(x) => Err(x),
            },
            Err(x) => Err(x),
        }
    }
}

proof fn lemma_value_args_error_stays(e: ExprView, k: int, n: int, targets: Targets)
    requires
        0 <= k <= n <= e.args.len(),
        value_rewrite_args(e, k, targets) is Err,
    ensures
        value_rewrite_args(e, n, targets) == value_rewrite_args(e, k, targets),
    decreases n,
{
    if k < n {
        lemma_value_args_error_stays(e, k, n - 1, targets);
    }
}

/// The first memory, among the first `n`, of this very relation.
pub open spec fn memory_of(memories: Seq<Memory>, n: int, relation: ExprView) -> Option<ExprView>
    decreases n,
{
    if n <= 0 {
        None
    } else {
        match memory_of(memories, n - 1, relation) {
            Some(memory) => Some(memory),
            None => if memories[n - 1].0 == relation {
                Some(memories[n - 1].1)
            } else {
                None
            },
        }
    }
}

/// The memory of a relation.
pub open spec fn remembered(memories: Seq<Memory>, relation: ExprView) -> Option<ExprView> {
    memory_of(memories, memories.len() as int, relation)
}

/// The error of a left limit that no parameter can stand for.
pub open spec fn unsupported_pre(span: Span) -> ToDaeErrorView {
    ToDaeErrorView::RuntimeContractViolation {
        message: "pre() call cannot be lowered to a parameter reference"@,
        span,
    }
}

fn unsupported_pre_error(span: Span) -> (e: ToDaeError)
    ensures
        e@ == unsupported_pre(span),
{
    ToDaeError::RuntimeContractViolation {
        message: owned("pre() call cannot be lowered to a parameter reference"),
        span,
    }
}

/// The left limit of a memory, which has to be a variable.
pub open spec fn memory_pre(memory: ExprView, span: Span) -> Result<ExprView, ToDaeErrorView> {
    match target_parts(memory) {
        Ok(Some((name, subs))) => Ok(pre_ref(name, subs, span)),
        Ok(None) => Err(unsupported_pre(span)),
        Err(x) => Err(x),
    }
}

/// The left limit of arguments that are already rewritten. Where the first is no
/// known target it has to be the only one.
pub open spec fn pre_of(args: Seq<ExprView>, targets: Targets, span: Span) -> Result<
    ExprView,
    ToDaeErrorView,
> {
    if args.len() == 0 {
        Err(unsupported_pre(span))
    } else {
        match target_parts(args[0]) {
            Err(x) => Err(x),
            Ok(parts) => match known_target(parts, targets) {
                Some((name, subs, _)) => Ok(pre_ref(name, subs, span)),
                None => if args.len() == 1 {
                    value_rewrite(args[0], targets)
                } else {
                    Err(unsupported_pre(span))
                },
            },
        }
    }
}

/// Whether a call constructs a record.
pub open spec fn constructs(node: NodeView) -> bool {
    match node {
        NodeView::FunctionCall { is_constructor, .. } => is_constructor,
        _ => false,
    }
}

/// The left limit of an operand: of the operand as it stands, or, where it takes
/// left limits itself, of what it is rewritten to.
pub open spec fn operand_value(e: ExprView, targets: Targets, memories: Seq<Memory>) -> Result<
    ExprView,
    ToDaeErrorView,
>
    decreases e, e.args.len() + 2,
{
    if pre_free(e) {
        value_rewrite(e, targets)
    } else {
        match pre_rewrite(e, targets, memories) {
            Ok(current) => value_rewrite(current, targets),
            Err(x) => Err(x),
        }
    }
}

/// An expression without temporal calls: left limits are references to
/// parameters, an edge is a rise, a change a difference, and a clock tick a
/// call that the runtime knows.
pub open spec fn pre_rewrite(e: ExprView, targets: Targets, memories: Seq<Memory>) -> Result<
    ExprView,
    ToDaeErrorView,
>
    decreases e, e.args.len() + 1,
{
    match temporal_of(e.node) {
        Some(Temporal::Pre) => if e.args.len() > 0 && remembered(memories, e.args[0]) is Some {
            memory_pre(remembered(memories, e.args[0])->0, e.span)
        } else {
            match pre_rewrite_args(e, e.args.len() as int, targets, memories) {
                Ok(args) => pre_of(args, targets, e.span),
                Err(x) => Err(x),
            }
        },
        Some(Temporal::Edge) => if e.args.len() == 0 {
            Ok(false_at(e.span))
        } else {
            match remembered(memories, e.args[0]) {
                Some(memory) => match memory_pre(memory, e.span) {
                    Ok(previous) => Ok(rising(memory, previous, e.span)),
                    Err(x) => Err(x),
                },
                None => match pre_rewrite(e.args[0], targets, memories) {
                    Ok(current) => match value_rewrite(current, targets) {
                        Ok(previous) => Ok(rising(current, previous, e.span)),
                        Err(x) => Err(x),
                    },
                    Err(x) => Err(x),
                },
            }
        },
        Some(Temporal::Change) => if e.args.len() == 0 {
            Ok(false_at(e.span))
        } else {
            match pre_rewrite(e.args[0], targets, memories) {
                Ok(current) => match operand_value(e.args[0], targets, memories) {
                    Ok(previous) => Ok(
                        ExprView {
                            node: NodeView::Binary(OpBinary::Neq),
                            args: seq![current, previous],
                            span: e.span,
                        },
                    ),
                    Err(x) => Err(x),
                },
                Err(x) => Err(x),
            }
        },
        Some(Temporal::Sample) => if e.args.len() == 1 {
            operand_value(e.args[0], targets, memories)
        } else {
            match pre_rewrite_args(e, e.args.len() as int, targets, memories) {
                Ok(args) => Ok(
                    ExprView {
                        node: NodeView::FunctionCall {
                            name: "__rumoca_sample"@,
                            is_constructor: false,
                        },
                        args,
                        span: e.span,
                    },
                ),
                Err(x) => Err(x),
            }
        },
        Some(Temporal::Previous) => if e.args.len() > 0 {
            operand_value(e.args[0], targets, memories)
        } else {
            Ok(
                ExprView {
                    node: NodeView::FunctionCall {
                        name: "previous"@,
                        is_constructor: constructs(e.node),
                    },
                    args: Seq::empty(),
                    span: e.span,
                },
            )
        },
        None => if e.node is If && static_choice(e.args, 0) is Some {
            let k = static_choice(e.args, 0)->0;
            if 0 <= k < e.args.len() {
                pre_rewrite(e.args[k], targets, memories)
            } else {
                Ok(e)
            }
        } else {
            match pre_rewrite_args(e, reached(e) as int, targets, memories) {
                Ok(front) => Ok(rebuilt(e, front)),
                Err(x) => Err(x),
            }
        },
    }
}

/// The first `n` operands without temporal calls.
pub open spec fn pre_rewrite_args(
    e: ExprView,
    n: int,
    targets: Targets,
    memories: Seq<Memory>,
) -> Result<Seq<ExprView>, ToDaeErrorView>
    decreases e, n,
{
    if n <= 0 || n > e.args.len() {
        Ok(Seq::empty())
    } else {
        match pre_rewrite_args(e, n - 1, targets, memories) {
            Ok(front) => match pre_rewrite(e.args[n - 1], targets, memories) {
                Ok(arg) => Ok(front.push(arg)),
                Err(x) => Err(x),
            },
            Err(x) => Err(x),
        }
    }
}

proof fn lemma_pre_args_error_stays(
    e: ExprView,
    k: int,
    n: int,
    targets: Targets,
    memories: Seq<Memory>,
)
    requires
        0 <= k <= n <= e.args.len(),
        pre_rewrite_args(e, k, targets, memories) is Err,
    ensures
        pre_rewrite_args(e, n, targets, memories) == pre_rewrite_args(e, k, targets, memories),
    decreases n,
{
    if k < n {
        lemma_pre_args_error_stays(e, k, n - 1, targets, memories);
    }
}

/// What a rewriting step gives: an error or the expression.
pub open spec fn rewritten(
    r: Result<Expression, ToDaeError>,
    expected: Result<ExprView, ToDaeErrorView>,
) -> bool {
    match r {
        Ok(e) => expected == Ok::<_, ToDaeErrorView>(e@),
        Err(x) => expected == Err::<ExprView, _>(x@),
    }
}

/// The node with new first operands, the others copied.
fn rebuild(e: &Expression, front: Vec<Expression>) -> (r: Expression)
    requires
        front@.len() <= e.args@.len(),
    ensures
        r@ == rebuilt(e@, expr_views(front@)),
{
    proof {
        lemma_view_args(*e);
    }
    let n: usize = front.len();
    let ghost head = expr_views(front@);
    let mut args = front;
    let mut i: usize = n;
    assert(expr_views(args@) =~= head + e@.args.subrange(n as int, n as int));
    while i < e.args.len()
        invariant
            n <= i <= e.args@.len(),
            e@.args == expr_views(e.args@),
            expr_views(args@) == head + e@.args.subrange(n as int, i as int),
        decreases e.args.len() - i,
    {
        let copy = e.args[i].clone();
        proof {
            lemma_expr_views_push(args@, copy);
        }
        args.push(copy);
        i = i + 1;
        assert(expr_views(args@) =~= head + e@.args.subrange(n as int, i as int));
    }
    assert(e@.args.subrange(n as int, i as int) =~= e@.args.skip(n as int));
    Expression::new(e.node.clone(), args, e.span)
}

/// The left limit that stands for the target in `parts`.
fn find_target<'a>(
    targets: &'a NameMap<PreTarget>,
    name: &str,
) -> (r: Option<&'a PreTarget>)
    requires
        targets.wf(),
    ensures
        match r {
            Some(t) => value_of_name(targets.views(), name@) == Some(t@),
            None => value_of_name(targets.views(), name@) is None,
        },
{
    proof {
        targets.lemma_views(name@);
    }
    targets.get(name)
}

/// The left limit of an expression.
pub fn rewrite_pre_expr_value(e: &Expression, targets: &NameMap<PreTarget>) -> (r: Result<
    Expression,
    ToDaeError,
>)
    requires
        targets.wf(),
    ensures
        rewritten(r, value_rewrite(e@, targets.views())),
    decreases e,
{
    proof {
        lemma_view_args(*e);
    }
    match pre_target_parts(e) {
        Err(x) => {
            return Err(x);
        },
        Ok(Some((name, subs))) => {
            if let Some(target) = find_target(targets, name.as_str()) {
                let span: Span = match e.source_span() {
                    Some(span) => span,
                    None => target.span,
                };
                return Ok(pre_var_ref(target.source_name.as_str(), subs, span));
            }
        },
        Ok(None) => {},
    }
    if let Node::BuiltinCall(BuiltinFunction::Sample) = &e.node {
        if e.args.len() != 1 {
            return Ok(make_false(e.span));
        }
    }
    let n: usize = walked_operands(e);
    let mut front: Vec<Expression> = Vec::new();
    let mut i: usize = 0;
    assert(expr_views(front@) =~= Seq::<ExprView>::empty());
    while i < n
        invariant
            targets.wf(),
            i <= n <= e.args@.len(),
            e@.args == expr_views(e.args@),
            front@.len() == i,
            value_rewrite(e@, targets.views()) == (match value_rewrite_args(
                e@,
                n as int,
                targets.views(),
            ) {
                Ok(list) => Ok(rebuilt(e@, list)),
                Err(x) => Err(x),
            }),
            value_rewrite_args(e@, i as int, targets.views()) == Ok::<_, ToDaeErrorView>(
                expr_views(front@),
            ),
        decreases n - i,
    {
        match rewrite_pre_expr_value(&e.args[i], targets) {
            Ok(arg) => {
                proof {
                    lemma_expr_views_push(front@, arg);
                }
                front.push(arg);
            },
            Err(x) => {
                proof {
                    lemma_value_args_error_stays(e@, i + 1, n as int, targets.views());
                }
                return Err(x);
            },
        }
        i = i + 1;
    }
    Ok(rebuild(e, front))
}

fn relation_memory_expr_for_condition(
    memories: &Vec<(Expression, Expression)>,
    condition: &Expression,
) -> (r: Option<Expression>)
    ensures
        match r {
            Some(e) => remembered(memory_views(memories@), condition@) == Some(e@),
            None => remembered(memory_views(memories@), condition@) is None,
        },
{
    let ghost all = memory_views(memories@);
    let mut i: usize = 0;
    while i < memories.len()
        invariant
            i <= memories.len(),
            all == memory_views(memories@),
            memory_of(all, i as int, condition@) is None,
        decreases memories.len() - i,
    {
        assert(all[i as int] == (memories@[i as int].0@, memories@[i as int].1@));
        if same_expression(&memories[i].0, condition) {
            proof {
                lemma_memory_stays(all, i + 1, all.len() as int, condition@);
            }
            return Some(memories[i].1.clone());
        }
        i = i + 1;
    }
    None
}

proof fn lemma_memory_stays(memories: Seq<Memory>, k: int, n: int, relation: ExprView)
    requires
        0 <= k <= n,
        memory_of(memories, k, relation) is Some,
    ensures
        memory_of(memories, n, relation) == memory_of(memories, k, relation),
    decreases n,
{
    if k < n {
        lemma_memory_stays(memories, k, n - 1, relation);
    }
}

fn relation_memory_pre_expr(memory: &Expression, span: Span) -> (r: Result<Expression, ToDaeError>)
    ensures
        rewritten(r, memory_pre(memory@, span)),
{
    match pre_target_parts(memory) {
        Ok(Some((name, subs))) => Ok(pre_var_ref(name.as_str(), subs, span)),
        Ok(None) => Err(unsupported_pre_error(span)),
        Err(x) => Err(x),
    }
}

fn pre_of_rewritten(args: Vec<Expression>, targets: &NameMap<PreTarget>, span: Span) -> (r: Result<
    Expression,
    ToDaeError,
>)
    requires
        targets.wf(),
    ensures
        rewritten(r, pre_of(expr_views(args@), targets.views(), span)),
{
    assert(expr_views(args@).len() == args@.len());
    if args.len() > 0 {
        match pre_target_parts(&args[0]) {
            Err(x) => {
                return Err(x);
            },
            Ok(Some((name, subs))) => {
                if let Some(target) = find_target(targets, name.as_str()) {
                    return Ok(pre_var_ref(target.source_name.as_str(), subs, span));
                }
            },
            Ok(None) => {},
        }
        if args.len() == 1 {
            return rewrite_pre_expr_value(&args[0], targets);
        }
    }
    Err(unsupported_pre_error(span))
}

/// The first `n` operands without temporal calls.
fn rewrite_operands(
    e: &Expression,
    n: usize,
    targets: &NameMap<PreTarget>,
    memories: &Vec<(Expression, Expression)>,
) -> (r: Result<Vec<Expression>, ToDaeError>)
    requires
        targets.wf(),
        n <= e.args@.len(),
    ensures
        match r {
            Ok(list) => list@.len() == n && pre_rewrite_args(
                e@,
                n as int,
                targets.views(),
                memory_views(memories@),
            ) == Ok::<_, ToDaeErrorView>(expr_views(list@)),
            Err(x) => pre_rewrite_args(e@, n as int, targets.views(), memory_views(memories@))
                == Err::<Seq<ExprView>, _>(x@),
        },
    decreases e, n,
{
    proof {
        lemma_view_args(*e);
    }
    let ghost all = memory_views(memories@);
    let mut front: Vec<Expression> = Vec::new();
    let mut i: usize = 0;
    assert(expr_views(front@) =~= Seq::<ExprView>::empty());
    while i < n
        invariant
            targets.wf(),
            i <= n <= e.args@.len(),
            e@.args == expr_views(e.args@),
            all == memory_views(memories@),
            front@.len() == i,
            pre_rewrite_args(e@, i as int, targets.views(), all) == Ok::<_, ToDaeErrorView>(
                expr_views(front@),
            ),
        decreases n - i,
    {
        match rewrite_pre_expr(&e.args[i], targets, memories) {
            Ok(arg) => {
                proof {
                    lemma_expr_views_push(front@, arg);
                }
                front.push(arg);
            },
            Err(x) => {
                proof {
                    lemma_pre_args_error_stays(e@, i + 1, n as int, targets.views(), all);
                }
                return Err(x);
            },
        }
        i = i + 1;
    }
    Ok(front)
}

/// The left limit of an operand.
fn rewrite_operand_value(
    e: &Expression,
    targets: &NameMap<PreTarget>,
    memories: &Vec<(Expression, Expression)>,
) -> (r: Result<Expression, ToDaeError>)
    requires
        targets.wf(),
    ensures
        rewritten(r, operand_value(e@, targets.views(), memory_views(memories@))),
    decreases e, e.args@.len() + 2,
{
    if is_pre_free(e) {
        return rewrite_pre_expr_value(e, targets);
    }
    match rewrite_pre_expr(e, targets, memories) {
        Ok(current) => rewrite_pre_expr_value(&current, targets),
        Err(x) => Err(x),
    }
}

/// An expression without temporal calls.
pub fn rewrite_pre_expr(
    e: &Expression,
    targets: &NameMap<PreTarget>,
    memories: &Vec<(Expression, Expression)>,
) -> (r: Result<Expression, ToDaeError>)
    requires
        targets.wf(),
    ensures
        rewritten(r, pre_rewrite(e@, targets.views(), memory_views(memories@))),
    decreases e, e.args@.len() + 1,
{
    proof {
        lemma_view_args(*e);
    }
    let n: usize = e.args.len();
    match temporal_call(&e.node) {
        Some(Temporal::Pre) => {
            if n > 0 {
                if let Some(memory) = relation_memory_expr_for_condition(memories, &e.args[0]) {
                    return relation_memory_pre_expr(&memory, e.span);
                }
            }
            match rewrite_operands(e, n, targets, memories) {
                Ok(args) => pre_of_rewritten(args, targets, e.span),
                Err(x) => Err(x),
            }
        },
        Some(Temporal::Edge) => {
            if n == 0 {
                return Ok(make_false(e.span));
            }
            if let Some(memory) = relation_memory_expr_for_condition(memories, &e.args[0]) {
                return match relation_memory_pre_expr(&memory, e.span) {
                    Ok(previous) => Ok(make_rising(memory, previous, e.span)),
                    Err(x) => Err(x),
                };
            }
            match rewrite_pre_expr(&e.args[0], targets, memories) {
                Ok(current) => match rewrite_pre_expr_value(&current, targets) {
                    Ok(previous) => Ok(make_rising(current, previous, e.span)),
                    Err(x) => Err(x),
                },
                Err(x) => Err(x),
            }
        },
        Some(Temporal::Change) => {
            if n == 0 {
                return Ok(make_false(e.span));
            }
            match rewrite_pre_expr(&e.args[0], targets, memories) {
                Ok(current) => match rewrite_operand_value(&e.args[0], targets, memories) {
                    Ok(previous) => Ok(
                        Expression::binary(OpBinary::Neq, current, previous, e.span),
                    ),
                    Err(x) => Err(x),
                },
                Err(x) => Err(x),
            }
        },
        Some(Temporal::Sample) => {
            if n == 1 {
                return rewrite_operand_value(&e.args[0], targets, memories);
            }
            match rewrite_operands(e, n, targets, memories) {
                Ok(args) => Ok(Expression::function_call("__rumoca_sample", args, false, e.span)),
                Err(x) => Err(x),
            }
        },
        Some(Temporal::Previous) => {
            if n > 0 {
                return rewrite_operand_value(&e.args[0], targets, memories);
            }
            let is_constructor: bool = match &e.node {
                Node::FunctionCall { is_constructor, .. } => *is_constructor,
                _ => false,
            };
            let none: Vec<Expression> = Vec::new();
            assert(expr_views(none@) =~= Seq::<ExprView>::empty());
            Ok(Expression::function_call("previous", none, is_constructor, e.span))
        },
        None => {
            if let Node::If = &e.node {
                if let Some(k) = selected_static_if_branch(e) {
                    return rewrite_pre_expr(&e.args[k], targets, memories);
                }
            }
            match rewrite_operands(e, reached_operands(e), targets, memories) {
                Ok(front) => Ok(rebuild(e, front)),
                Err(x) => Err(x),
            }
        },
    }
}

} // verus!
