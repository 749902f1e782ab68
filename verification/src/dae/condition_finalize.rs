//! Declaring the condition variable and putting it in place of the relations
//! that it remembers.
use crate::dae::conditions::{
    condition_index_subscript, condition_reference, condition_subscript, dae_variable_name_exists,
    free_name_from, generated_condition_reference, generated_condition_variable_name, name_taken,
};
use crate::dae::equation::{equation_views, Equation, EquationView};
use crate::dae::error::{ToDaeError, ToDaeErrorView};
use crate::dae::model::{Dae, DaeVariables, DaeView, VariablesView};
use crate::dae::pre_lowering::{build_pre_parameter, passed, pre_parameter, ModelPass};
use crate::dae::pre_rewrite::{make_pre_name, pre_name};
use crate::dae::pre_targets::{index_subscripts, lemma_views_with_named, make_index_subscripts};
use crate::dae::scalar_name::{base_name, component_base_name};
use crate::dae::variable::{Variable, VariableOrigin, VariableView};
use crate::expr::tree::{
    expr_views, expressions_semantically_equal, lemma_expr_views_push, lemma_view_args,
    BuiltinFunction, ExprView, Expression, Literal, LiteralView, Node, NodeView,
};
use crate::ir::name::{ComponentRefPart, ComponentReference, ReferencePartView, ReferenceView};
use crate::ir::name_map::{named, with_named, with_new_name};
use crate::span::Span;
use crate::text::owned;
use vstd::prelude::*;

verus! {

/// The name of the variable that the condition equations define.
pub open spec fn requested_name(equations: Seq<EquationView>) -> Option<Seq<char>> {
    if equations.len() == 0 {
        None
    } else {
        match equations[0].lhs {
            Some(lhs) => Some(
                match base_name(lhs.name) {
                    Some(base) => base,
                    None => lhs.name,
                },
            ),
            None => None,
        }
    }
}

fn condition_variable_name_from_fc(equations: &Vec<Equation>) -> (r: Option<String>)
    ensures
        match r {
            Some(s) => requested_name(equation_views(equations@)) == Some(s@),
            None => requested_name(equation_views(equations@)) is None,
        },
{
    assert(equation_views(equations@).len() == equations@.len());
    if equations.len() == 0 {
        return None;
    }
    assert(equation_views(equations@)[0] == equations@[0]@);
    match &equations[0].lhs {
        Some(lhs) => match component_base_name(lhs.name.as_str()) {
            Some(base) => Some(base),
            None => Some(lhs.name.clone()),
        },
        None => None,
    }
}

/// The error where no name is left for the condition variable.
pub open spec fn no_name_left(span: Span) -> ToDaeErrorView {
    ToDaeErrorView::RuntimeMetadataViolation {
        message: "could not allocate generated condition variable name"@,
        span: Some(span),
    }
}

/// A list of equations on its way through a pass.
pub struct EquationPass {
    pub list: Seq<EquationView>,
    pub error: Option<ToDaeErrorView>,
}

/// The first `n` equations defining elements of `name`, up to the first that has
/// no source position.
pub open spec fn renamed(equations: Seq<EquationView>, name: Seq<char>, n: int) -> EquationPass
    decreases n,
{
    if n <= 0 {
        EquationPass { list: equations, error: None }
    } else {
        let before = renamed(equations, name, n - 1);
        if before.error is Some {
            before
        } else {
            match condition_reference(name, n as nat, equations[n - 1].span) {
                Ok(lhs) => EquationPass {
                    list: before.list.update(
                        n - 1,
                        EquationView { lhs: Some(lhs), ..equations[n - 1] },
                    ),
                    error: None,
                },
                Err(x) => EquationPass { list: before.list, error: Some(x) },
            }
        }
    }
}

proof fn lemma_renamed(equations: Seq<EquationView>, name: Seq<char>, n: int)
    requires
        0 <= n <= equations.len(),
    ensures
        renamed(equations, name, n).list.len() == equations.len(),
        forall|i: int|
            n <= i < equations.len() ==> #[trigger] renamed(equations, name, n).list[i]
                == equations[i],
    decreases n,
{
    if n > 0 {
        lemma_renamed(equations, name, n - 1);
    }
}

proof fn lemma_renaming_stops(equations: Seq<EquationView>, name: Seq<char>, k: int, n: int)
    requires
        0 <= k <= n,
        renamed(equations, name, k).error is Some,
    ensures
        renamed(equations, name, n) == renamed(equations, name, k),
    decreases n,
{
    if k < n {
        lemma_renaming_stops(equations, name, k, n - 1);
    }
}

fn rename_condition_equations(equations: &mut Vec<Equation>, name: &str) -> (r: Result<
    (),
    ToDaeError,
>)
    ensures
        ({
            let pass = renamed(
                equation_views(old(equations)@),
                name@,
                old(equations)@.len() as int,
            );
            &&& equation_views(final(equations)@) == pass.list
            &&& match r {
                Ok(()) => pass.error is None,
                Err(x) => pass.error == Some(x@),
            }
        }),
{
    let ghost first = equation_views(equations@);
    let mut i: usize = 0;
    while i < equations.len()
        invariant
            first == equation_views(old(equations)@),
            equations@.len() == first.len(),
            i <= equations@.len(),
            renamed(first, name@, i as int).error is None,
            equation_views(equations@) == renamed(first, name@, i as int).list,
        decreases equations.len() - i,
    {
        proof {
            lemma_renamed(first, name@, i as int);
            assert(equation_views(equations@)[i as int] == equations@[i as int]@);
        }
        match generated_condition_reference(name, i + 1, equations[i].span) {
            Ok(lhs) => {
                let ghost before = equation_views(equations@);
                let ghost content = lhs@;
                equations[i].lhs = Some(lhs);
                assert(equation_views(equations@) =~= before.update(
                    i as int,
                    EquationView { lhs: Some(content), ..before[i as int] },
                ));
            },
            Err(x) => {
                proof {
                    lemma_renaming_stops(first, name@, i + 1, first.len() as int);
                }
                return Err(x);
            },
        }
        i = i + 1;
    }
    Ok(())
}

/// The condition variable: a truth value for each relation, all false at first.
pub open spec fn condition_variable(name: Seq<char>, count: nat, span: Span) -> VariableView {
    let falsity = ExprView {
        node: NodeView::Literal(LiteralView::Boolean(false)),
        args: Seq::empty(),
        span,
    };
    VariableView {
        name,
        component_ref: Some(
            ReferenceView {
                local: false,
                parts: seq![ReferencePartView { ident: name, subs: Seq::empty(), span }],
                def_id: None,
                span,
            },
        ),
        dims: seq![count as i64],
        start: Some(
            ExprView {
                node: NodeView::Array { is_matrix: false },
                args: Seq::new(count, |i: int| falsity),
                span,
            },
        ),
        start_span: Some(span),
        origin: VariableOrigin::Generated,
        ..VariableView::blank(span)
    }
}

fn generated_single_part_ref(ident: &str, span: Span) -> (r: ComponentReference)
    ensures
        r@ == (ReferenceView {
            local: false,
            parts: seq![ReferencePartView { ident: ident@, subs: Seq::empty(), span }],
            def_id: None,
            span,
        }),
{
    let none: Vec<i64> = Vec::new();
    assert(none@ =~= Seq::<i64>::empty());
    let mut parts: Vec<ComponentRefPart> = Vec::new();
    parts.push(ComponentRefPart { ident: owned(ident), subs: none, span });
    let r = ComponentReference { local: false, parts, def_id: None, span };
    assert(r@.parts =~= seq![ReferencePartView { ident: ident@, subs: Seq::empty(), span }]);
    r
}

fn build_condition_variable(name: &str, count: usize, span: Span) -> (v: Variable)
    ensures
        v@ == condition_variable(name@, count as nat, span),
{
    let ghost wanted = condition_variable(name@, count as nat, span);
    let mut elements: Vec<Expression> = Vec::new();
    let mut i: usize = 0;
    assert(expr_views(elements@) =~= wanted.start->0.args.take(0));
    while i < count
        invariant
            i <= count,
            wanted == condition_variable(name@, count as nat, span),
            expr_views(elements@) == wanted.start->0.args.take(i as int),
        decreases count - i,
    {
        let e = Expression::literal(Literal::Boolean(false), span);
        proof {
            lemma_expr_views_push(elements@, e);
        }
        elements.push(e);
        i = i + 1;
        assert(expr_views(elements@) =~= wanted.start->0.args.take(i as int));
    }
    assert(wanted.start->0.args.take(i as int) =~= wanted.start->0.args);
    let mut dims: Vec<i64> = Vec::new();
    dims.push(count as i64);
    assert(dims@ =~= wanted.dims);
    let mut v = Variable::empty_with_span(span);
    v.name = owned(name);
    v.component_ref = Some(generated_single_part_ref(name, span));
    v.dims = dims;
    v.start = Some(Expression::new(Node::Array { is_matrix: false }, elements, span));
    v.start_span = Some(span);
    v.origin = VariableOrigin::Generated;
    v
}

/// The variables with the condition variable and the parameter for its left
/// limit.
pub open spec fn with_condition_variable(
    vars: VariablesView,
    name: Seq<char>,
    count: nat,
    span: Span,
) -> VariablesView {
    let variable = condition_variable(name, count, span);
    VariablesView {
        discrete_valued: with_named(vars.discrete_valued, name, variable),
        parameters: with_new_name(
            vars.parameters,
            pre_name(name),
            pre_parameter(variable, name),
        ),
        ..vars
    }
}

fn declare_condition_variable(vars: &mut DaeVariables, name: &str, count: usize, span: Span)
    requires
        old(vars).wf(),
    ensures
        final(vars).wf(),
        final(vars)@ == with_condition_variable(old(vars)@, name@, count as nat, span),
{
    let variable = build_condition_variable(name, count, span);
    let parameter = build_pre_parameter(&variable, name);
    let pre = make_pre_name(name);
    let ghost valued = vars.discrete_valued;
    let ghost content = variable;
    vars.discrete_valued.insert(name, variable);
    proof {
        lemma_views_with_named(valued, vars.discrete_valued, name@, content);
        vars.parameters.lemma_views(pre@);
    }
    let ghost before = vars.parameters;
    let ghost added = parameter;
    vars.parameters.insert_if_absent(pre.as_str(), parameter);
    proof {
        if !named(before.entries(), pre@) {
            assert(vars.parameters.views() =~= before.views().push((pre@, added@)));
        }
    }
}

/// The first relation, from the first `n`, that is `e` but for source
/// positions.
pub open spec fn matching_relation(e: ExprView, relations: Seq<ExprView>, n: int) -> Option<int>
    decreases n,
{
    if n <= 0 {
        None
    } else {
        match matching_relation(e, relations, n - 1) {
            Some(i) => Some(i),
            None => if relations[n - 1].unplaced() == e.unplaced() {
                Some(n - 1)
            } else {
                None
            },
        }
    }
}

/// The source position of condition `i`, or that of the relation in its place.
pub open spec fn replacement_span(i: int, spans: Seq<Span>, own: Span) -> Span {
    if i < spans.len() && spans[i] != Span::dummy_spec() {
        spans[i]
    } else {
        own
    }
}

/// An expression and the last error on the way.
pub struct Replaced {
    pub expr: ExprView,
    pub error: Option<ToDaeErrorView>,
}

/// The condition variable in place of a relation; where it cannot be named the
/// relation stays.
pub open spec fn replacement(e: ExprView, i: int, spans: Seq<Span>, name: Seq<char>) -> Replaced {
    let span = replacement_span(i, spans, e.span);
    match condition_subscript(
        (i + 1) as nat,
        span,
        "canonical condition variable reference"@,
    ) {
        Ok(index) => Replaced {
            expr: ExprView {
                node: NodeView::VarRef { name },
                args: index_subscripts(seq![index], span),
                span,
            },
            error: None,
        },
        Err(x) => Replaced { expr: e, error: Some(x) },
    }
}

/// The relation that a node is, where events are not suppressed.
pub open spec fn event_relation(e: ExprView, relations: Seq<ExprView>, suppressed: bool) -> Option<
    int,
> {
    match e.node {
        NodeView::Binary(op) => if !suppressed && op.relational() {
            matching_relation(e, relations, relations.len() as int)
        } else {
            None
        },
        _ => None,
    }
}

/// An expression with the condition variable in place of its relations, but
/// where events are suppressed.
pub open spec fn replace_relations(
    e: ExprView,
    relations: Seq<ExprView>,
    spans: Seq<Span>,
    name: Seq<char>,
    suppressed: bool,
) -> Replaced
    decreases e, e.args.len() + 1,
{
    match event_relation(e, relations, suppressed) {
        Some(i) => replacement(e, i, spans, name),
        None => {
            let inside = suppressed || e.node == NodeView::BuiltinCall(BuiltinFunction::NoEvent);
            let (args, error) = replace_operands(
                e,
                e.args.len() as int,
                relations,
                spans,
                name,
                inside,
            );
            Replaced { expr: ExprView { args, ..e }, error }
        },
    }
}

/// The first `n` operands with the condition variable in place of relations, and
/// the last error.
pub open spec fn replace_operands(
    e: ExprView,
    n: int,
    relations: Seq<ExprView>,
    spans: Seq<Span>,
    name: Seq<char>,
    suppressed: bool,
) -> (Seq<ExprView>, Option<ToDaeErrorView>)
    decreases e, n,
{
    if n <= 0 || n > e.args.len() {
        (Seq::empty(), None)
    } else {
        let (front, error) = replace_operands(e, n - 1, relations, spans, name, suppressed);
        let next = replace_relations(e.args[n - 1], relations, spans, name, suppressed);
        (
            front.push(next.expr),
            match next.error {
                Some(x) => Some(x),
                None => error,
            },
        )
    }
}

proof fn lemma_match_stays(e: ExprView, relations: Seq<ExprView>, k: int, n: int)
    requires
        0 <= k <= n,
        matching_relation(e, relations, k) is Some,
    ensures
        matching_relation(e, relations, n) == matching_relation(e, relations, k),
    decreases n,
{
    if k < n {
        lemma_match_stays(e, relations, k, n - 1);
    }
}

fn matching_relation_index(e: &Expression, relations: &Vec<Expression>) -> (r: Option<usize>)
    ensures
        match r {
            Some(i) => i < relations@.len() && matching_relation(
                e@,
                expr_views(relations@),
                relations@.len() as int,
            ) == Some(i as int),
            None => matching_relation(e@, expr_views(relations@), relations@.len() as int) is None,
        },
{
    let ghost list = expr_views(relations@);
    let mut i: usize = 0;
    while i < relations.len()
        invariant
            i <= relations@.len(),
            list == expr_views(relations@),
            matching_relation(e@, list, i as int) is None,
        decreases relations.len() - i,
    {
        assert(list[i as int] == relations@[i as int]@);
        if expressions_semantically_equal(&relations[i], e) {
            proof {
                lemma_match_stays(e@, list, i + 1, list.len() as int);
            }
            return Some(i);
        }
        i = i + 1;
    }
    None
}

fn condition_replacement(e: &Expression, i: usize, spans: &Vec<Span>, name: &str) -> (r: (
    Expression,
    Option<ToDaeError>,
))
    requires
        i < usize::MAX,
    ensures
        r.0@ == replacement(e@, i as int, spans@, name@).expr,
        match r.1 {
            Some(x) => replacement(e@, i as int, spans@, name@).error == Some(x@),
            None => replacement(e@, i as int, spans@, name@).error is None,
        },
{
    proof {
        lemma_view_args(*e);
    }
    let span: Span = if i < spans.len() && !spans[i].is_dummy() {
        spans[i]
    } else {
        e.span
    };
    match condition_index_subscript(i + 1, span, "canonical condition variable reference") {
        Ok(index) => {
            let mut subs: Vec<i64> = Vec::new();
            subs.push(index);
            assert(subs@ =~= seq![index]);
            (Expression::var_ref(name, make_index_subscripts(&subs, span), span), None)
        },
        Err(x) => (e.clone(), Some(x)),
    }
}

/// An expression with the condition variable in place of its relations, and the
/// last error on the way.
pub fn rewrite_conditions_in(
    e: &Expression,
    relations: &Vec<Expression>,
    spans: &Vec<Span>,
    name: &str,
    suppressed: bool,
) -> (r: (Expression, Option<ToDaeError>))
    ensures
        ({
            let expected = replace_relations(
                e@,
                expr_views(relations@),
                spans@,
                name@,
                suppressed,
            );
            &&& r.0@ == expected.expr
            &&& match r.1 {
                Some(x) => expected.error == Some(x@),
                None => expected.error is None,
            }
        }),
    decreases e,
{
    proof {
        lemma_view_args(*e);
    }
    let ghost list = expr_views(relations@);
    if let Node::Binary(op) = &e.node {
        if !suppressed && op.is_relational() {
            if let Some(i) = matching_relation_index(e, relations) {
                assert(i < relations.len());
                return condition_replacement(e, i, spans, name);
            }
        }
    }
    let inside: bool = suppressed || match &e.node {
        Node::BuiltinCall(function) => *function == BuiltinFunction::NoEvent,
        _ => false,
    };
    let mut args: Vec<Expression> = Vec::new();
    let mut error: Option<ToDaeError> = None;
    let mut i: usize = 0;
    assert(expr_views(args@) =~= Seq::<ExprView>::empty());
    while i < e.args.len()
        invariant
            i <= e.args@.len(),
            e@.args == expr_views(e.args@),
            list == expr_views(relations@),
            ({
                let done = replace_operands(e@, i as int, list, spans@, name@, inside);
                &&& expr_views(args@) == done.0
                &&& match error {
                    Some(x) => done.1 == Some(x@),
                    None => done.1 is None,
                }
            }),
        decreases e.args.len() - i,
    {
        let (arg, failed) = rewrite_conditions_in(&e.args[i], relations, spans, name, inside);
        proof {
            lemma_expr_views_push(args@, arg);
        }
        args.push(arg);
        if let Some(x) = failed {
            error = Some(x);
        }
        i = i + 1;
    }
    (Expression::new(e.node.clone(), args, e.span), error)
}

/// The first `n` equations with the condition variable in place of relations, up
/// to and with the first where that fails.
pub open spec fn replaced_equations(
    equations: Seq<EquationView>,
    relations: Seq<ExprView>,
    spans: Seq<Span>,
    name: Seq<char>,
    n: int,
) -> EquationPass
    decreases n,
{
    if n <= 0 {
        EquationPass { list: equations, error: None }
    } else {
        let before = replaced_equations(equations, relations, spans, name, n - 1);
        if before.error is Some {
            before
        } else {
            let next = replace_relations(equations[n - 1].rhs, relations, spans, name, false);
            EquationPass {
                list: before.list.update(
                    n - 1,
                    EquationView { rhs: next.expr, ..equations[n - 1] },
                ),
                error: next.error,
            }
        }
    }
}

proof fn lemma_replaced(
    equations: Seq<EquationView>,
    relations: Seq<ExprView>,
    spans: Seq<Span>,
    name: Seq<char>,
    n: int,
)
    requires
        0 <= n <= equations.len(),
    ensures
        replaced_equations(equations, relations, spans, name, n).list.len() == equations.len(),
        forall|i: int|
            n <= i < equations.len() ==> #[trigger] replaced_equations(
                equations,
                relations,
                spans,
                name,
                n,
            ).list[i] == equations[i],
    decreases n,
{
    if n > 0 {
        lemma_replaced(equations, relations, spans, name, n - 1);
    }
}

proof fn lemma_replacing_stops(
    equations: Seq<EquationView>,
    relations: Seq<ExprView>,
    spans: Seq<Span>,
    name: Seq<char>,
    k: int,
    n: int,
)
    requires
        0 <= k <= n,
        replaced_equations(equations, relations, spans, name, k).error is Some,
    ensures
        replaced_equations(equations, relations, spans, name, n) == replaced_equations(
            equations,
            relations,
            spans,
            name,
            k,
        ),
    decreases n,
{
    if k < n {
        lemma_replacing_stops(equations, relations, spans, name, k, n - 1);
    }
}

fn rewrite_continuous_event_conditions(
    equations: &mut Vec<Equation>,
    relations: &Vec<Expression>,
    spans: &Vec<Span>,
    name: &str,
) -> (r: Result<(), ToDaeError>)
    ensures
        ({
            let pass = replaced_equations(
                equation_views(old(equations)@),
                expr_views(relations@),
                spans@,
                name@,
                old(equations)@.len() as int,
            );
            &&& equation_views(final(equations)@) == pass.list
            &&& match r {
                Ok(()) => pass.error is None,
                Err(x) => pass.error == Some(x@),
            }
        }),
{
    let ghost first = equation_views(equations@);
    let ghost list = expr_views(relations@);
    let mut i: usize = 0;
    while i < equations.len()
        invariant
            first == equation_views(old(equations)@),
            list == expr_views(relations@),
            equations@.len() == first.len(),
            i <= equations@.len(),
            replaced_equations(first, list, spans@, name@, i as int).error is None,
            equation_views(equations@) == replaced_equations(
                first,
                list,
                spans@,
                name@,
                i as int,
            ).list,
        decreases equations.len() - i,
    {
        proof {
            lemma_replaced(first, list, spans@, name@, i as int);
            assert(equation_views(equations@)[i as int] == equations@[i as int]@);
        }
        let (rhs, failed) = rewrite_conditions_in(
            &equations[i].rhs,
            relations,
            spans,
            name,
            false,
        );
        let ghost before = equation_views(equations@);
        let ghost content = rhs@;
        equations[i].rhs = rhs;
        assert(equation_views(equations@) =~= before.update(
            i as int,
            EquationView { rhs: content, ..before[i as int] },
        ));
        if let Some(x) = failed {
            proof {
                lemma_replacing_stops(first, list, spans@, name@, i + 1, first.len() as int);
            }
            return Err(x);
        }
        i = i + 1;
    }
    Ok(())
}

/// The source positions of a list of equations.
pub open spec fn spans_of(equations: Seq<EquationView>) -> Seq<Span> {
    equations.map_values(|e: EquationView| e.span)
}

fn equation_spans(equations: &Vec<Equation>) -> (spans: Vec<Span>)
    ensures
        spans@ == spans_of(equation_views(equations@)),
{
    let ghost wanted = spans_of(equation_views(equations@));
    let mut spans: Vec<Span> = Vec::new();
    let mut i: usize = 0;
    assert(spans@ =~= wanted.take(0));
    while i < equations.len()
        invariant
            i <= equations@.len(),
            wanted == spans_of(equation_views(equations@)),
            spans@ == wanted.take(i as int),
        decreases equations.len() - i,
    {
        assert(wanted[i as int] == equations@[i as int].span);
        spans.push(equations[i].span);
        i = i + 1;
        assert(spans@ =~= wanted.take(i as int));
    }
    assert(wanted.take(i as int) =~= wanted);
    spans
}

/// The final name of the condition variable: the requested one where it is
/// free, else the first generated one that is.
pub open spec fn final_name(vars: VariablesView, requested: Seq<char>) -> Option<Seq<char>> {
    if name_taken(vars, requested) {
        free_name_from(vars, 0)
    } else {
        Some(requested)
    }
}

/// A model whose condition variable is declared and stands in place of the
/// relations of the continuous equations. Where something fails, what was done
/// before stays done.
pub open spec fn with_final_conditions(m: DaeView) -> ModelPass {
    match requested_name(m.condition_equations) {
        None => ModelPass { model: m, error: None },
        Some(requested) => {
            let owner = m.condition_equations[0].span;
            match final_name(m.variables, requested) {
                None => ModelPass { model: m, error: Some(no_name_left(owner)) },
                Some(name) => {
                    let conditions = renamed(
                        m.condition_equations,
                        name,
                        m.condition_equations.len() as int,
                    );
                    let m1 = DaeView { condition_equations: conditions.list, ..m };
                    if conditions.error is Some {
                        ModelPass { model: m1, error: conditions.error }
                    } else {
                        let m2 = DaeView {
                            variables: with_condition_variable(
                                m.variables,
                                name,
                                m.relations.len(),
                                owner,
                            ),
                            ..m1
                        };
                        if m.relations.len() == 0 {
                            ModelPass { model: m2, error: None }
                        } else {
                            let continuous = replaced_equations(
                                m.continuous,
                                m.relations,
                                spans_of(conditions.list),
                                name,
                                m.continuous.len() as int,
                            );
                            ModelPass {
                                model: DaeView { continuous: continuous.list, ..m2 },
                                error: continuous.error,
                            }
                        }
                    }
                },
            }
        },
    }
}

/// Whether two systems agree on all that the conditions do not touch.
pub open spec fn same_outside_conditions(a: Dae, b: Dae) -> bool {
    &&& a.schema_version == b.schema_version
    &&& a.initialization == b.initialization
    &&& a.discrete == b.discrete
    &&& a.conditions.relations == b.conditions.relations
    &&& a.events == b.events
    &&& a.clocks == b.clocks
    &&& a.symbols == b.symbols
    &&& a.metadata == b.metadata
}

/// Declares the condition variable, with a free name, and puts it in place of
/// the relations of the continuous equations.
pub fn finalize_canonical_condition_variables(dae: &mut Dae) -> (r: Result<(), ToDaeError>)
    requires
        old(dae).wf(),
    ensures
        final(dae).wf(),
        same_outside_conditions(*final(dae), *old(dae)),
        passed(r, final(dae)@, with_final_conditions(old(dae)@)),
{
    let requested = match condition_variable_name_from_fc(&dae.conditions.equations) {
        Some(name) => name,
        None => {
            return Ok(());
        },
    };
    assert(dae@.condition_equations[0] == dae.conditions.equations@[0]@);
    let owner: Span = dae.conditions.equations[0].span;
    let name: String = if dae_variable_name_exists(&dae.variables, requested.as_str()) {
        match generated_condition_variable_name(&dae.variables) {
            Some(name) => name,
            None => {
                return Err(
                    ToDaeError::RuntimeMetadataViolation {
                        message: owned("could not allocate generated condition variable name"),
                        span: Some(owner),
                    },
                );
            },
        }
    } else {
        requested
    };
    if let Err(x) = rename_condition_equations(&mut dae.conditions.equations, name.as_str()) {
        return Err(x);
    }
    let count: usize = dae.conditions.relations.len();
    declare_condition_variable(&mut dae.variables, name.as_str(), count, owner);
    assert(dae@.relations.len() == count);
    if count == 0 {
        return Ok(());
    }
    let spans = equation_spans(&dae.conditions.equations);
    rewrite_continuous_event_conditions(
        &mut dae.continuous.equations,
        &dae.conditions.relations,
        &spans,
        name.as_str(),
    )
}

} // verus!
