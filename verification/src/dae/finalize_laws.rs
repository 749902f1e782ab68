//! What putting the condition variable in place of relations comes to.
use crate::dae::condition_finalize::{
    condition_variable, final_name, matching_relation, renamed, replace_operands,
    replace_relations, replaced_equations, requested_name, spans_of, with_final_conditions,
};
use crate::dae::condition_laws::is_comparison;
use crate::dae::conditions::{conflicts, lemma_free_name, name_taken, partition_conflicts};
use crate::dae::equation::EquationView;
use crate::dae::meaning::{
    choice, lemma_operands, meaning, operand_level, operands, Value, World,
};
use crate::dae::meaning_laws::looks_back;
use crate::dae::model::{DaeView, VariablesView};
use crate::dae::pre_targets::index_subscripts;
use crate::dae::variable::VariableView;
use crate::expr::tree::{BuiltinFunction, ExprView, LiteralView, NodeView};
use crate::ir::name_map::{named, Named};
use crate::span::Span;
use vstd::prelude::*;

verus! {

/// Whether no call in an expression looks across an event.
pub open spec fn looks_nowhere(e: ExprView) -> bool
    decreases e,
{
    &&& !looks_back(e.node)
    &&& forall|i: int| 0 <= i < e.args.len() ==> looks_nowhere(#[trigger] e.args[i])
}

/// The value of element `i` of a variable.
pub open spec fn element_value(w: World, name: Seq<char>, i: i64) -> Value {
    meaning(
        ExprView {
            node: NodeView::VarRef { name },
            args: index_subscripts(seq![i], Span::dummy_spec()),
            span: Span::dummy_spec(),
        },
        w,
        0,
    )
}

/// Whether a world is one in which element `i + 1` of a variable is as relation `i` is.
pub open spec fn mirrors(w: World, relations: Seq<ExprView>, name: Seq<char>) -> bool {
    forall|i: int|
        0 <= i < relations.len() && i < i64::MAX ==> meaning(#[trigger] relations[i], w, 0)
            == element_value(w, name, (i + 1) as i64)
}

/// Whether an expression is element `i` of a variable.
pub open spec fn is_element(e: ExprView, name: Seq<char>, i: int) -> bool {
    &&& e.node == (NodeView::VarRef { name })
    &&& e.args.len() == 1
    &&& e.args[0].node matches NodeView::SubscriptIndex(v) && v == i
    &&& e.args[0].args.len() == 0
}

proof fn lemma_same_choice(a: ExprView, b: ExprView, w: World, c: int)
    requires
        a.node == b.node,
        a.args.len() == b.args.len(),
        forall|i: int|
            0 <= i < a.args.len() ==> meaning(#[trigger] a.args[i], w, 0) == meaning(
                b.args[i],
                w,
                0,
            ),
        0 <= c,
    ensures
        choice(a, w, 0, c) == choice(b, w, 0, c),
    decreases a.args.len() - c,
{
    let n = a.args.len();
    if n > 0 {
        assert(meaning(a.args[n - 1], w, 0) == meaning(b.args[n - 1], w, 0));
        if c + 1 < n {
            assert(meaning(a.args[c], w, 0) == meaning(b.args[c], w, 0));
            assert(meaning(a.args[c + 1], w, 0) == meaning(b.args[c + 1], w, 0));
            lemma_same_choice(a, b, w, c + 2);
        }
    }
}

/// Where nothing looks across an event, an expression means what its node makes of the
/// values of its operands.
proof fn lemma_congruent(a: ExprView, b: ExprView, w: World)
    requires
        a.node == b.node,
        !looks_back(a.node),
        a.args.len() == b.args.len(),
        forall|i: int|
            0 <= i < a.args.len() ==> meaning(#[trigger] a.args[i], w, 0) == meaning(
                b.args[i],
                w,
                0,
            ),
    ensures
        meaning(a, w, 0) == meaning(b, w, 0),
{
    let n = a.args.len() as int;
    lemma_operands(a, w, 0, n);
    lemma_operands(b, w, 0, n);
    let va = operands(a, w, 0, n);
    let vb = operands(b, w, 0, n);
    assert forall|i: int| 0 <= i < n implies #[trigger] va[i] == vb[i] by {
        assert(operand_level(a, i, 0) == 0);
        assert(operand_level(b, i, 0) == 0);
        assert(meaning(a.args[i], w, 0) == meaning(b.args[i], w, 0));
    }
    assert(va =~= vb);
    if n > 0 {
        assert(meaning(a.args[0], w, 0) == meaning(b.args[0], w, 0));
    }
    if n > 1 {
        assert(meaning(a.args[1], w, 0) == meaning(b.args[1], w, 0));
    }
    if a.node is If {
        lemma_same_choice(a, b, w, 0);
    }
}

/// Where nothing looks across an event, expressions that differ in their source positions
/// alone mean the same.
pub proof fn law_positions_mean_nothing(a: ExprView, b: ExprView, w: World)
    requires
        a.unplaced() == b.unplaced(),
        looks_nowhere(a),
    ensures
        meaning(a, w, 0) == meaning(b, w, 0),
    decreases a,
{
    assert(a.unplaced().args.len() == a.args.len());
    assert(b.unplaced().args.len() == b.args.len());
    assert forall|i: int| 0 <= i < a.args.len() implies meaning(#[trigger] a.args[i], w, 0)
        == meaning(b.args[i], w, 0) by {
        assert(a.unplaced().args[i] == a.args[i].unplaced());
        assert(b.unplaced().args[i] == b.args[i].unplaced());
        law_positions_mean_nothing(a.args[i], b.args[i], w);
    }
    lemma_congruent(a, b, w);
}

proof fn lemma_matching(e: ExprView, relations: Seq<ExprView>, n: int)
    requires
        0 <= n <= relations.len(),
    ensures
        matching_relation(e, relations, n) matches Some(i) ==> 0 <= i < n
            && relations[i].unplaced() == e.unplaced(),
        matching_relation(e, relations, n) is None ==> forall|i: int|
            0 <= i < n ==> (#[trigger] relations[i]).unplaced() != e.unplaced(),
    decreases n,
{
    if n > 0 {
        lemma_matching(e, relations, n - 1);
    }
}

proof fn lemma_operands_replaced(
    e: ExprView,
    n: int,
    relations: Seq<ExprView>,
    spans: Seq<Span>,
    name: Seq<char>,
    suppressed: bool,
)
    requires
        0 <= n <= e.args.len(),
    ensures
        replace_operands(e, n, relations, spans, name, suppressed).0.len() == n,
        forall|i: int|
            0 <= i < n ==> #[trigger] replace_operands(e, n, relations, spans, name, suppressed).0[i]
                == replace_relations(e.args[i], relations, spans, name, suppressed).expr,
        replace_operands(e, n, relations, spans, name, suppressed).1 is None ==> forall|i: int|
            0 <= i < n ==> replace_relations(
                #[trigger] e.args[i],
                relations,
                spans,
                name,
                suppressed,
            ).error is None,
    decreases n,
{
    if n > 0 {
        lemma_operands_replaced(e, n - 1, relations, spans, name, suppressed);
    }
}

/// A comparison that is one of the relations, wherever it stands in the source, becomes
/// the element of the condition variable in the place of that relation; any other
/// expression keeps its node, with its operands replaced; and inside `noEvent` nothing
/// is replaced.
pub proof fn law_relations_become_conditions(
    e: ExprView,
    relations: Seq<ExprView>,
    spans: Seq<Span>,
    name: Seq<char>,
    suppressed: bool,
)
    requires
        replace_relations(e, relations, spans, name, suppressed).error is None,
    ensures
        ({
            let after = replace_relations(e, relations, spans, name, suppressed).expr;
            let found = exists|i: int|
                0 <= i < relations.len() && (#[trigger] relations[i]).unplaced() == e.unplaced();
            let quiet = e.node == NodeView::BuiltinCall(BuiltinFunction::NoEvent);
            &&& suppressed ==> after == e
            &&& !suppressed && is_comparison(e) && found ==> exists|i: int|
                0 <= i < relations.len() && (#[trigger] relations[i]).unplaced() == e.unplaced()
                    && is_element(after, name, i + 1)
            &&& !suppressed && !(is_comparison(e) && found) ==> {
                &&& after.node == e.node
                &&& after.span == e.span
                &&& after.args.len() == e.args.len()
                &&& forall|i: int|
                    0 <= i < e.args.len() ==> #[trigger] after.args[i] == if quiet {
                        e.args[i]
                    } else {
                        replace_relations(e.args[i], relations, spans, name, false).expr
                    }
            }
        }),
    decreases e,
{
    let n = e.args.len() as int;
    lemma_matching(e, relations, relations.len() as int);
    let inside = suppressed || e.node == NodeView::BuiltinCall(BuiltinFunction::NoEvent);
    lemma_operands_replaced(e, n, relations, spans, name, inside);
    let args = replace_operands(e, n, relations, spans, name, inside).0;
    if inside && !(is_comparison(e) && !suppressed) {
        assert forall|i: int| 0 <= i < n implies #[trigger] args[i] == e.args[i] by {
            law_relations_become_conditions(e.args[i], relations, spans, name, true);
        }
        assert(args =~= e.args);
    }
}

/// Putting the condition variable in place of relations keeps what an expression means,
/// in every world in which its elements are as the relations are.
pub proof fn law_conditions_keep_meaning(
    e: ExprView,
    relations: Seq<ExprView>,
    spans: Seq<Span>,
    name: Seq<char>,
    suppressed: bool,
    w: World,
)
    requires
        looks_nowhere(e),
        mirrors(w, relations, name),
    ensures
        meaning(replace_relations(e, relations, spans, name, suppressed).expr, w, 0) == meaning(
            e,
            w,
            0,
        ),
    decreases e,
{
    let n = e.args.len() as int;
    let after = replace_relations(e, relations, spans, name, suppressed).expr;
    lemma_matching(e, relations, relations.len() as int);
    let inside = suppressed || e.node == NodeView::BuiltinCall(BuiltinFunction::NoEvent);
    lemma_operands_replaced(e, n, relations, spans, name, inside);
    let found = crate::dae::condition_finalize::event_relation(e, relations, suppressed);
    if let Some(i) = found {
        law_positions_mean_nothing(e, relations[i], w);
        if after.node is VarRef && !(e.node is VarRef) {
            let element = ExprView {
                node: NodeView::VarRef { name },
                args: index_subscripts(seq![(i + 1) as i64], Span::dummy_spec()),
                span: Span::dummy_spec(),
            };
            assert forall|j: int| 0 <= j < after.args.len() implies meaning(
                #[trigger] after.args[j],
                w,
                0,
            ) == meaning(element.args[j], w, 0) by {
                assert(after.args[j].node == element.args[j].node);
            }
            lemma_congruent(after, element, w);
            assert(meaning(relations[i], w, 0) == element_value(w, name, (i + 1) as i64));
        }
    } else {
        assert forall|i: int| 0 <= i < n implies meaning(#[trigger] after.args[i], w, 0)
            == meaning(e.args[i], w, 0) by {
            law_conditions_keep_meaning(e.args[i], relations, spans, name, inside, w);
        }
        lemma_congruent(after, e, w);
    }
}

/// Whether an equation defines element `i` of a variable.
pub open spec fn defines_element(eq: EquationView, name: Seq<char>, i: int) -> bool {
    &&& eq.lhs is Some
    &&& (eq.lhs->0).component_ref is Some
    &&& {
        let parts = ((eq.lhs->0).component_ref->0).parts;
        &&& parts.len() == 1
        &&& parts[0].ident == name
        &&& parts[0].subs.len() == 1
        &&& parts[0].subs[0] == i
    }
}

/// Whether a variable has a truth value for each of some relations, all false at first.
pub open spec fn is_condition(v: VariableView, name: Seq<char>, count: nat) -> bool {
    &&& v.name == name
    &&& v.dims == seq![count as i64]
    &&& v.start is Some
    &&& (v.start->0).args.len() == count
    &&& forall|i: int|
        0 <= i < count ==> (#[trigger] (v.start->0).args[i]).node == NodeView::Literal(
            LiteralView::Boolean(false),
        )
}

proof fn lemma_renamed_elements(equations: Seq<EquationView>, name: Seq<char>, n: int)
    requires
        0 <= n <= equations.len(),
        renamed(equations, name, n).error is None,
    ensures
        renamed(equations, name, n).list.len() == equations.len(),
        forall|i: int|
            0 <= i < n ==> defines_element(
                #[trigger] renamed(equations, name, n).list[i],
                name,
                i + 1,
            ),
        forall|i: int|
            0 <= i < equations.len() ==> (EquationView {
                lhs: equations[i].lhs,
                ..#[trigger] renamed(equations, name, n).list[i]
            }) == equations[i],
    decreases n,
{
    if n > 0 {
        lemma_renamed_elements(equations, name, n - 1);
        let before = renamed(equations, name, n - 1).list;
        let after = renamed(equations, name, n).list;
        assert forall|i: int| 0 <= i < n implies defines_element(
            #[trigger] after[i],
            name,
            i + 1,
        ) by {
            if i < n - 1 {
                assert(after[i] == before[i]);
            }
        }
        assert forall|i: int| 0 <= i < equations.len() implies (EquationView {
            lhs: equations[i].lhs,
            ..#[trigger] after[i]
        }) == equations[i] by {
            if i != n - 1 {
                assert(after[i] == before[i]);
            }
        }
    }
}

proof fn lemma_equations_replaced(
    equations: Seq<EquationView>,
    relations: Seq<ExprView>,
    spans: Seq<Span>,
    name: Seq<char>,
    n: int,
)
    requires
        0 <= n <= equations.len(),
        replaced_equations(equations, relations, spans, name, n).error is None,
    ensures
        replaced_equations(equations, relations, spans, name, n).list.len() == equations.len(),
        forall|i: int|
            n <= i < equations.len() ==> #[trigger] replaced_equations(
                equations,
                relations,
                spans,
                name,
                n,
            ).list[i] == equations[i],
        forall|i: int|
            0 <= i < n ==> {
                let next = replace_relations(equations[i].rhs, relations, spans, name, false);
                next.error is None && #[trigger] replaced_equations(
                    equations,
                    relations,
                    spans,
                    name,
                    n,
                ).list[i] == (EquationView { rhs: next.expr, ..equations[i] })
            },
    decreases n,
{
    if n > 0 {
        lemma_equations_replaced(equations, relations, spans, name, n - 1);
    }
}

/// Whether a model has its conditions in a variable: the variable has an element for each
/// relation and its left limit a parameter, condition equation `i` defines element
/// `i + 1` and is otherwise as it was, and so are the continuous equations, but that in
/// every world in which the elements are as the relations are they mean the same.
pub open spec fn has_conditions_in(m: DaeView, after: DaeView, name: Seq<char>) -> bool {
    let count = m.relations.len();
    &&& !in_the_way(m.variables, name)
    &&& after.relations == m.relations
    &&& exists|i: int|
        0 <= i < after.variables.discrete_valued.len() && (
        #[trigger] after.variables.discrete_valued[i]).0 == name && is_condition(
            after.variables.discrete_valued[i].1,
            name,
            count,
        )
    &&& after.condition_equations.len() == m.condition_equations.len()
    &&& forall|i: int|
        0 <= i < m.condition_equations.len() ==> defines_element(
            #[trigger] after.condition_equations[i],
            name,
            i + 1,
        ) && (EquationView { lhs: m.condition_equations[i].lhs, ..after.condition_equations[i] })
            == m.condition_equations[i]
    &&& after.continuous.len() == m.continuous.len()
    &&& forall|i: int|
        0 <= i < m.continuous.len() ==> (EquationView {
            rhs: m.continuous[i].rhs,
            ..#[trigger] after.continuous[i]
        }) == m.continuous[i]
    &&& forall|i: int, w: World|
        0 <= i < m.continuous.len() && looks_nowhere(m.continuous[i].rhs) && mirrors(
            w,
            m.relations,
            name,
        ) ==> #[trigger] meaning(after.continuous[i].rhs, w, 0) == meaning(
            m.continuous[i].rhs,
            w,
            0,
        )
}

/// Whether a name is that of one of some variables, or that of something that they are
/// parts of.
pub open spec fn begins_one(vars: Seq<Named<VariableView>>, name: Seq<char>) -> bool {
    exists|i: int|
        0 <= i < vars.len() && ((#[trigger] vars[i]).0 == name || (name + "."@).is_prefix_of(
            vars[i].0,
        ))
}

/// Whether a name is that of a variable of a model, or that of something that variables of
/// the model are parts of.
pub open spec fn in_the_way(vars: VariablesView, name: Seq<char>) -> bool {
    ||| begins_one(vars.states, name)
    ||| begins_one(vars.algebraics, name)
    ||| begins_one(vars.inputs, name)
    ||| begins_one(vars.outputs, name)
    ||| begins_one(vars.parameters, name)
    ||| begins_one(vars.constants, name)
    ||| begins_one(vars.discrete_reals, name)
    ||| begins_one(vars.discrete_valued, name)
}

proof fn lemma_begins(vars: Seq<Named<VariableView>>, name: Seq<char>)
    ensures
        begins_one(vars, name) <==> partition_conflicts(vars, name),
{
    reveal_strlit(".");
    assert("."@.len() == 1);
    assert forall|i: int| 0 <= i < vars.len() implies conflicts((#[trigger] vars[i]).0, name) == (
    vars[i].0 == name || (name + "."@).is_prefix_of(vars[i].0)) by {
        let v = vars[i].0;
        let n = name.len() as int + 1;
        if (name + "."@).is_prefix_of(v) {
            assert(v.take(n) =~= name + "."@);
        }
        if v.len() >= n && v.take(n) == name + "."@ {
            assert((name + "."@) =~= v.subrange(0, n));
        }
    }
    if begins_one(vars, name) {
        let i = choose|i: int|
            0 <= i < vars.len() && ((#[trigger] vars[i]).0 == name || (name
                + "."@).is_prefix_of(vars[i].0));
        assert(conflicts(vars[i].0, name));
    }
    if partition_conflicts(vars, name) {
        let i = choose|i: int| 0 <= i < vars.len() && conflicts((#[trigger] vars[i]).0, name);
        assert(vars[i].0 == name || (name + "."@).is_prefix_of(vars[i].0));
    }
}

proof fn lemma_taken(vars: VariablesView, name: Seq<char>)
    ensures
        in_the_way(vars, name) <==> name_taken(vars, name),
        named(vars.discrete_valued, name) ==> in_the_way(vars, name),
{
    lemma_begins(vars.states, name);
    lemma_begins(vars.algebraics, name);
    lemma_begins(vars.inputs, name);
    lemma_begins(vars.outputs, name);
    lemma_begins(vars.parameters, name);
    lemma_begins(vars.constants, name);
    lemma_begins(vars.discrete_reals, name);
    lemma_begins(vars.discrete_valued, name);
}

/// A model with condition equations gets its conditions into one variable, under the name
/// that the first of them asks for where it is free and else under another one.
pub proof fn law_conditions_get_a_variable(m: DaeView)
    requires
        with_final_conditions(m).error is None,
        requested_name(m.condition_equations) is Some,
    ensures
        exists|name: Seq<char>| #[trigger]
            has_conditions_in(m, with_final_conditions(m).model, name) && (in_the_way(
                m.variables,
                requested_name(m.condition_equations)->0,
            ) || name == requested_name(m.condition_equations)->0),
{
    let requested = requested_name(m.condition_equations)->0;
    let name = final_name(m.variables, requested)->0;
    let after = with_final_conditions(m).model;
    lemma_free_name(m.variables, 0);
    lemma_taken(m.variables, requested);
    lemma_taken(m.variables, name);
    let valued = m.variables.discrete_valued;
    let v = condition_variable(name, m.relations.len(), m.condition_equations[0].span);
    let last = valued.len() as int;
    assert(!named(valued, name));
    assert(after.variables.discrete_valued[last] == (name, v));
    let n = m.condition_equations.len() as int;
    lemma_renamed_elements(m.condition_equations, name, n);
    let conditions = renamed(m.condition_equations, name, n);
    let spans = spans_of(conditions.list);
    if m.relations.len() > 0 {
        lemma_equations_replaced(
            m.continuous,
            m.relations,
            spans,
            name,
            m.continuous.len() as int,
        );
        assert forall|i: int, w: World|
            0 <= i < m.continuous.len() && looks_nowhere(m.continuous[i].rhs) && mirrors(
                w,
                m.relations,
                name,
            ) implies #[trigger] meaning(after.continuous[i].rhs, w, 0) == meaning(
            m.continuous[i].rhs,
            w,
            0,
        ) by {
            law_conditions_keep_meaning(m.continuous[i].rhs, m.relations, spans, name, false, w);
            assert(after.continuous[i].rhs == replace_relations(
                m.continuous[i].rhs,
                m.relations,
                spans,
                name,
                false,
            ).expr);
        }
    }
    assert(has_conditions_in(m, after, name));
}

} // verus!
