//! Which relations of a system cause events.
//!
//! A relation causes an event where it stands at a live place of an equation and can
//! change. A place is live unless it is inside `noEvent` or in a branch that is never
//! taken.
use crate::dae::conditions::{
    condition_name, dead_after, equation_candidates, event_candidates,
    expr_candidates, has_relation, is_condition, law_conditions_follow_relations,
    law_relations_are_interned, model_candidates, model_events, node_candidates, operand_candidates, position, relations_of,
    suppressed_in, with_candidate, with_condition, with_conditions, CandidateView,
};
use crate::dae::equation::{EquationView, TargetView};
use crate::dae::model::{DaeView, VariablesView};
use crate::dae::pre_targets::is_pre_name;
use crate::dae::scalar_name::base_name;
use crate::dae::variance::{can_vary, is_tick};
use crate::expr::tree::{BuiltinFunction, ExprView, LiteralView, NodeView, OpBinary};
use crate::ir::name_map::named;
use crate::span::Span;
use vstd::prelude::*;

verus! {

/// Whether an expression is this truth value, written out.
pub open spec fn is_truth(e: ExprView, b: bool) -> bool {
    e.node == NodeView::Literal(LiteralView::Boolean(b))
}

/// Whether an expression compares two values.
pub open spec fn is_comparison(e: ExprView) -> bool {
    ||| e.node == NodeView::Binary(OpBinary::Lt)
    ||| e.node == NodeView::Binary(OpBinary::Le)
    ||| e.node == NodeView::Binary(OpBinary::Gt)
    ||| e.node == NodeView::Binary(OpBinary::Ge)
    ||| e.node == NodeView::Binary(OpBinary::Eq)
    ||| e.node == NodeView::Binary(OpBinary::Neq)
}

/// Whether an expression calls a built-in function.
pub open spec fn is_call(e: ExprView, function: BuiltinFunction) -> bool {
    e.node == NodeView::BuiltinCall(function)
}

/// Whether operand `j` of a conditional is one of its conditions.
pub open spec fn decides(e: ExprView, j: int) -> bool {
    e.node is If && 0 <= j && j % 2 == 0 && j + 1 < e.args.len()
}

/// Whether operand `j` causes no events: it is inside `noEvent`, or it is a part of a
/// conditional that is never looked at, or a condition that is written out or wrapped in
/// `noEvent`.
pub open spec fn silent(e: ExprView, j: int) -> bool {
    ||| is_call(e, BuiltinFunction::NoEvent)
    ||| e.node is If && exists|c: int|
        decides(e, c) && c + 1 < j && is_truth(#[trigger] e.args[c], true)
    ||| e.node is If && j % 2 == 1 && is_truth(e.args[j - 1], false)
    ||| decides(e, j) && (is_truth(e.args[j], true) || is_truth(e.args[j], false) || is_call(
        e.args[j],
        BuiltinFunction::NoEvent,
    ))
}

/// Whether a relation is raised by an expression itself: the expression compares, or
/// watches the relation for a change, or decides by it.
pub open spec fn raises(e: ExprView, r: ExprView) -> bool {
    ||| is_comparison(e) && r == e
    ||| (is_call(e, BuiltinFunction::Edge) || is_call(e, BuiltinFunction::Change)) && e.args.len()
        > 0 && (e.args[0].compares() || is_tick(e.args[0])) && r == e.args[0]
    ||| exists|c: int|
        decides(e, c) && !silent(e, c) && r == #[trigger] e.args[c] && !is_call(
            r,
            BuiltinFunction::Edge,
        ) && !is_call(r, BuiltinFunction::Change) && !is_call(r, BuiltinFunction::Initial)
}

/// Whether a relation is raised at a live place of an expression.
pub open spec fn live_in(e: ExprView, r: ExprView) -> bool
    decreases e,
{
    ||| raises(e, r)
    ||| exists|j: int| 0 <= j < e.args.len() && !silent(e, j) && live_in(#[trigger] e.args[j], r)
}

/// Whether a name is referred to in an expression.
pub open spec fn mentions(e: ExprView, name: Seq<char>) -> bool
    decreases e,
{
    ||| e.node == (NodeView::VarRef { name })
    ||| exists|j: int| 0 <= j < e.args.len() && mentions(#[trigger] e.args[j], name)
}

/// Whether a variable with this name changes while a simulation runs.
pub open spec fn is_changing(vars: VariablesView, name: Seq<char>) -> bool {
    ||| named(vars.states, name)
    ||| named(vars.algebraics, name)
    ||| named(vars.outputs, name)
    ||| named(vars.inputs, name)
    ||| named(vars.discrete_reals, name)
    ||| named(vars.discrete_valued, name)
}

/// Whether a parameter or a constant has this name.
pub open spec fn is_given(vars: VariablesView, name: Seq<char>) -> bool {
    named(vars.parameters, name) || named(vars.constants, name)
}

/// Whether a name, with its subscripts or without, is that of a variable which changes
/// while a simulation runs, and not that of a parameter or a constant.
pub open spec fn changes(vars: VariablesView, name: Seq<char>) -> bool {
    &&& is_changing(vars, name) || (base_name(name) matches Some(base) && is_changing(vars, base))
    &&& !is_given(vars, name)
    &&& base_name(name) matches Some(base) ==> !is_given(vars, base)
}

proof fn lemma_mentioned_varies(e: ExprView, m: DaeView, name: Seq<char>)
    requires
        mentions(e, name),
        name == "time"@ || changes(m.variables, name),
    ensures
        can_vary(e, m),
    decreases e,
{
    if e.node != (NodeView::VarRef { name }) {
        let j = choose|j: int| 0 <= j < e.args.len() && mentions(#[trigger] e.args[j], name);
        lemma_mentioned_varies(e.args[j], m, name);
    }
}

/// What can change does so wherever it stands: source positions make no difference.
proof fn lemma_vary_anywhere(a: ExprView, b: ExprView, m: DaeView)
    requires
        a.unplaced() == b.unplaced(),
        can_vary(a, m),
    ensures
        can_vary(b, m),
    decreases a,
{
    let ua = a.unplaced();
    let ub = b.unplaced();
    assert(ua.node == a.node && ub.node == b.node);
    assert(ua.args.len() == a.args.len() && ub.args.len() == b.args.len());
    if exists|i: int| 0 <= i < a.args.len() && can_vary(#[trigger] a.args[i], m) {
        let i = choose|i: int| 0 <= i < a.args.len() && can_vary(#[trigger] a.args[i], m);
        assert(ua.args[i] == a.args[i].unplaced());
        assert(ub.args[i] == b.args[i].unplaced());
        lemma_vary_anywhere(a.args[i], b.args[i], m);
    }
}

proof fn lemma_dead_after(e: ExprView, k: int, suppressed: bool)
    requires
        e.node is If,
        0 <= k < e.args.len(),
        k % 2 == 0,
    ensures
        dead_after(e.args, k, suppressed) == (suppressed || exists|c: int|
            decides(e, c) && c + 1 < k && is_truth(#[trigger] e.args[c], true)),
    decreases k,
{
    if k >= 2 {
        lemma_dead_after(e, k - 2, suppressed);
        if is_truth(e.args[k - 2], true) {
            assert(decides(e, k - 2));
        }
        if exists|c: int| decides(e, c) && c + 1 < k && is_truth(#[trigger] e.args[c], true) {
            let c = choose|c: int|
                decides(e, c) && c + 1 < k && is_truth(#[trigger] e.args[c], true);
            if c + 1 >= k - 2 {
                assert(c == k - 2);
            }
        }
    }
}

/// Events are suppressed in an operand where they are around it, and where it is silent.
proof fn lemma_suppressed(e: ExprView, j: int, suppressed: bool)
    requires
        0 <= j < e.args.len(),
    ensures
        suppressed_in(e, j, suppressed) == (suppressed || silent(e, j)),
{
    if e.node is If {
        if j % 2 == 1 {
            lemma_dead_after(e, j - 1, suppressed);
            if exists|c: int| decides(e, c) && c + 1 < j && is_truth(#[trigger] e.args[c], true) {
                let c = choose|c: int|
                    decides(e, c) && c + 1 < j && is_truth(#[trigger] e.args[c], true);
                assert(c + 1 < j - 1 || c + 1 == j - 1 || c == j - 1);
            }
        } else {
            lemma_dead_after(e, j, suppressed);
        }
    }
}

proof fn lemma_candidate_added(
    list: Seq<CandidateView>,
    e: ExprView,
    around: Span,
    source: Seq<char>,
)
    ensures
        has_relation(with_candidate(list, e, around, false, source), e),
{
    let span = position(e, around);
    let placed = ExprView { span, ..e };
    assert(placed.unplaced() == e.unplaced());
    let after = with_candidate(list, e, around, false, source);
    if has_relation(list, placed) {
        let i = choose|i: int|
            0 <= i < list.len() && (#[trigger] list[i]).expr.unplaced() == placed.unplaced();
        assert(after[i].expr.unplaced() == e.unplaced());
    } else {
        assert(after[list.len() as int].expr == placed);
    }
}

proof fn lemma_candidate_kept(
    list: Seq<CandidateView>,
    e: ExprView,
    around: Span,
    suppressed: bool,
    source: Seq<char>,
    x: ExprView,
)
    requires
        has_relation(list, x),
    ensures
        has_relation(with_candidate(list, e, around, suppressed, source), x),
{
    let after = with_candidate(list, e, around, suppressed, source);
    let i = choose|i: int|
        0 <= i < list.len() && (#[trigger] list[i]).expr.unplaced() == x.unplaced();
    assert(after[i] == list[i]);
}

proof fn lemma_kept(
    e: ExprView,
    around: Span,
    suppressed: bool,
    source: Seq<char>,
    list: Seq<CandidateView>,
    x: ExprView,
)
    requires
        has_relation(list, x),
    ensures
        has_relation(expr_candidates(e, around, suppressed, source, list), x),
    decreases e, e.args.len() + 1,
{
    let here = position(e, around);
    lemma_candidate_kept(list, e, here, suppressed, source, x);
    if e.args.len() > 0 {
        lemma_candidate_kept(list, e.args[0], here, suppressed, source, x);
    }
    lemma_operands_kept(
        e,
        e.args.len() as int,
        here,
        suppressed,
        source,
        node_candidates(e, here, suppressed, source, list),
        x,
    );
}

proof fn lemma_operands_kept(
    e: ExprView,
    n: int,
    here: Span,
    suppressed: bool,
    source: Seq<char>,
    list: Seq<CandidateView>,
    x: ExprView,
)
    requires
        has_relation(list, x),
    ensures
        has_relation(operand_candidates(e, n, here, suppressed, source, list), x),
    decreases e, n,
{
    if 0 < n <= e.args.len() {
        lemma_operands_kept(e, n - 1, here, suppressed, source, list, x);
        let before = operand_candidates(e, n - 1, here, suppressed, source, list);
        let inside = suppressed_in(e, n - 1, suppressed);
        lemma_candidate_kept(before, e.args[n - 1], here, inside, source, x);
        let seen = if e.node is If && is_condition(e.args, n - 1) {
            with_condition(before, e.args[n - 1], here, inside, source)
        } else {
            before
        };
        lemma_kept(e.args[n - 1], here, inside, source, seen, x);
    }
}

/// What the first `k` operands gave is still there after the first `n`.
proof fn lemma_later_operands_keep(
    e: ExprView,
    k: int,
    n: int,
    here: Span,
    suppressed: bool,
    source: Seq<char>,
    list: Seq<CandidateView>,
    x: ExprView,
)
    requires
        0 <= k <= n <= e.args.len(),
        has_relation(operand_candidates(e, k, here, suppressed, source, list), x),
    ensures
        has_relation(operand_candidates(e, n, here, suppressed, source, list), x),
    decreases n,
{
    if k < n {
        lemma_later_operands_keep(e, k, n - 1, here, suppressed, source, list, x);
        let before = operand_candidates(e, n - 1, here, suppressed, source, list);
        let inside = suppressed_in(e, n - 1, suppressed);
        lemma_candidate_kept(before, e.args[n - 1], here, inside, source, x);
        let seen = if e.node is If && is_condition(e.args, n - 1) {
            with_condition(before, e.args[n - 1], here, inside, source)
        } else {
            before
        };
        lemma_kept(e.args[n - 1], here, inside, source, seen, x);
    }
}

/// Every relation that is raised at a live place of an expression is found.
proof fn lemma_live_is_found(
    e: ExprView,
    around: Span,
    source: Seq<char>,
    list: Seq<CandidateView>,
    r: ExprView,
)
    requires
        live_in(e, r),
    ensures
        has_relation(expr_candidates(e, around, false, source, list), r),
    decreases e,
{
    let here = position(e, around);
    let start = node_candidates(e, here, false, source, list);
    let n = e.args.len() as int;
    if raises(e, r) {
        if is_comparison(e) && r == e {
            lemma_candidate_added(list, e, here, source);
            lemma_operands_kept(e, n, here, false, source, start, r);
        } else if exists|c: int|
            decides(e, c) && !silent(e, c) && r == #[trigger] e.args[c] && !is_call(
                r,
                BuiltinFunction::Edge,
            ) && !is_call(r, BuiltinFunction::Change) && !is_call(r, BuiltinFunction::Initial) {
            let c = choose|c: int|
                decides(e, c) && !silent(e, c) && r == #[trigger] e.args[c] && !is_call(
                    r,
                    BuiltinFunction::Edge,
                ) && !is_call(r, BuiltinFunction::Change) && !is_call(r, BuiltinFunction::Initial);
            lemma_suppressed(e, c, false);
            let before = operand_candidates(e, c, here, false, source, start);
            lemma_candidate_added(before, r, here, source);
            lemma_kept(
                e.args[c],
                here,
                false,
                source,
                with_condition(before, r, here, false, source),
                r,
            );
            assert(has_relation(operand_candidates(e, c + 1, here, false, source, start), r));
            lemma_later_operands_keep(e, c + 1, n, here, false, source, start, r);
        } else {
            lemma_candidate_added(list, e.args[0], here, source);
            lemma_operands_kept(e, n, here, false, source, start, r);
        }
    } else {
        let j = choose|j: int|
            0 <= j < e.args.len() && !silent(e, j) && live_in(#[trigger] e.args[j], r);
        lemma_suppressed(e, j, false);
        let before = operand_candidates(e, j, here, false, source, start);
        let seen = if e.node is If && is_condition(e.args, j) {
            with_condition(before, e.args[j], here, false, source)
        } else {
            before
        };
        lemma_live_is_found(e.args[j], here, source, seen, r);
        assert(has_relation(operand_candidates(e, j + 1, here, false, source, start), r));
        lemma_later_operands_keep(e, j + 1, n, here, false, source, start, r);
    }
}

proof fn lemma_equation_is_searched(
    equations: Seq<EquationView>,
    n: int,
    list: Seq<CandidateView>,
    i: int,
    r: ExprView,
)
    requires
        0 <= i < n <= equations.len(),
        live_in(equations[i].rhs, r),
    ensures
        has_relation(equation_candidates(equations, n, list), r),
    decreases n,
{
    let before = equation_candidates(equations, n - 1, list);
    let eq = equations[n - 1];
    if i == n - 1 {
        lemma_live_is_found(eq.rhs, eq.span, eq.origin, before, r);
    } else {
        lemma_equation_is_searched(equations, n - 1, list, i, r);
        lemma_kept(eq.rhs, eq.span, false, eq.origin, before, r);
    }
}

proof fn lemma_equations_keep(
    equations: Seq<EquationView>,
    n: int,
    list: Seq<CandidateView>,
    r: ExprView,
)
    requires
        has_relation(list, r),
    ensures
        has_relation(equation_candidates(equations, n, list), r),
    decreases n,
{
    if n > 0 {
        lemma_equations_keep(equations, n - 1, list, r);
        let eq = equations[n - 1];
        lemma_kept(
            eq.rhs,
            eq.span,
            false,
            eq.origin,
            equation_candidates(equations, n - 1, list),
            r,
        );
    }
}

/// Whether some equation raises a relation at a live place of its right-hand side.
pub open spec fn raised_by(equations: Seq<EquationView>, r: ExprView) -> bool {
    exists|i: int| 0 <= i < equations.len() && live_in((#[trigger] equations[i]).rhs, r)
}

/// Whether a relation is raised by a continuous equation or a discrete update.
pub open spec fn raised_in_model(m: DaeView, r: ExprView) -> bool {
    raised_by(m.continuous, r) || raised_by(m.real_updates, r) || raised_by(m.valued_updates, r)
}

/// Whether a relation is one of the relations, wherever it stands in the source.
pub open spec fn is_listed(relations: Seq<ExprView>, r: ExprView) -> bool {
    exists|k: int| 0 <= k < relations.len() && (#[trigger] relations[k]).unplaced() == r.unplaced()
}

proof fn lemma_event_is_kept(list: Seq<CandidateView>, m: DaeView, n: int, k: int) -> (at: int)
    requires
        0 <= k < n <= list.len(),
        can_vary(list[k].expr, m),
    ensures
        0 <= at < event_candidates(list, m, n).len(),
        event_candidates(list, m, n)[at] == list[k],
    decreases n,
{
    if k == n - 1 {
        event_candidates(list, m, n).len() - 1
    } else {
        lemma_event_is_kept(list, m, n - 1, k)
    }
}

/// Every relation that is raised at a live place of a continuous equation, of a real
/// update or of a valued update, and that depends on time, on a clock or on a variable
/// that changes, is one of the relations of the system.
pub proof fn law_live_relations_cause_events(m: DaeView, r: ExprView)
    requires
        raised_in_model(m, r),
        is_tick(r) || mentions(r, "time"@) || exists|name: Seq<char>| #[trigger]
            mentions(r, name) && changes(m.variables, name),
    ensures
        is_listed(with_conditions(m).model.relations, r),
{
    if !is_tick(r) {
        if mentions(r, "time"@) {
            lemma_mentioned_varies(r, m, "time"@);
        } else {
            let name = choose|name: Seq<char>| #[trigger]
                mentions(r, name) && changes(m.variables, name);
            lemma_mentioned_varies(r, m, name);
        }
    }
    lemma_varying_is_listed(m, r);
}

proof fn lemma_varying_is_listed(m: DaeView, r: ExprView)
    requires
        raised_in_model(m, r),
        can_vary(r, m),
    ensures
        is_listed(with_conditions(m).model.relations, r),
{
    let none = Seq::<CandidateView>::empty();
    let c = equation_candidates(m.continuous, m.continuous.len() as int, none);
    let z = equation_candidates(m.real_updates, m.real_updates.len() as int, c);
    let all = model_candidates(m);
    if raised_by(m.continuous, r) {
        let i = choose|i: int|
            0 <= i < m.continuous.len() && live_in((#[trigger] m.continuous[i]).rhs, r);
        lemma_equation_is_searched(m.continuous, m.continuous.len() as int, none, i, r);
        lemma_equations_keep(m.real_updates, m.real_updates.len() as int, c, r);
        lemma_equations_keep(m.valued_updates, m.valued_updates.len() as int, z, r);
    } else if raised_by(m.real_updates, r) {
        let i = choose|i: int|
            0 <= i < m.real_updates.len() && live_in((#[trigger] m.real_updates[i]).rhs, r);
        lemma_equation_is_searched(m.real_updates, m.real_updates.len() as int, c, i, r);
        lemma_equations_keep(m.valued_updates, m.valued_updates.len() as int, z, r);
    } else {
        let i = choose|i: int|
            0 <= i < m.valued_updates.len() && live_in((#[trigger] m.valued_updates[i]).rhs, r);
        lemma_equation_is_searched(m.valued_updates, m.valued_updates.len() as int, z, i, r);
    }
    assert(has_relation(all, r));
    let k = choose|k: int|
        0 <= k < all.len() && (#[trigger] all[k]).expr.unplaced() == r.unplaced();
    lemma_vary_anywhere(r, all[k].expr, m);
    let at = lemma_event_is_kept(all, m, all.len() as int, k);
    let relations = with_conditions(m).model.relations;
    assert(relations == relations_of(model_events(m)));
    assert(relations[at] == all[k].expr);
}

/// Where the condition equations can be built, every such relation has an equation that
/// gives an element of the condition variable its truth.
pub proof fn law_live_relations_have_conditions(m: DaeView, r: ExprView)
    requires
        raised_in_model(m, r),
        is_tick(r) || mentions(r, "time"@) || exists|name: Seq<char>| #[trigger]
            mentions(r, name) && changes(m.variables, name),
        with_conditions(m).error is None,
        condition_name(m.variables) is Some,
    ensures
        exists|k: int|
            0 <= k < with_conditions(m).model.condition_equations.len() && {
                let eq = #[trigger] with_conditions(m).model.condition_equations[k];
                &&& eq.rhs.unplaced() == r.unplaced()
                &&& eq.lhs == Some(
                    TargetView::element(condition_name(m.variables)->0, (k + 1) as i64, eq.span),
                )
            },
{
    law_live_relations_cause_events(m, r);
    law_conditions_follow_relations(m);
    let after = with_conditions(m).model;
    let k = choose|k: int|
        0 <= k < after.relations.len() && (#[trigger] after.relations[k]).unplaced()
            == r.unplaced();
    assert(after.condition_equations[k].rhs == after.relations[k]);
}

proof fn lemma_only_added(
    list: Seq<CandidateView>,
    e: ExprView,
    around: Span,
    suppressed: bool,
    source: Seq<char>,
    x: ExprView,
)
    requires
        has_relation(with_candidate(list, e, around, suppressed, source), x),
    ensures
        has_relation(list, x) || (!suppressed && x.unplaced() == e.unplaced()),
{
    let span = position(e, around);
    let placed = ExprView { span, ..e };
    assert(placed.unplaced() == e.unplaced());
    let after = with_candidate(list, e, around, suppressed, source);
    let i = choose|i: int|
        0 <= i < after.len() && (#[trigger] after[i]).expr.unplaced() == x.unplaced();
    if i < list.len() {
        assert(list[i] == after[i]);
    }
}

/// Whether a relation that is raised at a live place is this one, wherever it stands.
pub open spec fn live_like(e: ExprView, x: ExprView) -> bool {
    exists|r: ExprView| #[trigger] live_in(e, r) && r.unplaced() == x.unplaced()
}

proof fn lemma_found_is_live(
    e: ExprView,
    around: Span,
    suppressed: bool,
    source: Seq<char>,
    list: Seq<CandidateView>,
    x: ExprView,
)
    requires
        has_relation(expr_candidates(e, around, suppressed, source, list), x),
    ensures
        has_relation(list, x) || (!suppressed && live_like(e, x)),
    decreases e, e.args.len() + 1,
{
    let here = position(e, around);
    let start = node_candidates(e, here, suppressed, source, list);
    lemma_found_operand_is_live(e, e.args.len() as int, here, suppressed, source, start, x);
    if has_relation(start, x) {
        if is_comparison(e) {
            lemma_only_added(list, e, here, suppressed, source, x);
            assert(raises(e, e));
            assert(live_in(e, e));
        } else if e.args.len() > 0 && start != list {
            lemma_only_added(list, e.args[0], here, suppressed, source, x);
            assert(raises(e, e.args[0]));
            assert(live_in(e, e.args[0]));
        }
    }
}

proof fn lemma_found_operand_is_live(
    e: ExprView,
    n: int,
    here: Span,
    suppressed: bool,
    source: Seq<char>,
    list: Seq<CandidateView>,
    x: ExprView,
)
    requires
        has_relation(operand_candidates(e, n, here, suppressed, source, list), x),
    ensures
        has_relation(list, x) || (!suppressed && live_like(e, x)),
    decreases e, n,
{
    if 0 < n <= e.args.len() {
        let before = operand_candidates(e, n - 1, here, suppressed, source, list);
        let inside = suppressed_in(e, n - 1, suppressed);
        lemma_suppressed(e, n - 1, suppressed);
        let arg = e.args[n - 1];
        let seen = if e.node is If && is_condition(e.args, n - 1) {
            with_condition(before, arg, here, inside, source)
        } else {
            before
        };
        lemma_found_is_live(arg, here, inside, source, seen, x);
        if has_relation(seen, x) {
            if seen != before {
                lemma_only_added(before, arg, here, inside, source, x);
                if !has_relation(before, x) {
                    assert(decides(e, n - 1));
                    assert(raises(e, arg));
                    assert(live_in(e, arg));
                }
            }
            if has_relation(before, x) {
                lemma_found_operand_is_live(e, n - 1, here, suppressed, source, list, x);
            }
        } else {
            let r = choose|r: ExprView| #[trigger] live_in(arg, r) && r.unplaced() == x.unplaced();
            assert(live_in(e, r));
        }
    }
}

proof fn lemma_found_equation(
    equations: Seq<EquationView>,
    n: int,
    list: Seq<CandidateView>,
    x: ExprView,
)
    requires
        0 <= n <= equations.len(),
        has_relation(equation_candidates(equations, n, list), x),
    ensures
        has_relation(list, x) || exists|r: ExprView| #[trigger]
            raised_by(equations, r) && r.unplaced() == x.unplaced(),
    decreases n,
{
    if n > 0 {
        let eq = equations[n - 1];
        let before = equation_candidates(equations, n - 1, list);
        lemma_found_is_live(eq.rhs, eq.span, false, eq.origin, before, x);
        if has_relation(before, x) {
            lemma_found_equation(equations, n - 1, list, x);
        } else {
            let r = choose|r: ExprView| #[trigger]
                live_in(eq.rhs, r) && r.unplaced() == x.unplaced();
            assert(live_in(equations[n - 1].rhs, r));
            assert(raised_by(equations, r));
        }
    }
}

/// Every relation of a system can change and is raised at a live place of one of its
/// equations.
pub proof fn law_relations_are_live(m: DaeView, k: int)
    requires
        0 <= k < with_conditions(m).model.relations.len(),
    ensures
        can_vary(with_conditions(m).model.relations[k], m),
        exists|r: ExprView| #[trigger]
            raised_in_model(m, r) && r.unplaced()
                == with_conditions(m).model.relations[k].unplaced(),
{
    let relations = with_conditions(m).model.relations;
    let events = model_events(m);
    assert(relations == relations_of(events));
    law_relations_are_interned(m);
    let x = relations[k];
    assert(events[k].expr == x);
    let none = Seq::<CandidateView>::empty();
    let c = equation_candidates(m.continuous, m.continuous.len() as int, none);
    let z = equation_candidates(m.real_updates, m.real_updates.len() as int, c);
    let all = model_candidates(m);
    lemma_event_was_candidate(all, m, all.len() as int, k);
    assert(has_relation(all, x));
    lemma_found_equation(m.valued_updates, m.valued_updates.len() as int, z, x);
    if has_relation(z, x) {
        lemma_found_equation(m.real_updates, m.real_updates.len() as int, c, x);
        if has_relation(c, x) {
            lemma_found_equation(m.continuous, m.continuous.len() as int, none, x);
            let r = choose|r: ExprView| #[trigger]
                raised_by(m.continuous, r) && r.unplaced() == x.unplaced();
            assert(raised_in_model(m, r));
        } else {
            let r = choose|r: ExprView| #[trigger]
                raised_by(m.real_updates, r) && r.unplaced() == x.unplaced();
            assert(raised_in_model(m, r));
        }
    } else {
        let r = choose|r: ExprView| #[trigger]
            raised_by(m.valued_updates, r) && r.unplaced() == x.unplaced();
        assert(raised_in_model(m, r));
    }
}

proof fn lemma_event_was_candidate(list: Seq<CandidateView>, m: DaeView, n: int, k: int)
    requires
        0 <= n <= list.len(),
        0 <= k < event_candidates(list, m, n).len(),
    ensures
        has_relation(list, event_candidates(list, m, n)[k].expr),
    decreases n,
{
    if can_vary(list[n - 1].expr, m) && k == event_candidates(list, m, n).len() - 1 {
        assert(list[n - 1].expr.unplaced() == event_candidates(list, m, n)[k].expr.unplaced());
    } else {
        lemma_event_was_candidate(list, m, n - 1, k);
    }
}

/// Whether everything that an expression refers to is a parameter or a constant, by its
/// own name, and nothing in it ticks.
pub open spec fn is_settled(e: ExprView, vars: VariablesView) -> bool
    decreases e,
{
    &&& !is_tick(e)
    &&& e.node matches NodeView::VarRef { name } ==> name != "time"@
        && !is_pre_name(name) && (named(vars.parameters, name) || named(
        vars.constants,
        name,
    ))
    &&& forall|i: int| 0 <= i < e.args.len() ==> is_settled(#[trigger] e.args[i], vars)
}

/// A relation between parameters and constants causes no event.
pub proof fn law_settled_relations_cause_no_events(m: DaeView, e: ExprView, k: int)
    requires
        is_settled(e, m.variables),
        0 <= k < with_conditions(m).model.relations.len(),
    ensures
        with_conditions(m).model.relations[k].unplaced() != e.unplaced(),
{
    law_relations_are_live(m, k);
    lemma_settled_stays(e, m);
    let x = with_conditions(m).model.relations[k];
    if x.unplaced() == e.unplaced() {
        lemma_vary_anywhere(x, e, m);
    }
}

proof fn lemma_settled_stays(e: ExprView, m: DaeView)
    requires
        is_settled(e, m.variables),
    ensures
        !can_vary(e, m),
    decreases e,
{
    assert forall|i: int| 0 <= i < e.args.len() implies !can_vary(#[trigger] e.args[i], m) by {
        lemma_settled_stays(e.args[i], m);
    }
}

} // verus!
