//! Canonical conditions: the relations that cause events, each once, and the
//! variables that remember them.
use crate::dae::equation::{equation_views, Equation, EquationView, Reference, TargetView};
use crate::dae::error::{missing_provenance, missing_provenance_error, ToDaeError, ToDaeErrorView};
use crate::dae::model::{Dae, DaeVariables, DaeView, VariablesView};
use crate::dae::pre_lowering::{passed, ModelPass};
use crate::dae::variable::{Variable, VariableView};
use crate::dae::variance::{
    can_vary, expr_can_vary_during_simulation, is_sample_tick_condition, is_tick,
};
use crate::expr::tree::{
    expr_views, expressions_semantically_equal, lemma_expr_views_push, lemma_view_args,
    BuiltinFunction, ExprView, Expression, Literal, LiteralView, Node, NodeView,
};
use crate::ir::name_map::{NameMap, Named};
use crate::span::Span;
use crate::text::{nat_text, owned, push_nat, same_text};
use vstd::prelude::*;

verus! {

/// A relation that may cause events, where it stands, and the origin of the
/// equation that it stands in.
#[derive(Debug)]
pub struct ConditionCandidate {
    pub expr: Expression,
    pub span: Span,
    pub source: String,
}

/// The mathematical content of a [`ConditionCandidate`].
pub struct CandidateView {
    pub expr: ExprView,
    pub span: Span,
    pub source: Seq<char>,
}

impl View for ConditionCandidate {
    type V = CandidateView;

    open spec fn view(&self) -> CandidateView {
        CandidateView { expr: self.expr@, span: self.span, source: self.source@ }
    }
}

/// The content of a list of candidates.
pub open spec fn candidates_of(list: Seq<ConditionCandidate>) -> Seq<CandidateView> {
    list.map_values(|c: ConditionCandidate| c@)
}

/// Whether the relation is in the list, wherever it stands.
pub open spec fn has_relation(list: Seq<CandidateView>, expr: ExprView) -> bool {
    exists|i: int|
        0 <= i < list.len() && (#[trigger] list[i]).expr.unplaced() == expr.unplaced()
}

/// The position of an expression, or of what it stands in.
pub open spec fn position(e: ExprView, around: Span) -> Span {
    match e.source() {
        Some(span) => span,
        None => around,
    }
}

/// The candidates with one more, unless events are suppressed or the relation
/// is there.
pub open spec fn with_candidate(
    list: Seq<CandidateView>,
    e: ExprView,
    around: Span,
    suppressed: bool,
    source: Seq<char>,
) -> Seq<CandidateView> {
    let span = position(e, around);
    let placed = ExprView { span, ..e };
    if suppressed || has_relation(list, placed) {
        list
    } else {
        list.push(CandidateView { expr: placed, span, source })
    }
}

/// Whether a condition is known before the simulation starts.
pub open spec fn activation(e: ExprView) -> Option<bool> {
    match e.node {
        NodeView::Literal(LiteralView::Boolean(b)) => Some(b),
        _ => None,
    }
}

/// Whether a node is a call of this built-in function.
pub open spec fn calls(e: ExprView, function: BuiltinFunction) -> bool {
    e.node == NodeView::BuiltinCall(function)
}

/// Whether the branches after the first `k` operands can no longer be reached,
/// or events are suppressed anyway.
pub open spec fn dead_after(args: Seq<ExprView>, k: int, suppressed: bool) -> bool
    decreases k,
{
    if k < 2 {
        suppressed
    } else {
        dead_after(args, k - 2, suppressed) || activation(args[k - 2]) == Some(true)
    }
}

/// Whether operand `j` of a conditional is a condition.
pub open spec fn is_condition(args: Seq<ExprView>, j: int) -> bool {
    j % 2 == 0 && j + 1 < args.len()
}

/// Whether events are suppressed in operand `j` of a conditional.
pub open spec fn suppressed_in_if(args: Seq<ExprView>, j: int, suppressed: bool) -> bool {
    if is_condition(args, j) {
        dead_after(args, j, suppressed) || activation(args[j]) is Some || calls(
            args[j],
            BuiltinFunction::NoEvent,
        )
    } else if j % 2 == 1 {
        dead_after(args, j - 1, suppressed) || activation(args[j - 1]) == Some(false)
    } else {
        dead_after(args, j, suppressed)
    }
}

/// Whether events are suppressed in operand `j`.
pub open spec fn suppressed_in(e: ExprView, j: int, suppressed: bool) -> bool {
    match e.node {
        NodeView::If => suppressed_in_if(e.args, j, suppressed),
        NodeView::BuiltinCall(function) => suppressed || function == BuiltinFunction::NoEvent,
        _ => suppressed,
    }
}

/// The candidates after a condition itself has been looked at: it is one unless
/// it wraps a relation or asks for the initial state.
pub open spec fn with_condition(
    list: Seq<CandidateView>,
    condition: ExprView,
    around: Span,
    suppressed: bool,
    source: Seq<char>,
) -> Seq<CandidateView> {
    if calls(condition, BuiltinFunction::Edge) || calls(condition, BuiltinFunction::Change)
        || calls(condition, BuiltinFunction::Initial) {
        list
    } else {
        with_candidate(list, condition, around, suppressed, source)
    }
}

/// The candidates after a node itself has been looked at.
pub open spec fn node_candidates(
    e: ExprView,
    here: Span,
    suppressed: bool,
    source: Seq<char>,
    list: Seq<CandidateView>,
) -> Seq<CandidateView> {
    match e.node {
        NodeView::Binary(op) => if op.relational() {
            with_candidate(list, e, here, suppressed, source)
        } else {
            list
        },
        NodeView::BuiltinCall(function) => if (function == BuiltinFunction::Edge || function
            == BuiltinFunction::Change) && e.args.len() > 0 && (e.args[0].compares() || is_tick(
            e.args[0],
        )) {
            with_candidate(list, e.args[0], here, suppressed, source)
        } else {
            list
        },
        _ => list,
    }
}

/// The candidates after an expression has been searched.
pub open spec fn expr_candidates(
    e: ExprView,
    around: Span,
    suppressed: bool,
    source: Seq<char>,
    list: Seq<CandidateView>,
) -> Seq<CandidateView>
    decreases e, e.args.len() + 1,
{
    let here = position(e, around);
    operand_candidates(
        e,
        e.args.len() as int,
        here,
        suppressed,
        source,
        node_candidates(e, here, suppressed, source, list),
    )
}

/// The candidates after the first `n` operands have been searched.
pub open spec fn operand_candidates(
    e: ExprView,
    n: int,
    here: Span,
    suppressed: bool,
    source: Seq<char>,
    list: Seq<CandidateView>,
) -> Seq<CandidateView>
    decreases e, n,
{
    if n <= 0 || n > e.args.len() {
        list
    } else {
        let before = operand_candidates(e, n - 1, here, suppressed, source, list);
        let inside = suppressed_in(e, n - 1, suppressed);
        let seen = if e.node is If && is_condition(e.args, n - 1) {
            with_condition(before, e.args[n - 1], here, inside, source)
        } else {
            before
        };
        expr_candidates(e.args[n - 1], here, inside, source, seen)
    }
}

fn insert_candidate(
    out: &mut Vec<ConditionCandidate>,
    e: &Expression,
    around: Span,
    suppressed: bool,
    source: &str,
)
    ensures
        candidates_of(final(out)@) == with_candidate(
            candidates_of(old(out)@),
            e@,
            around,
            suppressed,
            source@,
        ),
{
    if suppressed {
        return;
    }
    let span: Span = match e.source_span() {
        Some(span) => span,
        None => around,
    };
    let placed = e.clone().with_span(span);
    let ghost list = candidates_of(out@);
    assert(placed@ == ExprView { span, ..e@ });
    let mut i: usize = 0;
    while i < out.len()
        invariant
            i <= out@.len(),
            *out == *old(out),
            list == candidates_of(out@),
            span == position(e@, around),
            placed@ == (ExprView { span, ..e@ }),
            forall|k: int|
                0 <= k < i ==> (#[trigger] list[k]).expr.unplaced() != placed@.unplaced(),
        decreases out.len() - i,
    {
        assert(list[i as int] == out@[i as int]@);
        if expressions_semantically_equal(&out[i].expr, &placed) {
            assert(has_relation(list, placed@));
            return;
        }
        i = i + 1;
    }
    let candidate = ConditionCandidate { expr: placed, span, source: owned(source) };
    let ghost content = candidate@;
    out.push(candidate);
    assert(candidates_of(out@) =~= list.push(content));
}

fn runtime_activation(e: &Expression) -> (r: Option<bool>)
    ensures
        r == activation(e@),
{
    proof {
        lemma_view_args(*e);
    }
    match &e.node {
        Node::Literal(Literal::Boolean(b)) => Some(*b),
        _ => None,
    }
}

fn is_builtin_call(e: &Expression, function: BuiltinFunction) -> (r: bool)
    ensures
        r == calls(e@, function),
{
    proof {
        lemma_view_args(*e);
    }
    match &e.node {
        Node::BuiltinCall(f) => *f == function,
        _ => false,
    }
}

fn visit_node(
    e: &Expression,
    here: Span,
    suppressed: bool,
    source: &str,
    out: &mut Vec<ConditionCandidate>,
)
    ensures
        candidates_of(final(out)@) == node_candidates(
            e@,
            here,
            suppressed,
            source@,
            candidates_of(old(out)@),
        ),
{
    proof {
        lemma_view_args(*e);
    }
    match &e.node {
        Node::Binary(op) => {
            if op.is_relational() {
                insert_candidate(out, e, here, suppressed, source);
            }
        },
        Node::BuiltinCall(function) => {
            if (*function == BuiltinFunction::Edge || *function == BuiltinFunction::Change)
                && e.args.len() > 0 {
                if e.args[0].contains_relational_operator() || is_sample_tick_condition(
                    &e.args[0],
                ) {
                    insert_candidate(out, &e.args[0], here, suppressed, source);
                }
            }
        },
        _ => {},
    }
}

/// Adds the relations in `e` that may cause events.
pub fn collect_if_condition_candidates(
    e: &Expression,
    around: Span,
    source: &str,
    suppressed: bool,
    out: &mut Vec<ConditionCandidate>,
)
    ensures
        candidates_of(final(out)@) == expr_candidates(
            e@,
            around,
            suppressed,
            source@,
            candidates_of(old(out)@),
        ),
    decreases e,
{
    proof {
        lemma_view_args(*e);
    }
    let here: Span = match e.source_span() {
        Some(span) => span,
        None => around,
    };
    visit_node(e, here, suppressed, source, out);
    let ghost start = candidates_of(out@);
    let n: usize = e.args.len();
    let is_if: bool = match &e.node {
        Node::If => true,
        _ => false,
    };
    let inside_call: bool = match &e.node {
        Node::BuiltinCall(function) => suppressed || *function == BuiltinFunction::NoEvent,
        _ => suppressed,
    };
    let mut dead: bool = suppressed;
    let mut known: Option<bool> = None;
    let mut i: usize = 0;
    while i < n
        invariant
            i <= n,
            n == e.args@.len(),
            e@.args == expr_views(e.args@),
            is_if == (e@.node is If),
            !is_if ==> forall|j: int| suppressed_in(e@, j, suppressed) == inside_call,
            is_if && i % 2 == 0 ==> dead == dead_after(e@.args, i as int, suppressed),
            is_if && i % 2 == 1 ==> dead == dead_after(e@.args, i - 1, suppressed) && known
                == activation(e@.args[i - 1]),
            candidates_of(out@) == operand_candidates(
                e@,
                i as int,
                here,
                suppressed,
                source@,
                start,
            ),
        decreases n - i,
    {
        let operand = &e.args[i];
        if is_if {
            if i % 2 == 0 && i + 1 < n {
                known = runtime_activation(operand);
                let inside: bool = dead || known.is_some() || is_builtin_call(
                    operand,
                    BuiltinFunction::NoEvent,
                );
                if !is_builtin_call(operand, BuiltinFunction::Edge) && !is_builtin_call(
                    operand,
                    BuiltinFunction::Change,
                ) && !is_builtin_call(operand, BuiltinFunction::Initial) {
                    insert_candidate(out, operand, here, inside, source);
                }
                collect_if_condition_candidates(operand, here, source, inside, out);
            } else if i % 2 == 1 {
                let off: bool = match known {
                    Some(b) => !b,
                    None => false,
                };
                collect_if_condition_candidates(operand, here, source, dead || off, out);
                let on: bool = match known {
                    Some(b) => b,
                    None => false,
                };
                dead = dead || on;
            } else {
                collect_if_condition_candidates(operand, here, source, dead, out);
                known = runtime_activation(operand);
            }
        } else {
            collect_if_condition_candidates(operand, here, source, inside_call, out);
        }
        i = i + 1;
    }
}

/// The candidates of the first `n` equations.
pub open spec fn equation_candidates(
    equations: Seq<EquationView>,
    n: int,
    list: Seq<CandidateView>,
) -> Seq<CandidateView>
    decreases n,
{
    if n <= 0 {
        list
    } else {
        let eq = equations[n - 1];
        expr_candidates(
            eq.rhs,
            eq.span,
            false,
            eq.origin,
            equation_candidates(equations, n - 1, list),
        )
    }
}

/// The candidates of the continuous equations and the discrete updates.
pub open spec fn model_candidates(m: DaeView) -> Seq<CandidateView> {
    let c = equation_candidates(m.continuous, m.continuous.len() as int, Seq::empty());
    let z = equation_candidates(m.real_updates, m.real_updates.len() as int, c);
    equation_candidates(m.valued_updates, m.valued_updates.len() as int, z)
}

/// Of the first `n` candidates, those that can change during a simulation.
pub open spec fn event_candidates(list: Seq<CandidateView>, m: DaeView, n: int) -> Seq<
    CandidateView,
>
    decreases n,
{
    if n <= 0 {
        Seq::empty()
    } else if can_vary(list[n - 1].expr, m) {
        event_candidates(list, m, n - 1).push(list[n - 1])
    } else {
        event_candidates(list, m, n - 1)
    }
}

/// The relations of a system that cause events.
pub open spec fn model_events(m: DaeView) -> Seq<CandidateView> {
    let all = model_candidates(m);
    event_candidates(all, m, all.len() as int)
}

fn collect_equations(equations: &Vec<Equation>, out: &mut Vec<ConditionCandidate>)
    ensures
        candidates_of(final(out)@) == equation_candidates(
            equation_views(equations@),
            equations@.len() as int,
            candidates_of(old(out)@),
        ),
{
    let ghost list = equation_views(equations@);
    let mut i: usize = 0;
    while i < equations.len()
        invariant
            i <= equations@.len(),
            list == equation_views(equations@),
            candidates_of(out@) == equation_candidates(
                list,
                i as int,
                candidates_of(old(out)@),
            ),
        decreases equations.len() - i,
    {
        let eq = &equations[i];
        assert(list[i as int] == eq@);
        collect_if_condition_candidates(&eq.rhs, eq.span, eq.origin.as_str(), false, out);
        i = i + 1;
    }
}

/// Whether the name of a variable is `name` or stands below it.
pub open spec fn conflicts(variable: Seq<char>, name: Seq<char>) -> bool {
    variable == name || (variable.len() > name.len() && variable.take(name.len() as int + 1) == name
        + "."@)
}

/// Whether a partition has a variable in the way of `name`.
pub open spec fn partition_conflicts(entries: Seq<Named<VariableView>>, name: Seq<char>) -> bool {
    exists|i: int| 0 <= i < entries.len() && conflicts((#[trigger] entries[i]).0, name)
}

/// Whether some variable is in the way of `name`.
pub open spec fn name_taken(vars: VariablesView, name: Seq<char>) -> bool {
    partition_conflicts(vars.states, name) || partition_conflicts(vars.algebraics, name)
        || partition_conflicts(vars.outputs, name) || partition_conflicts(vars.inputs, name)
        || partition_conflicts(vars.parameters, name) || partition_conflicts(vars.constants, name)
        || partition_conflicts(vars.discrete_reals, name) || partition_conflicts(
        vars.discrete_valued,
        name,
    )
}

fn variable_name_conflicts(variable: &str, name: &str) -> (r: bool)
    ensures
        r == conflicts(variable@, name@),
{
    if same_text(variable, name) {
        return true;
    }
    proof {
        reveal_strlit(".");
    }
    let n: usize = name.unicode_len();
    if variable.unicode_len() <= n {
        return false;
    }
    let mut prefix = owned(name);
    prefix.append(".");
    let head = variable.substring_char(0, n + 1);
    assert(head@ =~= variable@.take(n + 1));
    same_text(head, prefix.as_str())
}

fn partition_has_conflicting_name(partition: &NameMap<Variable>, name: &str) -> (r: bool)
    requires
        partition.wf(),
    ensures
        r == partition_conflicts(partition.views(), name@),
{
    let ghost entries = partition.views();
    let mut i: usize = 0;
    while i < partition.len()
        invariant
            partition.wf(),
            entries == partition.views(),
            i <= partition.entries().len(),
            forall|k: int| 0 <= k < i ==> !conflicts((#[trigger] entries[k]).0, name@),
        decreases partition.entries().len() - i,
    {
        assert(entries[i as int].0 == partition.entries()[i as int].0);
        if variable_name_conflicts(partition.name_at(i), name) {
            assert(conflicts(entries[i as int].0, name@));
            return true;
        }
        i = i + 1;
    }
    false
}

/// Whether some variable is in the way of `name`.
pub fn dae_variable_name_exists(vars: &DaeVariables, name: &str) -> (r: bool)
    requires
        vars.wf(),
    ensures
        r == name_taken(vars@, name@),
{
    partition_has_conflicting_name(&vars.states, name) || partition_has_conflicting_name(
        &vars.algebraics,
        name,
    ) || partition_has_conflicting_name(&vars.outputs, name) || partition_has_conflicting_name(
        &vars.inputs,
        name,
    ) || partition_has_conflicting_name(&vars.parameters, name) || partition_has_conflicting_name(
        &vars.constants,
        name,
    ) || partition_has_conflicting_name(&vars.discrete_reals, name)
        || partition_has_conflicting_name(&vars.discrete_valued, name)
}

/// The generated names for condition variables, one after the other.
pub open spec fn generated_name(k: nat) -> Seq<char> {
    if k == 0 {
        "__rumoca_c"@
    } else {
        "__rumoca_c_"@ + nat_text(k)
    }
}

/// The first generated name from `k` on that is free; nothing where all
/// numbered by a `u32` are taken.
pub open spec fn free_name_from(vars: VariablesView, k: nat) -> Option<Seq<char>>
    decreases u32::MAX + 1 - k,
{
    if k > u32::MAX {
        None
    } else if !name_taken(vars, generated_name(k)) {
        Some(generated_name(k))
    } else {
        free_name_from(vars, k + 1)
    }
}

/// The name of the condition variable: `c` where it is free, else the first
/// generated name that is.
pub open spec fn condition_name(vars: VariablesView) -> Option<Seq<char>> {
    if !name_taken(vars, "c"@) {
        Some("c"@)
    } else {
        free_name_from(vars, 0)
    }
}

/// A name that is chosen for the condition variable is free.
pub proof fn law_condition_name_is_free(vars: VariablesView)
    ensures
        condition_name(vars) matches Some(name) ==> !name_taken(vars, name),
{
    lemma_free_name(vars, 0);
}

/// A generated name is free.
pub proof fn lemma_free_name(vars: VariablesView, k: nat)
    ensures
        free_name_from(vars, k) matches Some(name) ==> !name_taken(vars, name),
    decreases u32::MAX + 1 - k,
{
    if k <= u32::MAX && name_taken(vars, generated_name(k)) {
        lemma_free_name(vars, k + 1);
    }
}

/// The first generated name that is free.
pub fn generated_condition_variable_name(vars: &DaeVariables) -> (r: Option<String>)
    requires
        vars.wf(),
    ensures
        match r {
            Some(s) => free_name_from(vars@, 0) == Some(s@),
            None => free_name_from(vars@, 0) is None,
        },
{
    let mut k: u64 = 0;
    while k <= u32::MAX as u64
        invariant
            vars.wf(),
            k <= u32::MAX as u64 + 1,
            free_name_from(vars@, 0) == free_name_from(vars@, k as nat),
        decreases u32::MAX as u64 + 1 - k,
    {
        let name: String = if k == 0 {
            owned("__rumoca_c")
        } else {
            let mut s = owned("__rumoca_c_");
            push_nat(&mut s, k);
            s
        };
        if !dae_variable_name_exists(vars, name.as_str()) {
            return Some(name);
        }
        k = k + 1;
    }
    None
}

fn canonical_condition_variable_name(vars: &DaeVariables) -> (r: Option<String>)
    requires
        vars.wf(),
    ensures
        match r {
            Some(s) => condition_name(vars@) == Some(s@),
            None => condition_name(vars@) is None,
        },
{
    if !dae_variable_name_exists(vars, "c") {
        return Some(owned("c"));
    }
    generated_condition_variable_name(vars)
}

/// The number of a condition as a subscript, which needs a source position.
pub open spec fn condition_subscript(index: nat, span: Span, context: Seq<char>) -> Result<
    i64,
    ToDaeErrorView,
> {
    if index > i64::MAX {
        Err(
            ToDaeErrorView::RuntimeMetadataViolation {
                message: context + " index exceeds i64 range"@,
                span: Some(span),
            },
        )
    } else if span == Span::dummy_spec() {
        Err(missing_provenance(context))
    } else {
        Ok(index as i64)
    }
}

/// The number of a condition as a subscript, which needs a source position.
pub fn condition_index_subscript(index: usize, span: Span, context: &str) -> (r: Result<
    i64,
    ToDaeError,
>)
    ensures
        match r {
            Ok(i) => condition_subscript(index as nat, span, context@) == Ok::<_, ToDaeErrorView>(
                i,
            ),
            Err(x) => condition_subscript(index as nat, span, context@) == Err::<i64, _>(x@),
        },
{
    if index as u64 > i64::MAX as u64 {
        let mut message = owned(context);
        message.append(" index exceeds i64 range");
        return Err(ToDaeError::RuntimeMetadataViolation { message, span: Some(span) });
    }
    if span.is_dummy() {
        return Err(missing_provenance_error(context));
    }
    Ok(index as i64)
}

/// The reference to condition number `index`.
pub open spec fn condition_reference(name: Seq<char>, index: nat, span: Span) -> Result<
    TargetView,
    ToDaeErrorView,
> {
    match condition_subscript(index, span, "canonical condition reference"@) {
        Ok(i) => Ok(TargetView::element(name, i, span)),
        Err(x) => Err(x),
    }
}

/// The reference to condition number `index`.
pub fn generated_condition_reference(name: &str, index: usize, span: Span) -> (r: Result<
    Reference,
    ToDaeError,
>)
    ensures
        match r {
            Ok(t) => condition_reference(name@, index as nat, span) == Ok::<_, ToDaeErrorView>(t@),
            Err(x) => condition_reference(name@, index as nat, span) == Err::<TargetView, _>(x@),
        },
{
    match condition_index_subscript(index, span, "canonical condition reference") {
        Ok(i) => Ok(Reference::generated_element(name, i, span)),
        Err(x) => Err(x),
    }
}

/// The condition equations of the first `n` candidates.
pub open spec fn condition_equations(
    events: Seq<CandidateView>,
    name: Seq<char>,
    n: int,
) -> Result<Seq<EquationView>, ToDaeErrorView>
    decreases n,
{
    if n <= 0 {
        Ok(Seq::empty())
    } else {
        match condition_equations(events, name, n - 1) {
            Err(x) => Err(x),
            Ok(front) => match condition_reference(name, n as nat, events[n - 1].span) {
                Ok(lhs) => Ok(
                    front.push(
                        EquationView {
                            lhs: Some(lhs),
                            rhs: events[n - 1].expr,
                            span: events[n - 1].span,
                            origin: "condition equation from "@ + events[n - 1].source,
                            scalar_count: 1,
                        },
                    ),
                ),
                Err(x) => Err(x),
            },
        }
    }
}

/// The relations of the candidates.
pub open spec fn relations_of(events: Seq<CandidateView>) -> Seq<ExprView> {
    events.map_values(|c: CandidateView| c.expr)
}

/// A model with its relations and its condition equations. Where the equations
/// cannot be built the old ones stay.
pub open spec fn with_conditions(m: DaeView) -> ModelPass {
    let events = model_events(m);
    let m1 = DaeView { relations: relations_of(events), ..m };
    match condition_name(m.variables) {
        None => ModelPass { model: m1, error: None },
        Some(name) => match condition_equations(events, name, events.len() as int) {
            Ok(equations) => ModelPass {
                model: DaeView { condition_equations: equations, ..m1 },
                error: None,
            },
            Err(x) => ModelPass { model: m1, error: Some(x) },
        },
    }
}

proof fn lemma_condition_equations_fail(
    events: Seq<CandidateView>,
    name: Seq<char>,
    k: int,
    n: int,
)
    requires
        0 <= k <= n,
        condition_equations(events, name, k) is Err,
    ensures
        condition_equations(events, name, n) == condition_equations(events, name, k),
    decreases n,
{
    if k < n {
        lemma_condition_equations_fail(events, name, k, n - 1);
    }
}

fn build_condition_equation(candidate: &ConditionCandidate, index: usize, name: &str) -> (r: Result<
    Equation,
    ToDaeError,
>)
    ensures
        match r {
            Ok(eq) => condition_reference(name@, index as nat, candidate@.span) matches Ok(lhs)
                && eq@ == (EquationView {
                lhs: Some(lhs),
                rhs: candidate@.expr,
                span: candidate@.span,
                origin: "condition equation from "@ + candidate@.source,
                scalar_count: 1,
            }),
            Err(x) => condition_reference(name@, index as nat, candidate@.span) == Err::<
                TargetView,
                _,
            >(x@),
        },
{
    let lhs = match generated_condition_reference(name, index, candidate.span) {
        Ok(lhs) => lhs,
        Err(x) => {
            return Err(x);
        },
    };
    let mut origin = owned("condition equation from ");
    origin.append(candidate.source.as_str());
    Ok(Equation::explicit(lhs, candidate.expr.clone(), candidate.span, origin.as_str()))
}

fn build_condition_equations(events: &Vec<ConditionCandidate>, name: &str) -> (r: Result<
    Vec<Equation>,
    ToDaeError,
>)
    ensures
        match r {
            Ok(list) => condition_equations(
                candidates_of(events@),
                name@,
                events@.len() as int,
            ) == Ok::<_, ToDaeErrorView>(equation_views(list@)),
            Err(x) => condition_equations(candidates_of(events@), name@, events@.len() as int)
                == Err::<Seq<EquationView>, _>(x@),
        },
{
    let ghost list = candidates_of(events@);
    let mut equations: Vec<Equation> = Vec::new();
    let mut i: usize = 0;
    assert(equation_views(equations@) =~= Seq::<EquationView>::empty());
    while i < events.len()
        invariant
            i <= events@.len(),
            list == candidates_of(events@),
            condition_equations(list, name@, i as int) == Ok::<_, ToDaeErrorView>(
                equation_views(equations@),
            ),
        decreases events.len() - i,
    {
        assert(list[i as int] == events@[i as int]@);
        match build_condition_equation(&events[i], i + 1, name) {
            Ok(eq) => {
                let ghost before = equation_views(equations@);
                let ghost content = eq@;
                equations.push(eq);
                assert(equation_views(equations@) =~= before.push(content));
            },
            Err(x) => {
                proof {
                    lemma_condition_equations_fail(list, name@, i + 1, list.len() as int);
                }
                return Err(x);
            },
        }
        i = i + 1;
    }
    Ok(equations)
}

fn keep_events(all: Vec<ConditionCandidate>, dae: &Dae) -> (events: Vec<ConditionCandidate>)
    requires
        dae.wf(),
    ensures
        candidates_of(events@) == event_candidates(
            candidates_of(all@),
            dae@,
            all@.len() as int,
        ),
{
    let ghost list = candidates_of(all@);
    let mut events: Vec<ConditionCandidate> = Vec::new();
    let mut i: usize = 0;
    assert(candidates_of(events@) =~= Seq::<CandidateView>::empty());
    while i < all.len()
        invariant
            dae.wf(),
            i <= all@.len(),
            list == candidates_of(all@),
            candidates_of(events@) == event_candidates(list, dae@, i as int),
        decreases all.len() - i,
    {
        let candidate = &all[i];
        assert(list[i as int] == candidate@);
        if expr_can_vary_during_simulation(&candidate.expr, dae) {
            let copy = ConditionCandidate {
                expr: candidate.expr.clone(),
                span: candidate.span,
                source: candidate.source.clone(),
            };
            let ghost before = candidates_of(events@);
            let ghost content = copy@;
            events.push(copy);
            assert(candidates_of(events@) =~= before.push(content));
        }
        i = i + 1;
    }
    events
}

/// Whether two systems agree on all but their conditions.
pub open spec fn same_but_conditions_partition(a: Dae, b: Dae) -> bool {
    &&& a.schema_version == b.schema_version
    &&& a.variables == b.variables
    &&& a.continuous == b.continuous
    &&& a.initialization == b.initialization
    &&& a.discrete == b.discrete
    &&& a.events == b.events
    &&& a.clocks == b.clocks
    &&& a.symbols == b.symbols
    &&& a.metadata == b.metadata
}

/// Gives a system its relations and the equations of the conditions.
pub fn populate_canonical_conditions(dae: &mut Dae) -> (r: Result<(), ToDaeError>)
    requires
        old(dae).wf(),
    ensures
        final(dae).wf(),
        same_but_conditions_partition(*final(dae), *old(dae)),
        passed(r, final(dae)@, with_conditions(old(dae)@)),
{
    let mut all: Vec<ConditionCandidate> = Vec::new();
    assert(candidates_of(all@) =~= Seq::<CandidateView>::empty());
    collect_equations(&dae.continuous.equations, &mut all);
    collect_equations(&dae.discrete.real_updates, &mut all);
    collect_equations(&dae.discrete.valued_updates, &mut all);
    assert(candidates_of(all@).len() == all@.len());
    let events = keep_events(all, &*dae);
    let ghost list = candidates_of(events@);
    let mut relations: Vec<Expression> = Vec::new();
    let mut i: usize = 0;
    assert(expr_views(relations@) =~= relations_of(list).take(0));
    while i < events.len()
        invariant
            i <= events@.len(),
            list == candidates_of(events@),
            expr_views(relations@) == relations_of(list).take(i as int),
        decreases events.len() - i,
    {
        assert(list[i as int] == events@[i as int]@);
        let copy = events[i].expr.clone();
        proof {
            lemma_expr_views_push(relations@, copy);
        }
        relations.push(copy);
        i = i + 1;
        assert(expr_views(relations@) =~= relations_of(list).take(i as int));
    }
    assert(relations_of(list).take(i as int) =~= relations_of(list));
    dae.conditions.relations = relations;
    let name = match canonical_condition_variable_name(&dae.variables) {
        Some(name) => name,
        None => {
            return Ok(());
        },
    };
    match build_condition_equations(&events, name.as_str()) {
        Ok(equations) => {
            dae.conditions.equations = equations;
            Ok(())
        },
        Err(x) => Err(x),
    }
}

/// Whether no relation occurs twice, wherever it stands.
pub open spec fn each_once(list: Seq<CandidateView>) -> bool {
    forall|i: int, j: int|
        0 <= i < j < list.len() ==> (#[trigger] list[i]).expr.unplaced() != (
        #[trigger] list[j]).expr.unplaced()
}

proof fn lemma_with_candidate_once(
    list: Seq<CandidateView>,
    e: ExprView,
    around: Span,
    suppressed: bool,
    source: Seq<char>,
)
    requires
        each_once(list),
    ensures
        each_once(with_candidate(list, e, around, suppressed, source)),
{
    let after = with_candidate(list, e, around, suppressed, source);
    assert forall|i: int, j: int| 0 <= i < j < after.len() implies (
    #[trigger] after[i]).expr.unplaced() != (#[trigger] after[j]).expr.unplaced() by {
        if j < list.len() {
            assert(list[i].expr.unplaced() != list[j].expr.unplaced());
        } else {
            assert(after[i] == list[i]);
        }
    }
}

proof fn lemma_expr_candidates_once(
    e: ExprView,
    around: Span,
    suppressed: bool,
    source: Seq<char>,
    list: Seq<CandidateView>,
)
    requires
        each_once(list),
    ensures
        each_once(expr_candidates(e, around, suppressed, source, list)),
    decreases e, e.args.len() + 1,
{
    let here = position(e, around);
    lemma_with_candidate_once(list, e, here, suppressed, source);
    if e.args.len() > 0 {
        lemma_with_candidate_once(list, e.args[0], here, suppressed, source);
    }
    lemma_operand_candidates_once(
        e,
        e.args.len() as int,
        here,
        suppressed,
        source,
        node_candidates(e, here, suppressed, source, list),
    );
}

proof fn lemma_operand_candidates_once(
    e: ExprView,
    n: int,
    here: Span,
    suppressed: bool,
    source: Seq<char>,
    list: Seq<CandidateView>,
)
    requires
        each_once(list),
    ensures
        each_once(operand_candidates(e, n, here, suppressed, source, list)),
    decreases e, n,
{
    if 0 < n <= e.args.len() {
        lemma_operand_candidates_once(e, n - 1, here, suppressed, source, list);
        let before = operand_candidates(e, n - 1, here, suppressed, source, list);
        let inside = suppressed_in(e, n - 1, suppressed);
        lemma_with_candidate_once(before, e.args[n - 1], here, inside, source);
        let seen = if e.node is If && is_condition(e.args, n - 1) {
            with_condition(before, e.args[n - 1], here, inside, source)
        } else {
            before
        };
        lemma_expr_candidates_once(e.args[n - 1], here, inside, source, seen);
    }
}

proof fn lemma_equation_candidates_once(
    equations: Seq<EquationView>,
    n: int,
    list: Seq<CandidateView>,
)
    requires
        each_once(list),
    ensures
        each_once(equation_candidates(equations, n, list)),
    decreases n,
{
    if n > 0 {
        lemma_equation_candidates_once(equations, n - 1, list);
        let eq = equations[n - 1];
        lemma_expr_candidates_once(
            eq.rhs,
            eq.span,
            false,
            eq.origin,
            equation_candidates(equations, n - 1, list),
        );
    }
}

/// Every event candidate stands among the candidates, later ones later.
proof fn lemma_event_candidates(list: Seq<CandidateView>, m: DaeView, n: int, k: int) -> (at: int)
    requires
        0 <= n <= list.len(),
        0 <= k < event_candidates(list, m, n).len(),
    ensures
        0 <= at < n,
        list[at] == event_candidates(list, m, n)[k],
        can_vary(list[at].expr, m),
        event_candidates(list, m, at).len() == k,
        event_candidates(list, m, at + 1).len() == k + 1,
    decreases n,
{
    if can_vary(list[n - 1].expr, m) && k == event_candidates(list, m, n).len() - 1 {
        n - 1
    } else {
        lemma_event_candidates(list, m, n - 1, k)
    }
}

proof fn lemma_event_count_grows(list: Seq<CandidateView>, m: DaeView, a: int, b: int)
    requires
        0 <= a <= b,
    ensures
        event_candidates(list, m, a).len() <= event_candidates(list, m, b).len(),
    decreases b,
{
    if a < b {
        lemma_event_count_grows(list, m, a, b - 1);
    }
}

/// The relations of a system are those that can change during a simulation, and
/// no relation occurs twice, wherever it stands in the source.
pub proof fn law_relations_are_interned(m: DaeView)
    ensures
        each_once(model_events(m)),
        forall|i: int|
            0 <= i < model_events(m).len() ==> can_vary((#[trigger] model_events(m)[i]).expr, m),
{
    let none = Seq::<CandidateView>::empty();
    lemma_equation_candidates_once(m.continuous, m.continuous.len() as int, none);
    let c = equation_candidates(m.continuous, m.continuous.len() as int, none);
    lemma_equation_candidates_once(m.real_updates, m.real_updates.len() as int, c);
    let z = equation_candidates(m.real_updates, m.real_updates.len() as int, c);
    lemma_equation_candidates_once(m.valued_updates, m.valued_updates.len() as int, z);
    let all = model_candidates(m);
    let events = model_events(m);
    let n = all.len() as int;
    assert forall|i: int, j: int| 0 <= i < j < events.len() implies (
    #[trigger] events[i]).expr.unplaced() != (#[trigger] events[j]).expr.unplaced() by {
        let a = lemma_event_candidates(all, m, n, i);
        let b = lemma_event_candidates(all, m, n, j);
        if b <= a {
            lemma_event_count_grows(all, m, b + 1, a + 1);
        }
        assert(all[a].expr.unplaced() != all[b].expr.unplaced());
    }
    assert forall|i: int| 0 <= i < events.len() implies can_vary(
        (#[trigger] events[i]).expr,
        m,
    ) by {
        let a = lemma_event_candidates(all, m, n, i);
    }
}

proof fn lemma_condition_equations(events: Seq<CandidateView>, name: Seq<char>, n: int)
    requires
        0 <= n <= events.len(),
    ensures
        condition_equations(events, name, n) matches Ok(list) ==> list.len() == n && (forall|i: int|
            0 <= i < n ==> (#[trigger] list[i]).rhs == events[i].expr && list[i].lhs == Some(
                TargetView::element(name, (i + 1) as i64, events[i].span),
            )),
    decreases n,
{
    if n > 0 {
        lemma_condition_equations(events, name, n - 1);
    }
}

/// Where the condition equations can be built there is one for each relation:
/// equation number `i` gives element `i` of the condition variable the truth of
/// relation `i`.
pub proof fn law_conditions_follow_relations(m: DaeView)
    requires
        with_conditions(m).error is None,
        condition_name(m.variables) is Some,
    ensures
        ({
            let after = with_conditions(m).model;
            let name = condition_name(m.variables)->0;
            &&& after.condition_equations.len() == after.relations.len()
            &&& forall|i: int|
                0 <= i < after.relations.len() ==> {
                    let eq = #[trigger] after.condition_equations[i];
                    &&& eq.rhs == after.relations[i]
                    &&& eq.lhs == Some(TargetView::element(name, (i + 1) as i64, eq.span))
                }
        }),
{
    let events = model_events(m);
    let name = condition_name(m.variables)->0;
    lemma_condition_equations(events, name, events.len() as int);
    lemma_condition_spans(events, name, events.len() as int);
}

proof fn lemma_condition_spans(events: Seq<CandidateView>, name: Seq<char>, n: int)
    requires
        0 <= n <= events.len(),
    ensures
        condition_equations(events, name, n) matches Ok(list) ==> list.len() == n && (forall|i: int|
            0 <= i < n ==> (#[trigger] list[i]).span == events[i].span),
    decreases n,
{
    if n > 0 {
        lemma_condition_spans(events, name, n - 1);
    }
}

} // verus!
