//! What holds of the lowering of left limits as a whole.
use crate::dae::const_eval::{lemma_static_choice, static_choice};
use crate::dae::equation::{EquationView, TargetView};
use crate::dae::error::ToDaeErrorView;
use crate::dae::model::{DaeView, VariablesView};
use crate::dae::pre_lowering::{
    declared_targets, list_pass, list_targets, lower_pre, model_targets, rhs_of,
    target_parameters, whole_pass, with_parameters, with_rhs, ListPass, ModelPass,
};
use crate::dae::pre_rewrite::{
    known_target, memory_of, memory_pre, operand_value, pre_free, pre_name, pre_ref, pre_rewrite,
    pre_rewrite_args, reached, rebuilt, remembered, rising, value_rewrite, value_rewrite_args,
    walked,
};
use crate::dae::pre_targets::{
    expr_targets, index_subscripts, is_pre_name, operand_targets, target_parts, temporal_of,
    Targets, Temporal,
};
use crate::dae::relation_memory::{
    as_indices, equation_memories, memory_target, memory_variable, relation_count,
    relation_memories, relation_offset, scalar_memory, Memory,
};
use crate::dae::shape::position_subscripts;
use crate::dae::variable::VariableView;
use crate::expr::tree::{BuiltinFunction, ExprView, NodeView};
use crate::ir::name_map::{index_of_name, named, Named};
use crate::span::Span;
use vstd::prelude::*;

verus! {

/// Whether a left limit is taken in none of the expressions.
pub open spec fn all_pre_free(list: Seq<ExprView>) -> bool {
    forall|i: int| 0 <= i < list.len() ==> pre_free(#[trigger] list[i])
}

/// Whether a left limit is taken in nothing that remembers a relation.
pub open spec fn free_memories(memories: Seq<Memory>) -> bool {
    forall|i: int| 0 <= i < memories.len() ==> pre_free((#[trigger] memories[i]).1)
}

/// Names of parameters that hold left limits.
pub type Known = spec_fn(Seq<char>) -> bool;

/// Any name at all.
pub open spec fn any_name() -> Known {
    |name: Seq<char>| true
}

/// Whether every reference to a left limit in an expression names a parameter.
pub open spec fn limits_known(e: ExprView, known: Known) -> bool
    decreases e,
{
    &&& e.node matches NodeView::VarRef { name } ==> is_pre_name(name) ==> known(name)
    &&& forall|i: int| 0 <= i < e.args.len() ==> limits_known(#[trigger] e.args[i], known)
}

/// Whether every reference to a left limit in the expressions names a parameter.
pub open spec fn all_limits_known(list: Seq<ExprView>, known: Known) -> bool {
    forall|i: int| 0 <= i < list.len() ==> limits_known(#[trigger] list[i], known)
}

/// Whether a node takes no left limit, and reads only one that is a parameter.
pub open spec fn node_is_clean(node: NodeView, known: Known) -> bool {
    &&& temporal_of(node) != Some(Temporal::Pre)
    &&& node matches NodeView::VarRef { name } ==> is_pre_name(name) ==> known(name)
}

/// Whether all nodes of an expression take no left limit and read only those that
/// are parameters.
pub open spec fn clean(e: ExprView, known: Known) -> bool
    decreases e,
{
    &&& node_is_clean(e.node, known)
    &&& forall|i: int| 0 <= i < e.args.len() ==> clean(#[trigger] e.args[i], known)
}

/// The same for each of the expressions.
pub open spec fn all_clean(list: Seq<ExprView>, known: Known) -> bool {
    forall|i: int| 0 <= i < list.len() ==> clean(#[trigger] list[i], known)
}

/// Whether the left limits of all targets are parameters.
pub open spec fn targets_known(targets: Targets, known: Known) -> bool {
    forall|i: int|
        0 <= i < targets.len() ==> known(pre_name((#[trigger] targets[i]).1.source_name))
}

/// Whether what remembers a relation is clean, and its left limit a parameter.
pub open spec fn memory_is_clean(memory: ExprView, known: Known) -> bool {
    &&& clean(memory, known)
    &&& target_parts(memory) matches Ok(Some((name, _))) ==> known(pre_name(name))
}

/// The same for each of the memories.
pub open spec fn memories_clean(memories: Seq<Memory>, known: Known) -> bool {
    forall|i: int| 0 <= i < memories.len() ==> memory_is_clean((#[trigger] memories[i]).1, known)
}

proof fn lemma_clean_parts(e: ExprView, known: Known)
    requires
        clean(e, known),
    ensures
        pre_free(e),
        limits_known(e, known),
    decreases e,
{
    assert forall|i: int| 0 <= i < e.args.len() implies pre_free(#[trigger] e.args[i])
        && limits_known(e.args[i], known) by {
        lemma_clean_parts(e.args[i], known);
    }
}

proof fn lemma_free_is_clean(e: ExprView, known: Known)
    requires
        pre_free(e),
        limits_known(e, known),
    ensures
        clean(e, known),
    decreases e,
{
    assert forall|i: int| 0 <= i < e.args.len() implies clean(#[trigger] e.args[i], known) by {
        lemma_free_is_clean(e.args[i], known);
    }
}

proof fn lemma_any_limit_known(e: ExprView)
    ensures
        limits_known(e, any_name()),
    decreases e,
{
    assert forall|i: int| 0 <= i < e.args.len() implies limits_known(
        #[trigger] e.args[i],
        any_name(),
    ) by {
        lemma_any_limit_known(e.args[i]);
    }
}

proof fn lemma_target_known(
    parts: Option<(Seq<char>, Seq<ExprView>)>,
    targets: Targets,
    known: Known,
)
    requires
        targets_known(targets, known),
    ensures
        known_target(parts, targets) matches Some((name, _, _)) ==> known(pre_name(name)),
{
    if known_target(parts, targets) is Some {
        let (name, _) = parts->0;
        let at = index_of_name(targets, name);
        assert(known(pre_name(targets[at].1.source_name)));
    }
}

proof fn lemma_index_subscripts_clean(subs: Seq<i64>, span: Span, known: Known)
    ensures
        all_clean(index_subscripts(subs, span), known),
{
    let list = index_subscripts(subs, span);
    assert forall|i: int| 0 <= i < list.len() implies clean(#[trigger] list[i], known) by {
        assert(list[i].args.len() == 0);
    }
}

/// The subscripts of what an expression denotes stand in the expression.
proof fn lemma_parts_are_clean(e: ExprView, known: Known)
    requires
        clean(e, known),
    ensures
        target_parts(e) matches Ok(Some((_, subs))) ==> all_clean(subs, known),
    decreases e,
{
    match e.node {
        NodeView::VarRef { name } => {
            let subs = crate::dae::scalar_name::encoded_parts(name).1;
            lemma_index_subscripts_clean(subs, e.span, known);
        },
        NodeView::Index => {
            if e.args.len() > 0 {
                lemma_parts_are_clean(e.args[0], known);
            }
        },
        NodeView::FieldAccess { .. } => {
            if e.args.len() > 0 {
                lemma_parts_are_clean(e.args[0], known);
            }
        },
        _ => {},
    }
}

proof fn lemma_pre_ref_clean(name: Seq<char>, subs: Seq<ExprView>, span: Span, known: Known)
    requires
        all_clean(subs, known),
        known(pre_name(name)),
    ensures
        clean(pre_ref(name, subs, span), known),
{
    let e = pre_ref(name, subs, span);
    assert(e.args == subs);
}

proof fn lemma_rebuilt_clean(e: ExprView, front: Seq<ExprView>, known: Known)
    requires
        node_is_clean(e.node, known),
        all_clean(front, known),
        front.len() <= e.args.len(),
        forall|i: int| front.len() <= i < e.args.len() ==> clean(#[trigger] e.args[i], known),
    ensures
        clean(rebuilt(e, front), known),
{
    let r = rebuilt(e, front);
    assert forall|i: int| 0 <= i < r.args.len() implies clean(#[trigger] r.args[i], known) by {
        if i < front.len() {
            assert(r.args[i] == front[i]);
        } else {
            assert(r.args[i] == e.args[i]);
        }
    }
}

proof fn lemma_value_clean(e: ExprView, targets: Targets, known: Known)
    requires
        clean(e, known),
        targets_known(targets, known),
    ensures
        value_rewrite(e, targets) matches Ok(value) ==> clean(value, known),
    decreases e, e.args.len() + 1,
{
    lemma_parts_are_clean(e, known);
    if let Ok(parts) = target_parts(e) {
        if let Some((name, subs, first_use)) = known_target(parts, targets) {
            let span = match e.source() {
                Some(span) => span,
                None => first_use,
            };
            lemma_target_known(parts, targets, known);
            lemma_pre_ref_clean(name, subs, span, known);
        } else if !(e.node == NodeView::BuiltinCall(BuiltinFunction::Sample) && e.args.len() != 1) {
            lemma_value_args_clean(e, walked(e) as int, targets, known);
            if let Ok(front) = value_rewrite_args(e, walked(e) as int, targets) {
                lemma_rebuilt_clean(e, front, known);
            }
        }
    }
}

proof fn lemma_value_args_clean(e: ExprView, n: int, targets: Targets, known: Known)
    requires
        clean(e, known),
        targets_known(targets, known),
        0 <= n <= e.args.len(),
    ensures
        value_rewrite_args(e, n, targets) matches Ok(front) ==> front.len() == n && all_clean(
            front,
            known,
        ),
    decreases e, n,
{
    if n > 0 {
        lemma_value_args_clean(e, n - 1, targets, known);
        lemma_value_clean(e.args[n - 1], targets, known);
    }
}

proof fn lemma_memory_is_clean(memories: Seq<Memory>, n: int, relation: ExprView, known: Known)
    requires
        0 <= n <= memories.len(),
        memories_clean(memories, known),
    ensures
        memory_of(memories, n, relation) matches Some(memory) ==> memory_is_clean(memory, known),
    decreases n,
{
    if n > 0 {
        lemma_memory_is_clean(memories, n - 1, relation, known);
        assert(memory_is_clean(memories[n - 1].1, known));
    }
}

proof fn lemma_memory_pre_clean(memory: ExprView, span: Span, known: Known)
    requires
        memory_is_clean(memory, known),
    ensures
        memory_pre(memory, span) matches Ok(previous) ==> clean(previous, known),
{
    lemma_parts_are_clean(memory, known);
    if let Ok(Some((name, subs))) = target_parts(memory) {
        lemma_pre_ref_clean(name, subs, span, known);
    }
}

proof fn lemma_rising_clean(current: ExprView, previous: ExprView, span: Span, known: Known)
    requires
        clean(current, known),
        clean(previous, known),
    ensures
        clean(rising(current, previous, span), known),
{
    let r = rising(current, previous, span);
    let not = r.args[1];
    assert(not.args == seq![previous]);
    assert(clean(not, known)) by {
        assert forall|i: int| 0 <= i < not.args.len() implies clean(
            #[trigger] not.args[i],
            known,
        ) by {
            assert(not.args[i] == previous);
        }
    }
    assert forall|i: int| 0 <= i < r.args.len() implies clean(#[trigger] r.args[i], known) by {
        if i == 0 {
            assert(r.args[i] == current);
        } else {
            assert(r.args[i] == not);
        }
    }
}

proof fn lemma_operand_value_clean(
    e: ExprView,
    targets: Targets,
    memories: Seq<Memory>,
    known: Known,
)
    requires
        limits_known(e, known),
        targets_known(targets, known),
        memories_clean(memories, known),
    ensures
        operand_value(e, targets, memories) matches Ok(value) ==> clean(value, known),
    decreases e, e.args.len() + 2,
{
    if pre_free(e) {
        lemma_free_is_clean(e, known);
        lemma_value_clean(e, targets, known);
    } else {
        lemma_rewritten_clean(e, targets, memories, known);
        if let Ok(current) = pre_rewrite(e, targets, memories) {
            lemma_value_clean(current, targets, known);
        }
    }
}

proof fn lemma_rewritten_clean(e: ExprView, targets: Targets, memories: Seq<Memory>, known: Known)
    requires
        limits_known(e, known),
        targets_known(targets, known),
        memories_clean(memories, known),
    ensures
        pre_rewrite(e, targets, memories) matches Ok(after) ==> clean(after, known),
    decreases e, e.args.len() + 1,
{
    let n = e.args.len() as int;
    if n > 0 {
        lemma_memory_is_clean(memories, memories.len() as int, e.args[0], known);
    }
    match temporal_of(e.node) {
        Some(Temporal::Pre) => {
            if n > 0 && remembered(memories, e.args[0]) is Some {
                lemma_memory_pre_clean(remembered(memories, e.args[0])->0, e.span, known);
            } else {
                lemma_args_clean(e, n, targets, memories, known);
                if let Ok(args) = pre_rewrite_args(e, n, targets, memories) {
                    if n > 0 {
                        assert(clean(args[0], known));
                        lemma_parts_are_clean(args[0], known);
                        if let Ok(parts) = target_parts(args[0]) {
                            if let Some((name, subs, _)) = known_target(parts, targets) {
                                lemma_target_known(parts, targets, known);
                                lemma_pre_ref_clean(name, subs, e.span, known);
                            } else {
                                lemma_value_clean(args[0], targets, known);
                            }
                        }
                    }
                }
            }
        },
        Some(Temporal::Edge) => {
            if n > 0 {
                match remembered(memories, e.args[0]) {
                    Some(memory) => {
                        lemma_memory_pre_clean(memory, e.span, known);
                        if let Ok(previous) = memory_pre(memory, e.span) {
                            lemma_rising_clean(memory, previous, e.span, known);
                        }
                    },
                    None => {
                        lemma_rewritten_clean(e.args[0], targets, memories, known);
                        if let Ok(current) = pre_rewrite(e.args[0], targets, memories) {
                            lemma_value_clean(current, targets, known);
                            if let Ok(previous) = value_rewrite(current, targets) {
                                lemma_rising_clean(current, previous, e.span, known);
                            }
                        }
                    },
                }
            }
        },
        Some(Temporal::Change) => {
            if n > 0 {
                lemma_rewritten_clean(e.args[0], targets, memories, known);
                lemma_operand_value_clean(e.args[0], targets, memories, known);
                if let Ok(after) = pre_rewrite(e, targets, memories) {
                    let current = pre_rewrite(e.args[0], targets, memories)->Ok_0;
                    let previous = operand_value(e.args[0], targets, memories)->Ok_0;
                    assert(after.args == seq![current, previous]);
                    assert forall|i: int| 0 <= i < after.args.len() implies clean(
                        #[trigger] after.args[i],
                        known,
                    ) by {
                        if i == 0 {
                            assert(after.args[i] == current);
                        } else {
                            assert(after.args[i] == previous);
                        }
                    }
                }
            }
        },
        Some(Temporal::Sample) => {
            if n == 1 {
                lemma_operand_value_clean(e.args[0], targets, memories, known);
            } else {
                lemma_args_clean(e, n, targets, memories, known);
                reveal_strlit("__rumoca_sample");
                reveal_strlit("pre");
                assert("__rumoca_sample"@.len() != "pre"@.len());
                if let Ok(after) = pre_rewrite(e, targets, memories) {
                    assert(all_clean(after.args, known));
                    assert(temporal_of(after.node) != Some(Temporal::Pre));
                }
            }
        },
        Some(Temporal::Previous) => {
            reveal_strlit("previous");
            reveal_strlit("pre");
            assert("previous"@.len() != "pre"@.len());
            if n > 0 {
                lemma_operand_value_clean(e.args[0], targets, memories, known);
            }
        },
        None => {
            lemma_static_choice(e.args, 0);
            if e.node is If && static_choice(e.args, 0) is Some {
                let chosen = static_choice(e.args, 0)->0;
                lemma_rewritten_clean(e.args[chosen], targets, memories, known);
            } else {
                lemma_args_clean(e, reached(e) as int, targets, memories, known);
                assert forall|i: int| reached(e) <= i < e.args.len() implies clean(
                    #[trigger] e.args[i],
                    known,
                ) by {
                    lemma_free_is_clean(e.args[i], known);
                }
                if let Ok(front) = pre_rewrite_args(e, reached(e) as int, targets, memories) {
                    lemma_rebuilt_clean(e, front, known);
                }
            }
        },
    }
}

proof fn lemma_args_clean(
    e: ExprView,
    n: int,
    targets: Targets,
    memories: Seq<Memory>,
    known: Known,
)
    requires
        limits_known(e, known),
        targets_known(targets, known),
        memories_clean(memories, known),
        0 <= n <= e.args.len(),
    ensures
        pre_rewrite_args(e, n, targets, memories) matches Ok(front) ==> front.len() == n
            && all_clean(front, known),
    decreases e, n,
{
    if n > 0 {
        lemma_args_clean(e, n - 1, targets, memories, known);
        lemma_rewritten_clean(e.args[n - 1], targets, memories, known);
    }
}

/// No left limit survives the rewriting of an expression.
pub proof fn law_no_pre_survives(e: ExprView, targets: Targets, memories: Seq<Memory>)
    requires
        free_memories(memories),
    ensures
        pre_rewrite(e, targets, memories) matches Ok(after) ==> pre_free(after),
{
    let known = any_name();
    lemma_any_limit_known(e);
    assert forall|i: int| 0 <= i < memories.len() implies memory_is_clean(
        (#[trigger] memories[i]).1,
        known,
    ) by {
        lemma_any_limit_known(memories[i].1);
        lemma_free_is_clean(memories[i].1, known);
    }
    lemma_rewritten_clean(e, targets, memories, known);
    if let Ok(after) = pre_rewrite(e, targets, memories) {
        lemma_clean_parts(after, known);
    }
}

/// Where the left limits of the targets and of what remembers relations are
/// parameters, every left limit that a rewritten expression reads is one.
pub proof fn law_left_limits_are_parameters(
    e: ExprView,
    targets: Targets,
    memories: Seq<Memory>,
    known: Known,
)
    requires
        limits_known(e, known),
        targets_known(targets, known),
        memories_clean(memories, known),
    ensures
        pre_rewrite(e, targets, memories) matches Ok(after) ==> limits_known(after, known),
{
    lemma_rewritten_clean(e, targets, memories, known);
    if let Ok(after) = pre_rewrite(e, targets, memories) {
        lemma_clean_parts(after, known);
    }
}

/// A whole list rewritten without an error is rewritten element by element.
pub proof fn lemma_list_pass_elements(
    list: Seq<ExprView>,
    n: int,
    targets: Targets,
    memories: Seq<Memory>,
)
    requires
        0 <= n <= list.len(),
        list_pass(list, n, targets, memories).error is None,
    ensures
        list_pass(list, n, targets, memories).list.len() == list.len(),
        forall|i: int|
            0 <= i < n ==> pre_rewrite(list[i], targets, memories) == Ok::<_, ToDaeErrorView>(
                #[trigger] list_pass(list, n, targets, memories).list[i],
            ),
        forall|i: int|
            n <= i < list.len() ==> #[trigger] list_pass(list, n, targets, memories).list[i]
                == list[i],
    decreases n,
{
    if n > 0 {
        lemma_list_pass_elements(list, n - 1, targets, memories);
    }
}

proof fn lemma_list_free(list: Seq<ExprView>, targets: Targets, memories: Seq<Memory>)
    requires
        free_memories(memories),
        whole_pass(list, targets, memories).error is None,
    ensures
        all_pre_free(whole_pass(list, targets, memories).list),
{
    lemma_list_pass_elements(list, list.len() as int, targets, memories);
    let after = whole_pass(list, targets, memories).list;
    assert forall|i: int| 0 <= i < after.len() implies pre_free(#[trigger] after[i]) by {
        law_no_pre_survives(list[i], targets, memories);
    }
}

/// Whether a left limit is taken nowhere in a model.
pub open spec fn model_pre_free(m: DaeView) -> bool {
    &&& all_pre_free(rhs_of(m.continuous))
    &&& all_pre_free(rhs_of(m.real_updates))
    &&& all_pre_free(rhs_of(m.valued_updates))
    &&& all_pre_free(rhs_of(m.condition_equations))
    &&& all_pre_free(m.relations)
    &&& all_pre_free(m.triggered)
    &&& all_pre_free(m.action_conditions)
    &&& all_pre_free(rhs_of(m.initial))
}

proof fn lemma_with_rhs(equations: Seq<EquationView>, list: Seq<ExprView>)
    requires
        list.len() == equations.len(),
    ensures
        rhs_of(with_rhs(equations, list)) == list,
{
    assert(rhs_of(with_rhs(equations, list)) =~= list);
}

/// The targets and memories that the lowering of a model works with.
pub open spec fn lowering_data(m: DaeView) -> Option<(Targets, Seq<Memory>)> {
    match declared_targets(m) {
        Ok(targets) => match target_parameters(m.variables, targets, targets.len() as int) {
            Ok(new) => match relation_memories(
                VariablesView {
                    parameters: with_parameters(m.variables.parameters, new, new.len() as int),
                    ..m.variables
                },
                m.relations,
                m.condition_equations,
                m.condition_equations.len() as int,
            ) {
                Ok(memories) => Some((targets, memories)),
                Err(_) => None,
            },
            Err(_) => None,
        },
        Err(_) => None,
    }
}

proof fn lemma_equation_memories_free(
    vars: VariablesView,
    relations: Seq<ExprView>,
    eq: EquationView,
    offset: int,
    k: int,
)
    ensures
        equation_memories(vars, relations, eq, offset, k) matches Ok(list) ==> free_memories(list),
    decreases k,
{
    if k > 0 && eq.lhs is Some {
        lemma_equation_memories_free(vars, relations, eq, offset, k - 1);
        let count = relation_count(eq);
        if let Ok(memory) = scalar_memory(vars, eq.lhs->0, (k - 1) as usize, count, eq.span) {
            lemma_scalar_memory_free(vars, eq.lhs->0, (k - 1) as usize, count, eq.span);
        }
    }
}

proof fn lemma_scalar_memory_free(
    vars: VariablesView,
    lhs: TargetView,
    flat_index: usize,
    scalar_count: usize,
    span: Span,
)
    ensures
        scalar_memory(vars, lhs, flat_index, scalar_count, span) matches Ok(memory) ==> pre_free(
            memory,
        ),
{
    if let Ok(memory) = scalar_memory(vars, lhs, flat_index, scalar_count, span) {
        let target = memory_target(lhs, span)->Ok_0;
        lemma_index_subscripts_clean(target.subscripts, target.span, any_name());
        let variable = memory_variable(vars, target.variable_name)->0;
        if let Some(subs) = position_subscripts(variable.dims, flat_index) {
            lemma_index_subscripts_clean(as_indices(subs), span, any_name());
        }
        assert forall|i: int| 0 <= i < memory.args.len() implies pre_free(
            #[trigger] memory.args[i],
        ) by {
            lemma_clean_parts(memory.args[i], any_name());
        }
    }
}

proof fn lemma_memories_free(
    vars: VariablesView,
    relations: Seq<ExprView>,
    equations: Seq<EquationView>,
    n: int,
)
    ensures
        relation_memories(vars, relations, equations, n) matches Ok(list) ==> free_memories(list),
    decreases n,
{
    if n > 0 {
        lemma_memories_free(vars, relations, equations, n - 1);
        lemma_equation_memories_free(
            vars,
            relations,
            equations[n - 1],
            relation_offset(equations, n - 1),
            relation_count(equations[n - 1]) as int,
        );
        if let Ok(list) = relation_memories(vars, relations, equations, n) {
            let front = relation_memories(vars, relations, equations, n - 1)->Ok_0;
            assert forall|i: int| 0 <= i < list.len() implies pre_free((#[trigger] list[i]).1) by {
                if i < front.len() {
                    assert(list[i] == front[i]);
                }
            }
        }
    }
}

/// Where the lowering of a model succeeds, no left limit survives in any
/// equation, relation, clock condition or action.
pub proof fn law_lowered_model_is_pre_free(m: DaeView)
    requires
        lower_pre(m).error is None,
    ensures
        model_pre_free(lower_pre(m).model),
{
    let (t, k) = lowering_data(m)->0;
    let new = target_parameters(m.variables, t, t.len() as int)->Ok_0;
    lemma_memories_free(
        VariablesView {
            parameters: with_parameters(m.variables.parameters, new, new.len() as int),
            ..m.variables
        },
        m.relations,
        m.condition_equations,
        m.condition_equations.len() as int,
    );
    let after = lower_pre(m).model;
    lemma_list_free(rhs_of(m.continuous), t, k);
    lemma_list_free(rhs_of(m.real_updates), t, k);
    lemma_list_free(rhs_of(m.valued_updates), t, k);
    lemma_list_free(rhs_of(m.condition_equations), t, k);
    lemma_list_free(m.relations, t, k);
    lemma_list_free(m.triggered, t, k);
    lemma_list_free(m.action_conditions, t, k);
    lemma_list_free(rhs_of(m.initial), t, k);
    lemma_list_pass_elements(rhs_of(m.continuous), rhs_of(m.continuous).len() as int, t, k);
    lemma_list_pass_elements(rhs_of(m.real_updates), rhs_of(m.real_updates).len() as int, t, k);
    lemma_list_pass_elements(
        rhs_of(m.valued_updates),
        rhs_of(m.valued_updates).len() as int,
        t,
        k,
    );
    lemma_list_pass_elements(
        rhs_of(m.condition_equations),
        rhs_of(m.condition_equations).len() as int,
        t,
        k,
    );
    lemma_list_pass_elements(rhs_of(m.initial), rhs_of(m.initial).len() as int, t, k);
    lemma_with_rhs(m.continuous, whole_pass(rhs_of(m.continuous), t, k).list);
    lemma_with_rhs(m.real_updates, whole_pass(rhs_of(m.real_updates), t, k).list);
    lemma_with_rhs(m.valued_updates, whole_pass(rhs_of(m.valued_updates), t, k).list);
    lemma_with_rhs(m.condition_equations, whole_pass(rhs_of(m.condition_equations), t, k).list);
    lemma_with_rhs(m.initial, whole_pass(rhs_of(m.initial), t, k).list);
}

/// Whether nothing in an expression is for the lowering to change: no temporal
/// call and no conditional whose branch is known.
pub open spec fn settled(e: ExprView) -> bool
    decreases e,
{
    &&& temporal_of(e.node) is None
    &&& !(e.node is If && static_choice(e.args, 0) is Some)
    &&& forall|i: int| 0 <= i < e.args.len() ==> settled(#[trigger] e.args[i])
}

/// Whether nothing in a list of expressions is for the lowering to change.
pub open spec fn all_settled(list: Seq<ExprView>) -> bool {
    forall|i: int| 0 <= i < list.len() ==> settled(#[trigger] list[i])
}

/// Rewriting leaves a settled expression as it is.
pub proof fn law_settled_expression_stays(e: ExprView, targets: Targets, memories: Seq<Memory>)
    requires
        settled(e),
    ensures
        pre_rewrite(e, targets, memories) == Ok::<_, ToDaeErrorView>(e),
    decreases e, e.args.len() + 1,
{
    lemma_settled_args(e, reached(e) as int, targets, memories);
    let front = e.args.take(reached(e) as int);
    assert(front + e.args.skip(front.len() as int) =~= e.args);
}

proof fn lemma_settled_args(e: ExprView, n: int, targets: Targets, memories: Seq<Memory>)
    requires
        settled(e),
        0 <= n <= e.args.len(),
    ensures
        pre_rewrite_args(e, n, targets, memories) == Ok::<_, ToDaeErrorView>(e.args.take(n)),
    decreases e, n,
{
    if n > 0 {
        lemma_settled_args(e, n - 1, targets, memories);
        law_settled_expression_stays(e.args[n - 1], targets, memories);
        assert(e.args.take(n) =~= e.args.take(n - 1).push(e.args[n - 1]));
    } else {
        assert(e.args.take(0) =~= Seq::<ExprView>::empty());
    }
}

/// A settled expression needs no left limits.
proof fn lemma_settled_targets(e: ExprView, allow: bool, targets: Targets)
    requires
        settled(e),
    ensures
        expr_targets(e, allow, targets) == Ok::<_, ToDaeErrorView>(targets),
    decreases e, e.args.len() + 1,
{
    lemma_settled_operand_targets(e, e.args.len() as int, allow, targets);
}

proof fn lemma_settled_operand_targets(e: ExprView, n: int, allow: bool, targets: Targets)
    requires
        settled(e),
        0 <= n <= e.args.len(),
    ensures
        operand_targets(e, n, allow, targets) == Ok::<_, ToDaeErrorView>(targets),
    decreases e, n,
{
    if n > 0 {
        lemma_settled_operand_targets(e, n - 1, allow, targets);
        lemma_settled_targets(e.args[n - 1], allow, targets);
    }
}

proof fn lemma_settled_list_targets(list: Seq<ExprView>, n: int, allow: bool, targets: Targets)
    requires
        all_settled(list),
        0 <= n <= list.len(),
    ensures
        list_targets(list, n, allow, targets) == Ok::<_, ToDaeErrorView>(targets),
    decreases n,
{
    if n > 0 {
        lemma_settled_list_targets(list, n - 1, allow, targets);
        lemma_settled_targets(list[n - 1], allow, targets);
    }
}

proof fn lemma_settled_list_pass(
    list: Seq<ExprView>,
    n: int,
    targets: Targets,
    memories: Seq<Memory>,
)
    requires
        all_settled(list),
        0 <= n <= list.len(),
    ensures
        list_pass(list, n, targets, memories) == (ListPass { list, error: None }),
    decreases n,
{
    if n > 0 {
        lemma_settled_list_pass(list, n - 1, targets, memories);
        law_settled_expression_stays(list[n - 1], targets, memories);
        assert(list.update(n - 1, list[n - 1]) =~= list);
    }
}

/// Whether nothing in a model is for the lowering to change.
pub open spec fn model_settled(m: DaeView) -> bool {
    &&& all_settled(rhs_of(m.continuous))
    &&& all_settled(rhs_of(m.real_updates))
    &&& all_settled(rhs_of(m.valued_updates))
    &&& all_settled(rhs_of(m.condition_equations))
    &&& all_settled(m.relations)
    &&& all_settled(m.triggered)
    &&& all_settled(m.action_conditions)
    &&& all_settled(rhs_of(m.initial))
}

proof fn lemma_same_rhs(equations: Seq<EquationView>)
    ensures
        with_rhs(equations, rhs_of(equations)) == equations,
{
    assert(with_rhs(equations, rhs_of(equations)) =~= equations);
}

/// A model in which nothing is left for the lowering to change comes through it
/// unchanged: no parameter is added and no expression rewritten.
pub proof fn law_settled_model_stays(m: DaeView)
    requires
        model_settled(m),
        lowering_data(m) is Some,
    ensures
        lower_pre(m) == (ModelPass { model: m, error: None }),
{
    let none: Targets = Seq::empty();
    lemma_settled_list_targets(rhs_of(m.continuous), m.continuous.len() as int, false, none);
    lemma_settled_list_targets(rhs_of(m.real_updates), m.real_updates.len() as int, true, none);
    lemma_settled_list_targets(
        rhs_of(m.valued_updates),
        m.valued_updates.len() as int,
        true,
        none,
    );
    lemma_settled_list_targets(
        rhs_of(m.condition_equations),
        m.condition_equations.len() as int,
        true,
        none,
    );
    lemma_settled_list_targets(m.relations, m.relations.len() as int, false, none);
    lemma_settled_list_targets(m.triggered, m.triggered.len() as int, true, none);
    lemma_settled_list_targets(m.action_conditions, m.action_conditions.len() as int, true, none);
    lemma_settled_list_targets(rhs_of(m.initial), m.initial.len() as int, true, none);
    assert(model_targets(m) == Ok::<_, ToDaeErrorView>(none));
    assert(declared_targets(m) == Ok::<_, ToDaeErrorView>(none));
    let (t, k) = lowering_data(m)->0;
    lemma_settled_list_pass(rhs_of(m.continuous), m.continuous.len() as int, t, k);
    lemma_settled_list_pass(rhs_of(m.real_updates), m.real_updates.len() as int, t, k);
    lemma_settled_list_pass(rhs_of(m.valued_updates), m.valued_updates.len() as int, t, k);
    lemma_settled_list_pass(
        rhs_of(m.condition_equations),
        m.condition_equations.len() as int,
        t,
        k,
    );
    lemma_settled_list_pass(m.relations, m.relations.len() as int, t, k);
    lemma_settled_list_pass(m.triggered, m.triggered.len() as int, t, k);
    lemma_settled_list_pass(m.action_conditions, m.action_conditions.len() as int, t, k);
    lemma_settled_list_pass(rhs_of(m.initial), m.initial.len() as int, t, k);
    lemma_same_rhs(m.continuous);
    lemma_same_rhs(m.real_updates);
    lemma_same_rhs(m.valued_updates);
    lemma_same_rhs(m.condition_equations);
    lemma_same_rhs(m.initial);
}

proof fn lemma_parameters_extend(
    parameters: Seq<Named<VariableView>>,
    new: Seq<Named<VariableView>>,
    n: int,
)
    requires
        0 <= n <= new.len(),
    ensures
        parameters.len() <= with_parameters(parameters, new, n).len(),
        with_parameters(parameters, new, n).take(parameters.len() as int) == parameters,
        forall|i: int|
            0 <= i < n ==> named(with_parameters(parameters, new, n), (#[trigger] new[i]).0),
    decreases n,
{
    let after = with_parameters(parameters, new, n);
    if n > 0 {
        lemma_parameters_extend(parameters, new, n - 1);
        let before = with_parameters(parameters, new, n - 1);
        assert(after.take(parameters.len() as int) =~= before.take(parameters.len() as int));
        assert forall|i: int| 0 <= i < n implies named(after, (#[trigger] new[i]).0) by {
            if i < n - 1 {
                let k = choose|k: int|
                    0 <= k < before.len() && (#[trigger] before[k]).0 == new[i].0;
                assert(after[k] == before[k]);
            } else if !named(before, new[i].0) {
                assert(after[before.len() as int].0 == new[i].0);
            }
        }
    } else {
        assert(after.take(parameters.len() as int) =~= parameters);
    }
}

/// Lowering touches no variables but the parameters, and of these it leaves all
/// that are there as they are and in their places: a left limit that has a
/// parameter keeps it.
pub proof fn law_lowering_keeps_variables(m: DaeView)
    ensures
        ({
            let after = lower_pre(m).model.variables;
            &&& after == (VariablesView { parameters: after.parameters, ..m.variables })
            &&& m.variables.parameters.len() <= after.parameters.len()
            &&& after.parameters.take(m.variables.parameters.len() as int)
                == m.variables.parameters
        }),
{
    let old = m.variables.parameters;
    assert(old.take(old.len() as int) =~= old);
    if let Ok(targets) = declared_targets(m) {
        if let Ok(new) = target_parameters(m.variables, targets, targets.len() as int) {
            lemma_parameters_extend(old, new, new.len() as int);
        }
    }
}

proof fn lemma_target_parameters(vars: VariablesView, targets: Targets, n: int)
    requires
        0 <= n <= targets.len(),
    ensures
        target_parameters(vars, targets, n) matches Ok(new) ==> (forall|i: int|
            0 <= i < n ==> named(new, pre_name((#[trigger] targets[i]).1.source_name))),
    decreases n,
{
    if n > 0 {
        lemma_target_parameters(vars, targets, n - 1);
        if let Ok(new) = target_parameters(vars, targets, n) {
            let front = target_parameters(vars, targets, n - 1)->Ok_0;
            let key = pre_name(targets[n - 1].1.source_name);
            assert forall|i: int| 0 <= i < n implies named(
                new,
                pre_name((#[trigger] targets[i]).1.source_name),
            ) by {
                let name = pre_name(targets[i].1.source_name);
                if i == n - 1 {
                    if named(front, key) {
                        let k = crate::ir::name_map::index_of_name(front, key);
                        assert(0 <= k < front.len() && front[k].0 == key);
                        assert(new[k].0 == key);
                    } else {
                        assert(new[front.len() as int].0 == key);
                    }
                } else {
                    let k = choose|k: int|
                        0 <= k < front.len() && (#[trigger] front[k]).0 == name;
                    if named(front, key) {
                        let at = crate::ir::name_map::index_of_name(front, key);
                        assert(0 <= at < front.len() && front[at].0 == key);
                        assert(new[k].0 == name);
                    } else {
                        assert(new[k] == front[k]);
                    }
                }
            }
        }
    }
}

/// Where the lowering succeeds, every variable whose left limit is needed has a
/// parameter for it.
pub proof fn law_targets_have_parameters(m: DaeView, targets: Targets, i: int)
    requires
        lower_pre(m).error is None,
        declared_targets(m) == Ok::<_, ToDaeErrorView>(targets),
        0 <= i < targets.len(),
    ensures
        named(
            lower_pre(m).model.variables.parameters,
            pre_name(targets[i].1.source_name),
        ),
{
    lemma_target_parameters(m.variables, targets, targets.len() as int);
    let new = target_parameters(m.variables, targets, targets.len() as int)->Ok_0;
    lemma_parameters_extend(m.variables.parameters, new, new.len() as int);
    let key = pre_name(targets[i].1.source_name);
    let k = choose|k: int| 0 <= k < new.len() && (#[trigger] new[k]).0 == key;
    assert(new[k].0 == key);
}

/// The names of parameters.
pub open spec fn parameter_names(parameters: Seq<Named<VariableView>>) -> Known {
    |name: Seq<char>| named(parameters, name)
}

/// Whether every left limit that a model reads is one of the parameters.
pub open spec fn model_limits_known(m: DaeView, parameters: Seq<Named<VariableView>>) -> bool {
    let known = parameter_names(parameters);
    &&& all_limits_known(rhs_of(m.continuous), known)
    &&& all_limits_known(rhs_of(m.real_updates), known)
    &&& all_limits_known(rhs_of(m.valued_updates), known)
    &&& all_limits_known(rhs_of(m.condition_equations), known)
    &&& all_limits_known(m.relations, known)
    &&& all_limits_known(m.triggered, known)
    &&& all_limits_known(m.action_conditions, known)
    &&& all_limits_known(rhs_of(m.initial), known)
}

proof fn lemma_list_limits_known(
    list: Seq<ExprView>,
    targets: Targets,
    memories: Seq<Memory>,
    known: Known,
)
    requires
        all_limits_known(list, known),
        targets_known(targets, known),
        memories_clean(memories, known),
        whole_pass(list, targets, memories).error is None,
    ensures
        all_limits_known(whole_pass(list, targets, memories).list, known),
{
    lemma_list_pass_elements(list, list.len() as int, targets, memories);
    let after = whole_pass(list, targets, memories).list;
    assert forall|i: int| 0 <= i < after.len() implies limits_known(
        #[trigger] after[i],
        known,
    ) by {
        assert(limits_known(list[i], known));
        law_left_limits_are_parameters(list[i], targets, memories, known);
    }
}

/// Where the lowering of a model succeeds, every left limit that is read in its
/// equations, relations, clock conditions and actions is one of its parameters, if
/// those that were read before are, and those of the variables that remember
/// relations.
pub proof fn law_lowered_model_reads_parameters(m: DaeView)
    requires
        lower_pre(m).error is None,
        model_limits_known(m, lower_pre(m).model.variables.parameters),
        memories_clean(
            (lowering_data(m)->0).1,
            parameter_names(lower_pre(m).model.variables.parameters),
        ),
    ensures
        model_limits_known(lower_pre(m).model, lower_pre(m).model.variables.parameters),
{
    let (t, k) = lowering_data(m)->0;
    let after = lower_pre(m).model;
    let known = parameter_names(after.variables.parameters);
    assert forall|i: int| 0 <= i < t.len() implies known(
        pre_name((#[trigger] t[i]).1.source_name),
    ) by {
        law_targets_have_parameters(m, t, i);
    }
    lemma_list_limits_known(rhs_of(m.continuous), t, k, known);
    lemma_list_limits_known(rhs_of(m.real_updates), t, k, known);
    lemma_list_limits_known(rhs_of(m.valued_updates), t, k, known);
    lemma_list_limits_known(rhs_of(m.condition_equations), t, k, known);
    lemma_list_limits_known(m.relations, t, k, known);
    lemma_list_limits_known(m.triggered, t, k, known);
    lemma_list_limits_known(m.action_conditions, t, k, known);
    lemma_list_limits_known(rhs_of(m.initial), t, k, known);
    lemma_list_pass_elements(rhs_of(m.continuous), rhs_of(m.continuous).len() as int, t, k);
    lemma_list_pass_elements(rhs_of(m.real_updates), rhs_of(m.real_updates).len() as int, t, k);
    lemma_list_pass_elements(
        rhs_of(m.valued_updates),
        rhs_of(m.valued_updates).len() as int,
        t,
        k,
    );
    lemma_list_pass_elements(
        rhs_of(m.condition_equations),
        rhs_of(m.condition_equations).len() as int,
        t,
        k,
    );
    lemma_list_pass_elements(rhs_of(m.initial), rhs_of(m.initial).len() as int, t, k);
    lemma_with_rhs(m.continuous, whole_pass(rhs_of(m.continuous), t, k).list);
    lemma_with_rhs(m.real_updates, whole_pass(rhs_of(m.real_updates), t, k).list);
    lemma_with_rhs(m.valued_updates, whole_pass(rhs_of(m.valued_updates), t, k).list);
    lemma_with_rhs(m.condition_equations, whole_pass(rhs_of(m.condition_equations), t, k).list);
    lemma_with_rhs(m.initial, whole_pass(rhs_of(m.initial), t, k).list);
}

} // verus!
