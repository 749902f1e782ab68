//! What lowering the left limits of a model comes to.
use crate::dae::const_eval::static_choice;
use crate::dae::equation::EquationView;
use crate::dae::error::ToDaeErrorView;
use crate::dae::meaning::{calls_function, denoted, meaning, World};
use crate::dae::meaning_laws::{
    is_lowerable, knows, law_lowering_keeps_meaning, lemma_denoted, lemma_temporal, looks_back,
    remembers,
};
use crate::dae::model::{DaeView, VariablesView};
use crate::dae::pre_laws::{lemma_list_pass_elements, lowering_data};
use crate::dae::pre_lowering::{
    declared_targets, list_targets, lower_pre, model_targets, pre_parameter, rhs_of,
    target_parameters, then_list, whole_pass, with_parameters, with_rhs,
};
use crate::dae::pre_resolve::{
    declared, lemma_resolve_keeps_names, resolve_target, resolve_targets, without_literals,
};
use crate::dae::pre_rewrite::pre_name;
use crate::dae::pre_targets::{
    call_targets, expr_targets, is_time, operand_targets, target_parts, value_targets,
    values_targets, with_use, Targets,
};
use crate::dae::relation_memory::Memory;
use crate::dae::variable::{VariableCausality, VariableView};
use crate::expr::tree::{BuiltinFunction, ExprView};
use crate::ir::name_map::{
    index_of_name, lemma_with_named_keeps, named, value_of_name, with_named, Named,
};
use crate::span::Span;
use vstd::prelude::*;

verus! {

/// Whether the value of an expression is read from what a name denotes. Of a conditional
/// whose branch is fixed only that branch is read.
pub open spec fn reads_name(e: ExprView, name: Seq<char>) -> bool
    decreases e,
{
    match denoted(e) {
        Some((found, _)) => found == name,
        None => if e.node is If && static_choice(e.args, 0) is Some {
            let k = static_choice(e.args, 0)->0;
            0 <= k < e.args.len() && reads_name(e.args[k], name)
        } else {
            exists|i: int| 0 <= i < e.args.len() && reads_name(#[trigger] e.args[i], name)
        },
    }
}

/// Whether the left limit of a name is asked for in an expression: in the argument of a
/// call that looks across an event. Clocks of one and two arguments look at the first,
/// where it is not the time.
pub open spec fn asks_for_limit(e: ExprView, name: Seq<char>) -> bool
    decreases e,
{
    ||| {
        &&& looks_back(e.node)
        &&& e.args.len() > 0
        &&& calls_function(e.node, BuiltinFunction::Sample, "sample"@) ==> e.args.len() <= 2
            && !is_time(e.args[0])
        &&& reads_name(e.args[0], name)
    }
    ||| exists|i: int| 0 <= i < e.args.len() && asks_for_limit(#[trigger] e.args[i], name)
}

proof fn lemma_with_use(
    targets: Targets,
    used: Seq<char>,
    span: Span,
    discrete: bool,
    allow: bool,
    name: Seq<char>,
)
    ensures
        named(targets, name) ==> named(with_use(targets, used, span, discrete, allow), name),
        used != "time"@ ==> named(with_use(targets, used, span, discrete, allow), used),
{
    if used != "time"@ {
        let value = with_use(targets, used, span, discrete, allow);
        match value_of_name(targets, used) {
            Some(found) => {
                lemma_with_named_keeps(
                    targets,
                    used,
                    crate::dae::pre_targets::PreTargetView {
                        require_discrete: found.require_discrete || discrete,
                        allow_continuous_target: found.allow_continuous_target && allow,
                        ..found
                    },
                    name,
                );
            },
            None => {
                lemma_with_named_keeps(
                    targets,
                    used,
                    crate::dae::pre_targets::PreTargetView {
                        span,
                        source_name: used,
                        require_discrete: discrete,
                        allow_continuous_target: allow,
                    },
                    name,
                );
            },
        }
    }
}

proof fn lemma_value_names(e: ExprView, targets: Targets, name: Seq<char>)
    ensures
        value_targets(e, targets) matches Ok(found) ==> {
            &&& named(targets, name) ==> named(found, name)
            &&& reads_name(e, name) && name != "time"@ ==> named(found, name)
        },
    decreases e, e.args.len() + 1,
{
    lemma_denoted(e);
    match target_parts(e) {
        Err(_) => {},
        Ok(Some((used, subs))) => {
            if let Ok(span) = crate::dae::pre_targets::target_span(
                e,
                subs,
                "pre() value target"@,
            ) {
                lemma_with_use(targets, used, span, false, true, name);
            }
        },
        Ok(None) => {
            if e.node is If && static_choice(e.args, 0) is Some {
                let k = static_choice(e.args, 0)->0;
                if 0 <= k < e.args.len() {
                    lemma_value_names(e.args[k], targets, name);
                }
            } else {
                lemma_values_names(e, e.args.len() as int, targets, name);
            }
        },
    }
}

proof fn lemma_values_names(e: ExprView, n: int, targets: Targets, name: Seq<char>)
    requires
        0 <= n <= e.args.len(),
    ensures
        values_targets(e, n, targets) matches Ok(found) ==> {
            &&& named(targets, name) ==> named(found, name)
            &&& forall|i: int|
                0 <= i < n && reads_name(#[trigger] e.args[i], name) && name != "time"@ ==> named(
                    found,
                    name,
                )
        },
    decreases e, n,
{
    if n > 0 {
        lemma_values_names(e, n - 1, targets, name);
        if let Ok(front) = values_targets(e, n - 1, targets) {
            lemma_value_names(e.args[n - 1], front, name);
        }
    }
}

proof fn lemma_call_names(e: ExprView, allow: bool, targets: Targets, name: Seq<char>)
    ensures
        call_targets(e, allow, targets) matches Ok(found) ==> {
            &&& named(targets, name) ==> named(found, name)
            &&& looks_back(e.node) && e.args.len() > 0 && (calls_function(
                e.node,
                BuiltinFunction::Sample,
                "sample"@,
            ) ==> e.args.len() <= 2 && !is_time(e.args[0])) && reads_name(e.args[0], name) && name
                != "time"@ ==> named(found, name)
        },
{
    lemma_temporal(e.node);
    if e.args.len() > 0 {
        lemma_denoted(e.args[0]);
        lemma_value_names(e.args[0], targets, name);
        lemma_values_names(e, e.args.len() as int, targets, name);
        if let Ok(Some((used, subs))) = target_parts(e.args[0]) {
            if let Ok(span) = crate::dae::pre_targets::target_span(
                e.args[0],
                subs,
                "pre() target"@,
            ) {
                lemma_with_use(targets, used, span, true, allow, name);
            }
        }
    }
}

proof fn lemma_expr_names(e: ExprView, allow: bool, targets: Targets, name: Seq<char>)
    ensures
        expr_targets(e, allow, targets) matches Ok(found) ==> {
            &&& named(targets, name) ==> named(found, name)
            &&& asks_for_limit(e, name) && name != "time"@ ==> named(found, name)
        },
    decreases e, e.args.len() + 1,
{
    lemma_call_names(e, allow, targets, name);
    if let Ok(front) = call_targets(e, allow, targets) {
        lemma_operand_names(e, e.args.len() as int, allow, front, name);
    }
}

proof fn lemma_operand_names(e: ExprView, n: int, allow: bool, targets: Targets, name: Seq<char>)
    requires
        0 <= n <= e.args.len(),
    ensures
        operand_targets(e, n, allow, targets) matches Ok(found) ==> {
            &&& named(targets, name) ==> named(found, name)
            &&& forall|i: int|
                0 <= i < n && asks_for_limit(#[trigger] e.args[i], name) && name != "time"@
                    ==> named(found, name)
        },
    decreases e, n,
{
    if n > 0 {
        lemma_operand_names(e, n - 1, allow, targets, name);
        if let Ok(front) = operand_targets(e, n - 1, allow, targets) {
            lemma_expr_names(e.args[n - 1], allow, front, name);
        }
    }
}

proof fn lemma_list_names(
    list: Seq<ExprView>,
    n: int,
    allow: bool,
    targets: Targets,
    name: Seq<char>,
)
    requires
        0 <= n <= list.len(),
    ensures
        list_targets(list, n, allow, targets) matches Ok(found) ==> {
            &&& named(targets, name) ==> named(found, name)
            &&& forall|i: int|
                0 <= i < n && asks_for_limit(#[trigger] list[i], name) && name != "time"@
                    ==> named(found, name)
        },
    decreases n,
{
    if n > 0 {
        lemma_list_names(list, n - 1, allow, targets, name);
        if let Ok(front) = list_targets(list, n - 1, allow, targets) {
            lemma_expr_names(list[n - 1], allow, front, name);
        }
    }
}

proof fn lemma_then_list(
    before: Result<Targets, ToDaeErrorView>,
    list: Seq<ExprView>,
    allow: bool,
    name: Seq<char>,
)
    ensures
        then_list(before, list, allow) matches Ok(found) ==> {
            &&& before is Ok
            &&& named(before->Ok_0, name) ==> named(found, name)
            &&& asked_in(list, name) && name != "time"@ ==> named(found, name)
        },
{
    if let Ok(targets) = before {
        lemma_list_names(list, list.len() as int, allow, targets, name);
    }
}

/// Whether the left limit of a name is asked for in one of some expressions.
pub open spec fn asked_in(list: Seq<ExprView>, name: Seq<char>) -> bool {
    exists|i: int| 0 <= i < list.len() && asks_for_limit(#[trigger] list[i], name)
}

/// Whether the left limit of a name is asked for in a model: in its equations, updates,
/// relations, clock conditions, conditions of actions or initial equations.
pub open spec fn asked_in_model(m: DaeView, name: Seq<char>) -> bool {
    ||| asked_in(rhs_of(m.continuous), name)
    ||| asked_in(rhs_of(m.real_updates), name)
    ||| asked_in(rhs_of(m.valued_updates), name)
    ||| asked_in(rhs_of(m.condition_equations), name)
    ||| asked_in(m.relations, name)
    ||| asked_in(m.triggered, name)
    ||| asked_in(m.action_conditions, name)
    ||| asked_in(rhs_of(m.initial), name)
}

proof fn lemma_model_names(m: DaeView, name: Seq<char>)
    requires
        asked_in_model(m, name),
        name != "time"@,
    ensures
        model_targets(m) matches Ok(found) ==> named(found, name),
{
    let t0 = Ok(Seq::empty());
    let t1 = then_list(t0, rhs_of(m.continuous), false);
    let t2 = then_list(t1, rhs_of(m.real_updates), true);
    let t3 = then_list(t2, rhs_of(m.valued_updates), true);
    let t4 = then_list(t3, rhs_of(m.condition_equations), true);
    let t5 = then_list(t4, m.relations, false);
    let t6 = then_list(t5, m.triggered, true);
    let t7 = then_list(t6, m.action_conditions, true);
    lemma_then_list(t0, rhs_of(m.continuous), false, name);
    lemma_then_list(t1, rhs_of(m.real_updates), true, name);
    lemma_then_list(t2, rhs_of(m.valued_updates), true, name);
    lemma_then_list(t3, rhs_of(m.condition_equations), true, name);
    lemma_then_list(t4, m.relations, false, name);
    lemma_then_list(t5, m.triggered, true, name);
    lemma_then_list(t6, m.action_conditions, true, name);
    lemma_then_list(t7, rhs_of(m.initial), true, name);
}

proof fn lemma_no_literal_stays(
    targets: Targets,
    literals: Seq<Named<i64>>,
    n: int,
    i: int,
)
    requires
        0 <= i < n <= targets.len(),
        !named(literals, targets[i].0),
    ensures
        named(without_literals(targets, literals, n), targets[i].0),
    decreases n,
{
    let front = without_literals(targets, literals, n - 1);
    let all = without_literals(targets, literals, n);
    if i < n - 1 {
        lemma_no_literal_stays(targets, literals, n - 1, i);
        let k = choose|k: int| 0 <= k < front.len() && (#[trigger] front[k]).0 == targets[i].0;
        assert(all[k] == front[k]);
    } else {
        assert(all[front.len() as int] == targets[i]);
    }
}

proof fn lemma_resolved(vars: VariablesView, targets: Targets, n: int, i: int)
    requires
        0 <= i < n <= targets.len(),
    ensures
        resolve_targets(vars, targets, n) matches Ok(found) ==> found.len() == n && found[i].0
            == targets[i].0 && resolve_target(vars, targets[i]) == Ok::<_, ToDaeErrorView>(
            found[i].1.source_name,
        ),
    decreases n,
{
    lemma_resolve_keeps_names(vars, targets, n);
    if i < n - 1 {
        lemma_resolved(vars, targets, n - 1, i);
        lemma_resolve_keeps_names(vars, targets, n - 1);
    } else if n > 0 {
        lemma_resolve_keeps_names(vars, targets, n - 1);
    }
}

/// Whether a model has a variable of a name.
pub open spec fn has_variable(vars: VariablesView, name: Seq<char>) -> bool {
    ||| named(vars.states, name)
    ||| named(vars.algebraics, name)
    ||| named(vars.inputs, name)
    ||| named(vars.outputs, name)
    ||| named(vars.parameters, name)
    ||| named(vars.constants, name)
    ||| named(vars.discrete_reals, name)
    ||| named(vars.discrete_valued, name)
}

/// Whether a variable of a model has a name.
pub open spec fn is_variable(vars: VariablesView, name: Seq<char>, v: VariableView) -> bool {
    ||| value_of_name(vars.states, name) == Some(v)
    ||| value_of_name(vars.algebraics, name) == Some(v)
    ||| value_of_name(vars.inputs, name) == Some(v)
    ||| value_of_name(vars.outputs, name) == Some(v)
    ||| value_of_name(vars.parameters, name) == Some(v)
    ||| value_of_name(vars.constants, name) == Some(v)
    ||| value_of_name(vars.discrete_reals, name) == Some(v)
    ||| value_of_name(vars.discrete_valued, name) == Some(v)
}

/// Whether a parameter is made to hold the left limit of a variable: it has its size and
/// its start, at which it is fixed.
pub open spec fn holds_limit_of(p: VariableView, source: Seq<char>, v: VariableView) -> bool {
    &&& p.name == pre_name(source)
    &&& p.dims == v.dims
    &&& p.start == v.start
    &&& p.fixed == Some(true)
    &&& p.causality == VariableCausality::CalculatedParameter
}

/// Whether the left limit of a variable has a parameter: one that was there, or one made
/// for it.
pub open spec fn has_limit(
    vars: VariablesView,
    after: Seq<Named<VariableView>>,
    source: Seq<char>,
) -> bool {
    exists|i: int|
        0 <= i < after.len() && (#[trigger] after[i]).0 == pre_name(source) && (named(
            vars.parameters,
            pre_name(source),
        ) || exists|v: VariableView| #[trigger]
            is_variable(vars, source, v) && holds_limit_of(after[i].1, source, v))
}

/// Whether a variable is the one that a name stands for: the variable of that name, where
/// there is one.
pub open spec fn stands_for(vars: VariablesView, name: Seq<char>, source: Seq<char>) -> bool {
    has_variable(vars, source) && (has_variable(vars, name) ==> source == name)
}

proof fn lemma_declared(vars: VariablesView, name: Seq<char>)
    ensures
        has_variable(vars, name) <==> declared(vars, name) is Some,
        declared(vars, name) matches Some((_, v)) ==> is_variable(vars, name, v),
{
}

/// Whether an entry is a parameter for the left limit of a declared variable.
spec fn is_made(vars: VariablesView, entry: Named<VariableView>, source: Seq<char>) -> bool {
    &&& entry.0 == pre_name(source)
    &&& declared(vars, source) is Some
    &&& entry.1 == pre_parameter((declared(vars, source)->0).1, source)
}

/// Whether an entry is a parameter for the left limit of some declared variable.
spec fn is_some_made(vars: VariablesView, entry: Named<VariableView>) -> bool {
    exists|source: Seq<char>| #[trigger] is_made(vars, entry, source)
}

proof fn lemma_all_made(vars: VariablesView, targets: Targets, n: int)
    requires
        0 <= n <= targets.len(),
    ensures
        target_parameters(vars, targets, n) matches Ok(new) ==> {
            &&& forall|j: int| 0 <= j < new.len() ==> is_some_made(vars, #[trigger] new[j])
            &&& forall|i: int|
                0 <= i < n ==> declared(vars, (#[trigger] targets[i]).1.source_name) is Some
        },
    decreases n,
{
    if n > 0 {
        lemma_all_made(vars, targets, n - 1);
        if let Ok(new) = target_parameters(vars, targets, n) {
            let front = target_parameters(vars, targets, n - 1)->Ok_0;
            let source = targets[n - 1].1.source_name;
            let entry = (pre_name(source), pre_parameter((declared(vars, source)->0).1, source));
            assert(new == with_named(front, entry.0, entry.1));
            assert(is_made(vars, entry, source));
            assert forall|j: int| 0 <= j < new.len() implies is_some_made(
                vars,
                #[trigger] new[j],
            ) by {
                if named(front, entry.0) {
                    let k = index_of_name(front, entry.0);
                    assert(0 <= k < front.len() && front[k].0 == entry.0);
                    if j != k {
                        assert(new[j] == front[j]);
                    }
                } else if j < front.len() {
                    assert(new[j] == front[j]);
                }
            }
        }
    }
}

proof fn lemma_parameters_from(
    parameters: Seq<Named<VariableView>>,
    new: Seq<Named<VariableView>>,
    n: int,
    i: int,
)
    requires
        0 <= n <= new.len(),
        0 <= i < with_parameters(parameters, new, n).len(),
    ensures
        named(parameters, with_parameters(parameters, new, n)[i].0) || exists|j: int|
            0 <= j < n && with_parameters(parameters, new, n)[i] == #[trigger] new[j],
    decreases n,
{
    if n > 0 {
        let before = with_parameters(parameters, new, n - 1);
        let after = with_parameters(parameters, new, n);
        if i < before.len() {
            assert(after[i] == before[i]);
            lemma_parameters_from(parameters, new, n - 1, i);
        } else {
            assert(after[i] == new[n - 1]);
        }
    } else {
        assert(parameters[i].0 == parameters[i].0);
    }
}

proof fn lemma_same_source(a: Seq<char>, b: Seq<char>)
    requires
        pre_name(a) == pre_name(b),
    ensures
        a == b,
{
    let n = "__pre__."@.len() as int;
    assert(pre_name(a).skip(n) =~= a);
    assert(pre_name(b).skip(n) =~= b);
}

proof fn lemma_has_limit(m: DaeView, targets: Targets, i: int)
    requires
        lower_pre(m).error is None,
        declared_targets(m) == Ok::<_, ToDaeErrorView>(targets),
        0 <= i < targets.len(),
    ensures
        has_variable(m.variables, targets[i].1.source_name),
        has_limit(
            m.variables,
            lower_pre(m).model.variables.parameters,
            targets[i].1.source_name,
        ),
{
    let vars = m.variables;
    let source = targets[i].1.source_name;
    let new = target_parameters(vars, targets, targets.len() as int)->Ok_0;
    let after = with_parameters(vars.parameters, new, new.len() as int);
    crate::dae::pre_laws::law_targets_have_parameters(m, targets, i);
    lemma_all_made(vars, targets, targets.len() as int);
    lemma_declared(vars, source);
    assert(lower_pre(m).model.variables.parameters == after);
    let k = choose|k: int| 0 <= k < after.len() && (#[trigger] after[k]).0 == pre_name(source);
    if !named(vars.parameters, pre_name(source)) {
        lemma_parameters_from(vars.parameters, new, new.len() as int, k);
        let j = choose|j: int| 0 <= j < new.len() && after[k] == #[trigger] new[j];
        assert(is_some_made(vars, new[j]));
        let made = choose|made: Seq<char>| #[trigger] is_made(vars, new[j], made);
        lemma_same_source(made, source);
        let v = (declared(vars, source)->0).1;
        assert(is_variable(vars, source, v));
        assert(holds_limit_of(after[k].1, source, v));
    }
    assert(after[k].0 == pre_name(source));
}

/// Where the lowering of a model succeeds, every name but the time whose left limit is
/// asked for in it, and that is no enumeration literal, stands for a variable, for that
/// of the same name where there is one, and the left limit of that variable has a
/// parameter.
pub proof fn law_asked_limits_have_parameters(m: DaeView, name: Seq<char>)
    requires
        lower_pre(m).error is None,
        asked_in_model(m, name),
        name != "time"@,
        !named(m.enum_literals, name),
    ensures
        exists|source: Seq<char>| #[trigger]
            stands_for(m.variables, name, source) && has_limit(
                m.variables,
                lower_pre(m).model.variables.parameters,
                source,
            ),
{
    let found = model_targets(m)->Ok_0;
    let kept = without_literals(found, m.enum_literals, found.len() as int);
    let targets = declared_targets(m)->Ok_0;
    lemma_model_names(m, name);
    let f = choose|f: int| 0 <= f < found.len() && (#[trigger] found[f]).0 == name;
    lemma_no_literal_stays(found, m.enum_literals, found.len() as int, f);
    let i = choose|i: int| 0 <= i < kept.len() && (#[trigger] kept[i]).0 == name;
    lemma_resolved(m.variables, kept, kept.len() as int, i);
    lemma_has_limit(m, targets, i);
    lemma_declared(m.variables, name);
    assert(stands_for(m.variables, name, targets[i].1.source_name));
}

/// Whether expressions have been replaced by others that mean the same in a world, each
/// in its place.
pub open spec fn mean_the_same(before: Seq<ExprView>, after: Seq<ExprView>, w: World) -> bool {
    &&& after.len() == before.len()
    &&& forall|i: int|
        0 <= i < before.len() && is_lowerable(before[i]) ==> meaning(#[trigger] after[i], w, 0)
            == meaning(before[i], w, 0)
}

/// Whether equations have kept everything but their right-hand sides, and these mean the
/// same in a world.
pub open spec fn equations_mean_the_same(
    before: Seq<EquationView>,
    after: Seq<EquationView>,
    w: World,
) -> bool {
    &&& mean_the_same(rhs_of(before), rhs_of(after), w)
    &&& after.len() == before.len()
    &&& forall|i: int|
        0 <= i < before.len() ==> (EquationView { rhs: before[i].rhs, ..#[trigger] after[i] })
            == before[i]
}

proof fn lemma_list_means(
    list: Seq<ExprView>,
    targets: Targets,
    memories: Seq<Memory>,
    w: World,
)
    requires
        knows(w, targets),
        remembers(w, memories),
        whole_pass(list, targets, memories).error is None,
    ensures
        mean_the_same(list, whole_pass(list, targets, memories).list, w),
{
    lemma_list_pass_elements(list, list.len() as int, targets, memories);
    let after = whole_pass(list, targets, memories).list;
    assert forall|i: int| 0 <= i < list.len() && is_lowerable(list[i]) implies meaning(
        #[trigger] after[i],
        w,
        0,
    ) == meaning(list[i], w, 0) by {
        law_lowering_keeps_meaning(list[i], targets, memories, w);
    }
}

proof fn lemma_equations_mean(
    equations: Seq<EquationView>,
    targets: Targets,
    memories: Seq<Memory>,
    w: World,
)
    requires
        knows(w, targets),
        remembers(w, memories),
        whole_pass(rhs_of(equations), targets, memories).error is None,
    ensures
        equations_mean_the_same(
            equations,
            with_rhs(equations, whole_pass(rhs_of(equations), targets, memories).list),
            w,
        ),
{
    lemma_list_means(rhs_of(equations), targets, memories, w);
    let list = whole_pass(rhs_of(equations), targets, memories).list;
    assert(rhs_of(with_rhs(equations, list)) =~= list);
}

/// Where the lowering of a model succeeds, its equations, updates, relations, clock
/// conditions, conditions of actions and initial equations stay in their places, each
/// with all that it had but its expression, and this means what it meant, in every world
/// in which the parameters for left limits hold these and relations are remembered
/// rightly.
pub proof fn law_lowered_model_keeps_meaning(m: DaeView, w: World)
    requires
        lower_pre(m).error is None,
        knows(w, (lowering_data(m)->0).0),
        remembers(w, (lowering_data(m)->0).1),
    ensures
        ({
            let after = lower_pre(m).model;
            &&& equations_mean_the_same(m.continuous, after.continuous, w)
            &&& equations_mean_the_same(m.real_updates, after.real_updates, w)
            &&& equations_mean_the_same(m.valued_updates, after.valued_updates, w)
            &&& equations_mean_the_same(m.condition_equations, after.condition_equations, w)
            &&& mean_the_same(m.relations, after.relations, w)
            &&& mean_the_same(m.triggered, after.triggered, w)
            &&& mean_the_same(m.action_conditions, after.action_conditions, w)
            &&& equations_mean_the_same(m.initial, after.initial, w)
        }),
{
    let (t, k) = lowering_data(m)->0;
    lemma_equations_mean(m.continuous, t, k, w);
    lemma_equations_mean(m.real_updates, t, k, w);
    lemma_equations_mean(m.valued_updates, t, k, w);
    lemma_equations_mean(m.condition_equations, t, k, w);
    lemma_list_means(m.relations, t, k, w);
    lemma_list_means(m.triggered, t, k, w);
    lemma_list_means(m.action_conditions, t, k, w);
    lemma_equations_mean(m.initial, t, k, w);
}

} // verus!
