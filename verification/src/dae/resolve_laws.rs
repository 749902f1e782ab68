//! Of which variables left limits may be taken.
use crate::dae::error::ToDaeErrorView;
use crate::dae::meaning::{calls_function, denoted};
use crate::dae::meaning_laws::{lemma_denoted, lemma_temporal};
use crate::dae::model::{DaeView, VariablesView};
use crate::dae::pre_lowering::{
    declared_targets, list_targets, lower_pre, model_targets, rhs_of, then_list,
};
use crate::dae::pre_resolve::{
    all_names, candidates, eligible, field_key, names_of, resolve_target, resolve_targets,
    scalarized_field, scope_split, without_literals, Candidate,
};
use crate::dae::pre_targets::{
    call_targets, expr_targets, is_pre_name, operand_targets, target_parts, target_span,
    value_targets, values_targets, with_use, PreTargetView, Targets,
};
use crate::expr::tree::{BuiltinFunction, ExprView};
use crate::ir::name_map::{
    distinct_names, lemma_index_of_name, lemma_with_named_values, named, value_of_name, Named,
};
use crate::span::Span;
use vstd::prelude::*;

verus! {

/// Whether an expression asks outright, with `pre`, for the left limit of what a name
/// denotes.
pub open spec fn asks_outright(e: ExprView, name: Seq<char>) -> bool
    decreases e,
{
    ||| {
        &&& calls_function(e.node, BuiltinFunction::Pre, "pre"@)
        &&& e.args.len() > 0
        &&& denoted(e.args[0]) matches Some((found, _)) && found == name
    }
    ||| exists|i: int| 0 <= i < e.args.len() && asks_outright(#[trigger] e.args[i], name)
}

/// Whether a name is asked for outright where no continuous variable will do.
spec fn is_strict(targets: Targets, name: Seq<char>) -> bool {
    value_of_name(targets, name) matches Some(t) && t.require_discrete
        && !t.allow_continuous_target
}

/// Whether targets stay apart and a strict one stays strict.
spec fn keeps_strict(before: Targets, after: Targets, name: Seq<char>) -> bool {
    distinct_names(before) ==> distinct_names(after) && (is_strict(before, name) ==> is_strict(
        after,
        name,
    ))
}

proof fn lemma_use(
    targets: Targets,
    used: Seq<char>,
    span: Span,
    discrete: bool,
    allow: bool,
    name: Seq<char>,
)
    ensures
        keeps_strict(targets, with_use(targets, used, span, discrete, allow), name),
        distinct_names(targets) && used == name && used != "time"@ && discrete && !allow
            ==> is_strict(with_use(targets, used, span, discrete, allow), name),
{
    if distinct_names(targets) && used != "time"@ {
        let value = match value_of_name(targets, used) {
            Some(found) => PreTargetView {
                require_discrete: found.require_discrete || discrete,
                allow_continuous_target: found.allow_continuous_target && allow,
                ..found
            },
            None => PreTargetView {
                span,
                source_name: used,
                require_discrete: discrete,
                allow_continuous_target: allow,
            },
        };
        lemma_with_named_values(targets, used, value, name);
    }
}

proof fn lemma_value(e: ExprView, targets: Targets, name: Seq<char>)
    ensures
        value_targets(e, targets) matches Ok(found) ==> keeps_strict(targets, found, name),
    decreases e, e.args.len() + 1,
{
    match target_parts(e) {
        Err(_) => {},
        Ok(Some((used, subs))) => {
            if let Ok(span) = target_span(e, subs, "pre() value target"@) {
                lemma_use(targets, used, span, false, true, name);
            }
        },
        Ok(None) => {
            let choice = crate::dae::const_eval::static_choice(e.args, 0);
            if e.node is If && choice is Some {
                if 0 <= choice->0 < e.args.len() {
                    lemma_value(e.args[choice->0], targets, name);
                }
            } else {
                lemma_values(e, e.args.len() as int, targets, name);
            }
        },
    }
}

proof fn lemma_values(e: ExprView, n: int, targets: Targets, name: Seq<char>)
    requires
        0 <= n <= e.args.len(),
    ensures
        values_targets(e, n, targets) matches Ok(found) ==> keeps_strict(targets, found, name),
    decreases e, n,
{
    if n > 0 {
        lemma_values(e, n - 1, targets, name);
        if let Ok(front) = values_targets(e, n - 1, targets) {
            lemma_value(e.args[n - 1], front, name);
        }
    }
}

proof fn lemma_call(e: ExprView, allow: bool, targets: Targets, name: Seq<char>)
    ensures
        call_targets(e, allow, targets) matches Ok(found) ==> {
            &&& keeps_strict(targets, found, name)
            &&& distinct_names(targets) && calls_function(e.node, BuiltinFunction::Pre, "pre"@)
                && e.args.len() > 0 && !allow && name != "time"@ && (denoted(e.args[0]) matches Some(
                (used, _),
            ) && used == name) ==> is_strict(found, name)
        },
{
    lemma_temporal(e.node);
    if e.args.len() > 0 {
        lemma_denoted(e.args[0]);
        lemma_value(e.args[0], targets, name);
        lemma_values(e, e.args.len() as int, targets, name);
        if let Ok(Some((used, subs))) = target_parts(e.args[0]) {
            if let Ok(span) = target_span(e.args[0], subs, "pre() target"@) {
                lemma_use(targets, used, span, true, allow, name);
            }
        }
    }
}

proof fn lemma_expr(e: ExprView, allow: bool, targets: Targets, name: Seq<char>)
    ensures
        expr_targets(e, allow, targets) matches Ok(found) ==> {
            &&& keeps_strict(targets, found, name)
            &&& distinct_names(targets) && asks_outright(e, name) && !allow && name != "time"@
                ==> is_strict(found, name)
        },
    decreases e, e.args.len() + 1,
{
    lemma_call(e, allow, targets, name);
    if let Ok(front) = call_targets(e, allow, targets) {
        lemma_operands(e, e.args.len() as int, allow, front, name);
    }
}

proof fn lemma_operands(e: ExprView, n: int, allow: bool, targets: Targets, name: Seq<char>)
    requires
        0 <= n <= e.args.len(),
    ensures
        operand_targets(e, n, allow, targets) matches Ok(found) ==> {
            &&& keeps_strict(targets, found, name)
            &&& forall|i: int|
                distinct_names(targets) && 0 <= i < n && asks_outright(#[trigger] e.args[i], name)
                    && !allow && name != "time"@ ==> is_strict(found, name)
        },
    decreases e, n,
{
    if n > 0 {
        lemma_operands(e, n - 1, allow, targets, name);
        if let Ok(front) = operand_targets(e, n - 1, allow, targets) {
            lemma_expr(e.args[n - 1], allow, front, name);
        }
    }
}

proof fn lemma_list(list: Seq<ExprView>, n: int, allow: bool, targets: Targets, name: Seq<char>)
    requires
        0 <= n <= list.len(),
    ensures
        list_targets(list, n, allow, targets) matches Ok(found) ==> {
            &&& keeps_strict(targets, found, name)
            &&& forall|i: int|
                distinct_names(targets) && 0 <= i < n && asks_outright(#[trigger] list[i], name)
                    && !allow && name != "time"@ ==> is_strict(found, name)
        },
    decreases n,
{
    if n > 0 {
        lemma_list(list, n - 1, allow, targets, name);
        if let Ok(front) = list_targets(list, n - 1, allow, targets) {
            lemma_expr(list[n - 1], allow, front, name);
        }
    }
}

proof fn lemma_then(
    before: Result<Targets, ToDaeErrorView>,
    list: Seq<ExprView>,
    allow: bool,
    name: Seq<char>,
)
    ensures
        then_list(before, list, allow) matches Ok(found) ==> before is Ok && keeps_strict(
            before->Ok_0,
            found,
            name,
        ) && (distinct_names(before->Ok_0) && asked_outright_in(list, name) && !allow && name
            != "time"@ ==> is_strict(found, name)),
{
    if let Ok(targets) = before {
        lemma_list(list, list.len() as int, allow, targets, name);
    }
}

/// Whether one of some expressions asks outright for the left limit of a name.
pub open spec fn asked_outright_in(list: Seq<ExprView>, name: Seq<char>) -> bool {
    exists|i: int| 0 <= i < list.len() && asks_outright(#[trigger] list[i], name)
}

proof fn lemma_model_strict(m: DaeView, name: Seq<char>)
    requires
        asked_outright_in(rhs_of(m.continuous), name) || asked_outright_in(m.relations, name),
        name != "time"@,
    ensures
        model_targets(m) matches Ok(found) ==> distinct_names(found) && is_strict(found, name),
{
    let t0 = Ok(Seq::empty());
    let t1 = then_list(t0, rhs_of(m.continuous), false);
    let t2 = then_list(t1, rhs_of(m.real_updates), true);
    let t3 = then_list(t2, rhs_of(m.valued_updates), true);
    let t4 = then_list(t3, rhs_of(m.condition_equations), true);
    let t5 = then_list(t4, m.relations, false);
    let t6 = then_list(t5, m.triggered, true);
    let t7 = then_list(t6, m.action_conditions, true);
    lemma_then(t0, rhs_of(m.continuous), false, name);
    lemma_then(t1, rhs_of(m.real_updates), true, name);
    lemma_then(t2, rhs_of(m.valued_updates), true, name);
    lemma_then(t3, rhs_of(m.condition_equations), true, name);
    lemma_then(t4, m.relations, false, name);
    lemma_then(t5, m.triggered, true, name);
    lemma_then(t6, m.action_conditions, true, name);
    lemma_then(t7, rhs_of(m.initial), true, name);
}

proof fn lemma_kept(targets: Targets, literals: Seq<Named<i64>>, n: int, i: int)
    requires
        0 <= i < n <= targets.len(),
        !named(literals, targets[i].0),
    ensures
        exists|k: int|
            0 <= k < without_literals(targets, literals, n).len() && #[trigger] without_literals(
                targets,
                literals,
                n,
            )[k] == targets[i],
    decreases n,
{
    let front = without_literals(targets, literals, n - 1);
    let all = without_literals(targets, literals, n);
    if i < n - 1 {
        lemma_kept(targets, literals, n - 1, i);
        let k = choose|k: int| 0 <= k < front.len() && #[trigger] front[k] == targets[i];
        assert(all[k] == front[k]);
    } else {
        assert(all[front.len() as int] == targets[i]);
    }
}

proof fn lemma_all_resolve(vars: VariablesView, targets: Targets, n: int, i: int)
    requires
        0 <= i < n <= targets.len(),
        resolve_targets(vars, targets, n) is Ok,
    ensures
        resolve_target(vars, targets[i]) is Ok,
    decreases n,
{
    if i < n - 1 {
        lemma_all_resolve(vars, targets, n - 1, i);
    }
}

/// Where the lowering of a model succeeds, no continuous equation and no relation of it
/// asks outright for the left limit of a state.
pub proof fn law_states_have_no_left_limits(m: DaeView, name: Seq<char>)
    requires
        lower_pre(m).error is None,
        asked_outright_in(rhs_of(m.continuous), name) || asked_outright_in(m.relations, name),
        name != "time"@,
        !named(m.enum_literals, name),
        !is_pre_name(name),
    ensures
        !named(m.variables.states, name),
{
    lemma_model_strict(m, name);
    let found = model_targets(m)->Ok_0;
    let at = crate::ir::name_map::index_of_name(found, name);
    assert(0 <= at < found.len() && found[at].0 == name);
    lemma_index_of_name(found, name, at);
    lemma_kept(found, m.enum_literals, found.len() as int, at);
    let kept = without_literals(found, m.enum_literals, found.len() as int);
    let k = choose|k: int| 0 <= k < kept.len() && #[trigger] kept[k] == found[at];
    assert(declared_targets(m) is Ok);
    lemma_all_resolve(m.variables, kept, kept.len() as int, k);
}

/// Whether a variable is one of a role, and whether variables of that role are discrete.
pub open spec fn is_one_of(vars: VariablesView, name: Seq<char>, discrete: bool) -> bool {
    if discrete {
        named(vars.discrete_reals, name) || named(vars.discrete_valued, name)
    } else {
        named(vars.states, name) || named(vars.algebraics, name) || named(vars.inputs, name)
            || named(vars.outputs, name) || named(vars.parameters, name) || named(
            vars.constants,
            name,
        )
    }
}

/// Whether a variable is an element of an array that has the field that a name says: what
/// stands before the field, without anything in brackets, is what stands before it in the
/// name.
pub open spec fn is_field_of(
    vars: VariablesView,
    name: Seq<char>,
    variable: Seq<char>,
    discrete: bool,
) -> bool {
    &&& scope_split(name) is Some
    &&& field_key(variable) == scope_split(name)
    &&& is_one_of(vars, variable, discrete)
}

proof fn lemma_names_of(entries: Seq<Named<crate::dae::variable::VariableView>>, d: bool, k: int)
    ensures
        0 <= k < entries.len() ==> names_of(entries, d)[k] == (entries[k].0, d) && named(
            entries,
            entries[k].0,
        ),
        names_of(entries, d).len() == entries.len(),
{
    if 0 <= k < entries.len() {
        assert(entries[k].0 == entries[k].0);
    }
}

proof fn lemma_all_names(vars: VariablesView, k: int)
    requires
        0 <= k < all_names(vars).len(),
    ensures
        is_one_of(vars, all_names(vars)[k].0, all_names(vars)[k].1),
{
    let a = vars.states.len() as int;
    let b = a + vars.algebraics.len();
    let c = b + vars.inputs.len();
    let d = c + vars.outputs.len();
    let e = d + vars.parameters.len();
    let f = e + vars.constants.len();
    let g = f + vars.discrete_reals.len();
    lemma_names_of(vars.states, false, k);
    lemma_names_of(vars.algebraics, false, k - a);
    lemma_names_of(vars.inputs, false, k - b);
    lemma_names_of(vars.outputs, false, k - c);
    lemma_names_of(vars.parameters, false, k - d);
    lemma_names_of(vars.constants, false, k - e);
    lemma_names_of(vars.discrete_reals, true, k - f);
    lemma_names_of(vars.discrete_valued, true, k - g);
}

proof fn lemma_named_is_in(
    entries: Seq<Named<crate::dae::variable::VariableView>>,
    all: Seq<Candidate>,
    from: int,
    d: bool,
    name: Seq<char>,
)
    requires
        named(entries, name),
        0 <= from,
        from + entries.len() <= all.len(),
        all.subrange(from, from + entries.len()) == names_of(entries, d),
    ensures
        all.contains((name, d)),
{
    let k = choose|k: int| 0 <= k < entries.len() && (#[trigger] entries[k]).0 == name;
    lemma_names_of(entries, d, k);
    assert(all.subrange(from, from + entries.len())[k] == all[from + k]);
    assert(all[from + k] == (name, d));
}

proof fn lemma_all_are_in(vars: VariablesView, name: Seq<char>, d: bool)
    requires
        is_one_of(vars, name, d),
    ensures
        all_names(vars).contains((name, d)),
{
    let all = all_names(vars);
    let at_b = vars.states.len() as int;
    let at_c = at_b + vars.algebraics.len();
    let at_d = at_c + vars.inputs.len();
    let at_e = at_d + vars.outputs.len();
    let at_f = at_e + vars.parameters.len();
    let at_g = at_f + vars.constants.len();
    let at_h = at_g + vars.discrete_reals.len();
    assert(all.subrange(0, at_b) =~= names_of(vars.states, false));
    assert(all.subrange(at_b, at_c) =~= names_of(vars.algebraics, false));
    assert(all.subrange(at_c, at_d) =~= names_of(vars.inputs, false));
    assert(all.subrange(at_d, at_e) =~= names_of(vars.outputs, false));
    assert(all.subrange(at_e, at_f) =~= names_of(vars.parameters, false));
    assert(all.subrange(at_f, at_g) =~= names_of(vars.constants, false));
    assert(all.subrange(at_g, at_h) =~= names_of(vars.discrete_reals, true));
    assert(all.subrange(at_h, at_h + vars.discrete_valued.len()) =~= names_of(
        vars.discrete_valued,
        true,
    ));
    if d {
        if named(vars.discrete_reals, name) {
            lemma_named_is_in(vars.discrete_reals, all, at_g, true, name);
        } else {
            lemma_named_is_in(vars.discrete_valued, all, at_h, true, name);
        }
    } else if named(vars.states, name) {
        lemma_named_is_in(vars.states, all, 0, false, name);
    } else if named(vars.algebraics, name) {
        lemma_named_is_in(vars.algebraics, all, at_b, false, name);
    } else if named(vars.inputs, name) {
        lemma_named_is_in(vars.inputs, all, at_c, false, name);
    } else if named(vars.outputs, name) {
        lemma_named_is_in(vars.outputs, all, at_d, false, name);
    } else if named(vars.parameters, name) {
        lemma_named_is_in(vars.parameters, all, at_e, false, name);
    } else {
        lemma_named_is_in(vars.constants, all, at_f, false, name);
    }
}

proof fn lemma_candidates(
    all: Seq<Candidate>,
    n: int,
    prefix: Seq<char>,
    field: Seq<char>,
    c: Candidate,
)
    requires
        0 <= n <= all.len(),
    ensures
        candidates(all, n, prefix, field).contains(c) <==> all.take(n).contains(c) && field_key(c.0)
            == Some((prefix, field)),
    decreases n,
{
    if n > 0 {
        lemma_candidates(all, n - 1, prefix, field, c);
        let front = candidates(all, n - 1, prefix, field);
        let list = candidates(all, n, prefix, field);
        assert(all.take(n) =~= all.take(n - 1).push(all[n - 1]));
        lemma_pushed(all.take(n - 1), all[n - 1], c);
        lemma_pushed(front, all[n - 1], c);
    }
}

proof fn lemma_pushed<A>(list: Seq<A>, more: A, a: A)
    ensures
        list.push(more).contains(a) <==> list.contains(a) || a == more,
{
    let all = list.push(more);
    if list.contains(a) {
        let i = choose|i: int| 0 <= i < list.len() && list[i] == a;
        assert(all[i] == a);
    }
    assert(all[list.len() as int] == more);
    if all.contains(a) {
        let i = choose|i: int| 0 <= i < all.len() && all[i] == a;
        if i < list.len() {
            assert(list[i] == a);
        }
    }
}

proof fn lemma_eligible(list: Seq<Candidate>, n: int, strict: bool, name: Seq<char>)
    requires
        0 <= n <= list.len(),
    ensures
        eligible(list, n, strict).contains(name) <==> list.take(n).contains((name, true)) || (
        !strict && list.take(n).contains((name, false))),
    decreases n,
{
    if n > 0 {
        lemma_eligible(list, n - 1, strict, name);
        let front = eligible(list, n - 1, strict);
        assert(list.take(n) =~= list.take(n - 1).push(list[n - 1]));
        lemma_pushed(list.take(n - 1), list[n - 1], (name, true));
        lemma_pushed(list.take(n - 1), list[n - 1], (name, false));
        lemma_pushed(front, list[n - 1].0, name);
        let c = list[n - 1];
        assert(c == (c.0, c.1));
        assert((c == (name, true)) == (c.0 == name && c.1));
        assert((c == (name, false)) == (c.0 == name && !c.1));
    }
}

/// A name that is no variable stands for the one variable that is an element of an array
/// with the field that the name says, a discrete one where one is needed; another such
/// variable there is not.
pub proof fn law_fields_stand_for_their_only_element(
    vars: VariablesView,
    name: Seq<char>,
    strict: bool,
    other: Seq<char>,
)
    ensures
        scalarized_field(vars, name, strict) matches Some(source) ==> {
            &&& is_field_of(vars, name, source, true) || (!strict && is_field_of(
                vars,
                name,
                source,
                false,
            ))
            &&& is_field_of(vars, name, other, true) || (!strict && is_field_of(
                vars,
                name,
                other,
                false,
            )) ==> other == source
        },
{
    if let Some(source) = scalarized_field(vars, name, strict) {
        let (prefix, field) = scope_split(name)->0;
        let all = all_names(vars);
        let list = candidates(all, all.len() as int, prefix, field);
        let fit = eligible(list, list.len() as int, strict);
        assert(all.take(all.len() as int) =~= all);
        assert(list.take(list.len() as int) =~= list);
        assert(fit[0] == source);
        assert(fit.contains(source));
        lemma_eligible(list, list.len() as int, strict, source);
        lemma_candidates(all, all.len() as int, prefix, field, (source, true));
        lemma_candidates(all, all.len() as int, prefix, field, (source, false));
        if list.contains((source, true)) {
            let k = choose|k: int| 0 <= k < all.len() && all[k] == (source, true);
            lemma_all_names(vars, k);
        } else {
            let k = choose|k: int| 0 <= k < all.len() && all[k] == (source, false);
            lemma_all_names(vars, k);
        }
        lemma_eligible(list, list.len() as int, strict, other);
        lemma_candidates(all, all.len() as int, prefix, field, (other, true));
        lemma_candidates(all, all.len() as int, prefix, field, (other, false));
        if is_field_of(vars, name, other, true) {
            lemma_all_are_in(vars, other, true);
        } else if !strict && is_field_of(vars, name, other, false) {
            lemma_all_are_in(vars, other, false);
        }
        if fit.contains(other) {
            let k = choose|k: int| 0 <= k < fit.len() && fit[k] == other;
            assert(k == 0);
        }
    }
}

} // verus!
