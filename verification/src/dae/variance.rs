//! Which expressions can change while a simulation runs.
use crate::dae::model::{Dae, DaeView, VariablesView};
use crate::dae::pre_targets::{is_pre_name, is_pre_parameter_name};
use crate::dae::scalar_name::{base_name, component_base_name};
use crate::expr::tree::{
    expr_views, lemma_view_args, BuiltinFunction, ExprView, Expression, Node, NodeView,
};
use crate::ir::name_map::named;
use crate::text::same_text;
use vstd::prelude::*;

verus! {

/// Whether a name is that of a parameter or constant.
pub open spec fn fixed_name(vars: VariablesView, name: Seq<char>) -> bool {
    named(vars.parameters, name) || named(vars.constants, name)
}

/// Whether a name, with its subscripts or without, is that of a parameter or
/// constant.
pub open spec fn time_invariant(vars: VariablesView, name: Seq<char>) -> bool {
    fixed_name(vars, name) || (base_name(name) is Some && fixed_name(vars, base_name(name)->0))
}

/// Whether a name is that of a variable which changes.
pub open spec fn changing_name(vars: VariablesView, name: Seq<char>) -> bool {
    named(vars.states, name) || named(vars.algebraics, name) || named(vars.outputs, name) || named(
        vars.inputs,
        name,
    ) || named(vars.discrete_reals, name) || named(vars.discrete_valued, name)
}

/// Whether a name, with its subscripts or without, is that of a variable which
/// changes.
pub open spec fn time_varying(vars: VariablesView, name: Seq<char>) -> bool {
    changing_name(vars, name) || (base_name(name) is Some && changing_name(
        vars,
        base_name(name)->0,
    ))
}

/// Whether what a name refers to can change: left limits can, parameters and
/// constants cannot, other variables can, and so can what is not known, but for
/// enumeration literals.
pub open spec fn name_can_vary(m: DaeView, name: Seq<char>) -> bool {
    if is_pre_name(name) {
        true
    } else if time_invariant(m.variables, name) {
        false
    } else if time_varying(m.variables, name) {
        true
    } else {
        !named(m.enum_literals, name)
    }
}

/// Whether a node is a clock tick.
pub open spec fn is_tick(e: ExprView) -> bool {
    e.args.len() != 1 && match e.node {
        NodeView::BuiltinCall(BuiltinFunction::Sample) => true,
        NodeView::FunctionCall { name, .. } => name == "__rumoca_sample"@ || name == "sample"@,
        _ => false,
    }
}

/// Whether an expression can change while a simulation runs: time, a variable
/// that changes or a clock tick occurs in it.
pub open spec fn can_vary(e: ExprView, m: DaeView) -> bool
    decreases e,
{
    ||| is_tick(e)
    ||| e.node matches NodeView::VarRef { name } && (name == "time"@ || name_can_vary(m, name))
    ||| exists|i: int| 0 <= i < e.args.len() && can_vary(#[trigger] e.args[i], m)
}

fn is_time_invariant_var_ref(dae: &Dae, name: &str) -> (r: bool)
    requires
        dae.wf(),
    ensures
        r == time_invariant(dae@.variables, name@),
{
    let vars = &dae.variables;
    proof {
        vars.parameters.lemma_views(name@);
        vars.constants.lemma_views(name@);
    }
    if vars.parameters.contains_key(name) || vars.constants.contains_key(name) {
        return true;
    }
    match component_base_name(name) {
        Some(base) => {
            proof {
                vars.parameters.lemma_views(base@);
                vars.constants.lemma_views(base@);
            }
            vars.parameters.contains_key(base.as_str()) || vars.constants.contains_key(
                base.as_str(),
            )
        },
        None => false,
    }
}

fn is_changing_name(dae: &Dae, name: &str) -> (r: bool)
    requires
        dae.wf(),
    ensures
        r == changing_name(dae@.variables, name@),
{
    let vars = &dae.variables;
    proof {
        vars.states.lemma_views(name@);
        vars.algebraics.lemma_views(name@);
        vars.outputs.lemma_views(name@);
        vars.inputs.lemma_views(name@);
        vars.discrete_reals.lemma_views(name@);
        vars.discrete_valued.lemma_views(name@);
    }
    vars.states.contains_key(name) || vars.algebraics.contains_key(name)
        || vars.outputs.contains_key(name) || vars.inputs.contains_key(name)
        || vars.discrete_reals.contains_key(name) || vars.discrete_valued.contains_key(name)
}

fn is_time_varying_var_ref(dae: &Dae, name: &str) -> (r: bool)
    requires
        dae.wf(),
    ensures
        r == time_varying(dae@.variables, name@),
{
    if is_changing_name(dae, name) {
        return true;
    }
    match component_base_name(name) {
        Some(base) => is_changing_name(dae, base.as_str()),
        None => false,
    }
}

fn var_ref_can_vary_during_simulation(dae: &Dae, name: &str) -> (r: bool)
    requires
        dae.wf(),
    ensures
        r == name_can_vary(dae@, name@),
{
    if is_pre_parameter_name(name) {
        return true;
    }
    if is_time_invariant_var_ref(dae, name) {
        return false;
    }
    if is_time_varying_var_ref(dae, name) {
        return true;
    }
    !dae.symbols.enum_literal_ordinals.contains_key(name)
}

/// Whether a node is a clock tick.
pub fn is_sample_tick_condition(e: &Expression) -> (r: bool)
    ensures
        r == is_tick(e@),
{
    proof {
        lemma_view_args(*e);
    }
    if e.args.len() == 1 {
        return false;
    }
    match &e.node {
        Node::BuiltinCall(BuiltinFunction::Sample) => true,
        Node::FunctionCall { name, .. } => same_text(name.as_str(), "__rumoca_sample")
            || same_text(name.as_str(), "sample"),
        _ => false,
    }
}

/// Whether an expression can change while a simulation runs.
pub fn expr_can_vary_during_simulation(e: &Expression, dae: &Dae) -> (r: bool)
    requires
        dae.wf(),
    ensures
        r == can_vary(e@, dae@),
    decreases e,
{
    proof {
        lemma_view_args(*e);
    }
    if is_sample_tick_condition(e) {
        return true;
    }
    if let Node::VarRef { name } = &e.node {
        if same_text(name.as_str(), "time") || var_ref_can_vary_during_simulation(
            dae,
            name.as_str(),
        ) {
            return true;
        }
    }
    let mut i: usize = 0;
    while i < e.args.len()
        invariant
            dae.wf(),
            i <= e.args@.len(),
            e@.args == expr_views(e.args@),
            !is_tick(e@),
            !(e@.node matches NodeView::VarRef { name } && (name == "time"@ || name_can_vary(
                dae@,
                name,
            ))),
            forall|k: int| 0 <= k < i ==> !can_vary(#[trigger] e@.args[k], dae@),
        decreases e.args.len() - i,
    {
        if expr_can_vary_during_simulation(&e.args[i], dae) {
            assert(can_vary(e@.args[i as int], dae@));
            return true;
        }
        i = i + 1;
    }
    false
}

} // verus!
