//! Lowering of left limits: every `pre(v)` becomes a reference to a parameter
//! `__pre__.v` that the runtime writes at events.
use crate::dae::equation::{equation_views, DaeEventAction, Equation, EquationView};
use crate::dae::error::{ToDaeError, ToDaeErrorView};
use crate::dae::model::{conditions_of, Dae, DaeVariables, DaeView, VariablesView};
use crate::dae::pre_resolve::{
    declared, discard_enum_literal_pre_targets, find_variable_partition, resolve_pre_targets,
    resolve_targets, undeclared_target, undeclared_target_error, without_literals,
};
use crate::dae::pre_rewrite::{make_pre_name, pre_name, pre_rewrite, rewrite_pre_expr};
use crate::dae::pre_targets::{
    collect_pre_targets_from_expr, collected, expr_targets, lemma_views_with_named, PreTarget,
    PreTargetView, Targets,
};
use crate::dae::relation_memory::{
    memory_views, relation_memories, relation_memory_exprs, relation_offset, Memory,
};
use crate::dae::variable::{Variable, VariableCausality, VariableOrigin, VariableView};
use crate::expr::tree::{copy_optional, expr_views, ExprView, Expression};
use crate::ir::name::{
    copy_subscripts, ComponentRefPart, ComponentReference, ReferencePartView, ReferenceView,
};
use crate::ir::name_map::{named, with_named, with_new_name, NameMap, Named};
use crate::span::Span;
use crate::text::{held, owned};
use vstd::prelude::*;

verus! {

/// The right-hand sides of a list of equations.
pub open spec fn rhs_of(equations: Seq<EquationView>) -> Seq<ExprView> {
    equations.map_values(|e: EquationView| e.rhs)
}

/// The equations with other right-hand sides.
pub open spec fn with_rhs(equations: Seq<EquationView>, list: Seq<ExprView>) -> Seq<EquationView> {
    Seq::new(equations.len(), |i: int| EquationView { rhs: list[i], ..equations[i] })
}

/// The targets after the first `n` expressions of a list.
pub open spec fn list_targets(list: Seq<ExprView>, n: int, allow: bool, targets: Targets) -> Result<
    Targets,
    ToDaeErrorView,
>
    decreases n,
{
    if n <= 0 {
        Ok(targets)
    } else {
        match list_targets(list, n - 1, allow, targets) {
            Ok(found) => expr_targets(list[n - 1], allow, found),
            Err(x) => Err(x),
        }
    }
}

/// The targets after one more list of expressions.
pub open spec fn then_list(
    before: Result<Targets, ToDaeErrorView>,
    list: Seq<ExprView>,
    allow: bool,
) -> Result<Targets, ToDaeErrorView> {
    match before {
        Ok(found) => list_targets(list, list.len() as int, allow, found),
        Err(x) => Err(x),
    }
}

/// The targets of all equations, relations, clock conditions and actions. In
/// continuous equations and relations an explicit left limit needs a variable
/// that is no state.
pub open spec fn model_targets(m: DaeView) -> Result<Targets, ToDaeErrorView> {
    let t0 = Ok(Seq::empty());
    let t1 = then_list(t0, rhs_of(m.continuous), false);
    let t2 = then_list(t1, rhs_of(m.real_updates), true);
    let t3 = then_list(t2, rhs_of(m.valued_updates), true);
    let t4 = then_list(t3, rhs_of(m.condition_equations), true);
    let t5 = then_list(t4, m.relations, false);
    let t6 = then_list(t5, m.triggered, true);
    let t7 = then_list(t6, m.action_conditions, true);
    then_list(t7, rhs_of(m.initial), true)
}

/// The targets by declared variable, enumeration literals left out.
pub open spec fn declared_targets(m: DaeView) -> Result<Targets, ToDaeErrorView> {
    match model_targets(m) {
        Ok(found) => {
            let kept = without_literals(found, m.enum_literals, found.len() as int);
            resolve_targets(m.variables, kept, kept.len() as int)
        },
        Err(x) => Err(x),
    }
}

/// The reference to the left limit of a variable: the namespace of left limits,
/// then the parts of the variable.
pub open spec fn pre_reference(
    source: Option<ReferenceView>,
    source_name: Seq<char>,
    owner_span: Span,
) -> ReferenceView {
    let space = ReferencePartView { ident: "__pre__"@, subs: Seq::empty(), span: owner_span };
    ReferenceView {
        local: false,
        parts: match source {
            Some(reference) => seq![space] + reference.parts,
            None => seq![
                space,
                ReferencePartView { ident: source_name, subs: Seq::empty(), span: owner_span },
            ],
        },
        def_id: None,
        span: owner_span,
    }
}

/// The reference to the left limit of a variable.
pub fn generated_pre_component_ref(
    source: &Option<ComponentReference>,
    source_name: &str,
    owner_span: Span,
) -> (r: ComponentReference)
    ensures
        r@ == pre_reference(held(*source), source_name@, owner_span),
{
    let none: Vec<i64> = Vec::new();
    assert(none@ =~= Seq::<i64>::empty());
    let ghost space = ReferencePartView {
        ident: "__pre__"@,
        subs: Seq::empty(),
        span: owner_span,
    };
    let mut parts: Vec<ComponentRefPart> = Vec::new();
    parts.push(ComponentRefPart { ident: owned("__pre__"), subs: none, span: owner_span });
    match source {
        Some(reference) => {
            let mut i: usize = 0;
            assert(parts@.map_values(|p: ComponentRefPart| p@) =~= seq![space]
                + reference@.parts.take(0));
            while i < reference.parts.len()
                invariant
                    i <= reference.parts@.len(),
                    parts@.map_values(|p: ComponentRefPart| p@) == seq![space]
                        + reference@.parts.take(i as int),
                decreases reference.parts.len() - i,
            {
                let ghost before = parts@.map_values(|p: ComponentRefPart| p@);
                parts.push(reference.parts[i].clone());
                assert(parts@.map_values(|p: ComponentRefPart| p@) =~= before.push(
                    reference@.parts[i as int],
                ));
                i = i + 1;
                assert(parts@.map_values(|p: ComponentRefPart| p@) =~= seq![space]
                    + reference@.parts.take(i as int));
            }
            assert(reference@.parts.take(i as int) =~= reference@.parts);
        },
        None => {
            let empty: Vec<i64> = Vec::new();
            assert(empty@ =~= Seq::<i64>::empty());
            parts.push(
                ComponentRefPart { ident: owned(source_name), subs: empty, span: owner_span },
            );
            assert(parts@.map_values(|p: ComponentRefPart| p@) =~= seq![
                space,
                ReferencePartView { ident: source_name@, subs: Seq::empty(), span: owner_span },
            ]);
        },
    }
    ComponentReference { local: false, parts, def_id: None, span: owner_span }
}

/// The parameter that holds the left limit of a variable: shape and start are
/// those of the variable.
pub open spec fn pre_parameter(variable: VariableView, source_name: Seq<char>) -> VariableView {
    VariableView {
        name: pre_name(source_name),
        component_ref: Some(
            pre_reference(variable.component_ref, source_name, variable.source_span),
        ),
        dims: variable.dims,
        start: variable.start,
        start_span: variable.start_span,
        fixed: Some(true),
        description: Some("pre() of "@ + source_name),
        causality: VariableCausality::CalculatedParameter,
        origin: VariableOrigin::Generated,
        ..VariableView::blank(variable.source_span)
    }
}

/// The parameter that holds the left limit of a variable.
pub fn build_pre_parameter(variable: &Variable, source_name: &str) -> (v: Variable)
    ensures
        v@ == pre_parameter(variable@, source_name@),
{
    let mut description = owned("pre() of ");
    description.append(source_name);
    let mut v = Variable::empty_with_span(variable.source_span);
    v.name = make_pre_name(source_name);
    v.component_ref = Some(
        generated_pre_component_ref(
            &variable.component_ref,
            source_name,
            variable.source_span,
        ),
    );
    v.dims = copy_subscripts(&variable.dims);
    v.start = copy_optional(&variable.start);
    v.start_span = variable.start_attribute_span();
    v.fixed = Some(true);
    v.description = Some(description);
    v.causality = VariableCausality::CalculatedParameter;
    v.origin = VariableOrigin::Generated;
    v
}

/// The parameters for the first `n` targets.
pub open spec fn target_parameters(vars: VariablesView, targets: Targets, n: int) -> Result<
    Seq<Named<VariableView>>,
    ToDaeErrorView,
>
    decreases n,
{
    if n <= 0 {
        Ok(Seq::empty())
    } else {
        let (name, target) = targets[n - 1];
        match target_parameters(vars, targets, n - 1) {
            Ok(front) => match declared(vars, target.source_name) {
                Some((_, variable)) => Ok(
                    with_named(
                        front,
                        pre_name(target.source_name),
                        pre_parameter(variable, target.source_name),
                    ),
                ),
                None => Err(undeclared_target(name, target.span)),
            },
            Err(x) => Err(x),
        }
    }
}

/// The parameters with the first `n` new ones; what is there stays as it is.
pub open spec fn with_parameters(
    parameters: Seq<Named<VariableView>>,
    new: Seq<Named<VariableView>>,
    n: int,
) -> Seq<Named<VariableView>>
    decreases n,
{
    if n <= 0 {
        parameters
    } else {
        with_new_name(with_parameters(parameters, new, n - 1), new[n - 1].0, new[n - 1].1)
    }
}

/// A list of expressions on its way through the rewriting.
#[verifier::ext_equal]
pub struct ListPass {
    pub list: Seq<ExprView>,
    pub error: Option<ToDaeErrorView>,
}

/// The first `n` expressions rewritten, up to the first that cannot be.
pub open spec fn list_pass(
    list: Seq<ExprView>,
    n: int,
    targets: Targets,
    memories: Seq<Memory>,
) -> ListPass
    decreases n,
{
    if n <= 0 {
        ListPass { list, error: None }
    } else {
        let before = list_pass(list, n - 1, targets, memories);
        if before.error is Some {
            before
        } else {
            match pre_rewrite(list[n - 1], targets, memories) {
                Ok(e) => ListPass { list: before.list.update(n - 1, e), error: None },
                Err(x) => ListPass { list: before.list, error: Some(x) },
            }
        }
    }
}

/// The whole list rewritten, up to the first expression that cannot be.
pub open spec fn whole_pass(
    list: Seq<ExprView>,
    targets: Targets,
    memories: Seq<Memory>,
) -> ListPass {
    list_pass(list, list.len() as int, targets, memories)
}

proof fn lemma_list_pass(list: Seq<ExprView>, n: int, targets: Targets, memories: Seq<Memory>)
    requires
        0 <= n <= list.len(),
    ensures
        list_pass(list, n, targets, memories).list.len() == list.len(),
        forall|i: int|
            n <= i < list.len() ==> #[trigger] list_pass(list, n, targets, memories).list[i]
                == list[i],
    decreases n,
{
    if n > 0 {
        lemma_list_pass(list, n - 1, targets, memories);
    }
}

proof fn lemma_list_pass_stops(
    list: Seq<ExprView>,
    k: int,
    n: int,
    targets: Targets,
    memories: Seq<Memory>,
)
    requires
        0 <= k <= n,
        list_pass(list, k, targets, memories).error is Some,
    ensures
        list_pass(list, n, targets, memories) == list_pass(list, k, targets, memories),
    decreases n,
{
    if k < n {
        lemma_list_pass_stops(list, k, n - 1, targets, memories);
    }
}

/// A model on its way through a lowering pass.
pub struct ModelPass {
    pub model: DaeView,
    pub error: Option<ToDaeErrorView>,
}

/// Everything that holds expressions rewritten, up to the first that cannot be.
pub open spec fn rewrite_model(m: DaeView, targets: Targets, memories: Seq<Memory>) -> ModelPass {
    let c = whole_pass(rhs_of(m.continuous), targets, memories);
    let m1 = DaeView { continuous: with_rhs(m.continuous, c.list), ..m };
    if c.error is Some {
        ModelPass { model: m1, error: c.error }
    } else {
        let z = whole_pass(rhs_of(m.real_updates), targets, memories);
        let m2 = DaeView { real_updates: with_rhs(m.real_updates, z.list), ..m1 };
        if z.error is Some {
            ModelPass { model: m2, error: z.error }
        } else {
            let v = whole_pass(rhs_of(m.valued_updates), targets, memories);
            let m3 = DaeView { valued_updates: with_rhs(m.valued_updates, v.list), ..m2 };
            if v.error is Some {
                ModelPass { model: m3, error: v.error }
            } else {
                rewrite_conditions(m3, targets, memories)
            }
        }
    }
}

/// The conditions, relations and what follows rewritten.
pub open spec fn rewrite_conditions(
    m: DaeView,
    targets: Targets,
    memories: Seq<Memory>,
) -> ModelPass {
    let c = whole_pass(rhs_of(m.condition_equations), targets, memories);
    let m1 = DaeView { condition_equations: with_rhs(m.condition_equations, c.list), ..m };
    if c.error is Some {
        ModelPass { model: m1, error: c.error }
    } else {
        let r = whole_pass(m.relations, targets, memories);
        let m2 = DaeView { relations: r.list, ..m1 };
        if r.error is Some {
            ModelPass { model: m2, error: r.error }
        } else {
            let t = whole_pass(m.triggered, targets, memories);
            let m3 = DaeView { triggered: t.list, ..m2 };
            if t.error is Some {
                ModelPass { model: m3, error: t.error }
            } else {
                let a = whole_pass(m.action_conditions, targets, memories);
                let m4 = DaeView { action_conditions: a.list, ..m3 };
                if a.error is Some {
                    ModelPass { model: m4, error: a.error }
                } else {
                    let i = whole_pass(rhs_of(m.initial), targets, memories);
                    let m5 = DaeView { initial: with_rhs(m.initial, i.list), ..m4 };
                    ModelPass { model: m5, error: i.error }
                }
            }
        }
    }
}

/// A model without temporal calls: left limits have parameters, and all
/// expressions refer to these. Where something fails, what was done before
/// stays done.
pub open spec fn lower_pre(m: DaeView) -> ModelPass {
    match declared_targets(m) {
        Err(x) => ModelPass { model: m, error: Some(x) },
        Ok(targets) => match target_parameters(m.variables, targets, targets.len() as int) {
            Err(x) => ModelPass { model: m, error: Some(x) },
            Ok(new) => {
                let m1 = DaeView {
                    variables: VariablesView {
                        parameters: with_parameters(
                            m.variables.parameters,
                            new,
                            new.len() as int,
                        ),
                        ..m.variables
                    },
                    ..m
                };
                match relation_memories(
                    m1.variables,
                    m1.relations,
                    m1.condition_equations,
                    m1.condition_equations.len() as int,
                ) {
                    Err(x) => ModelPass { model: m1, error: Some(x) },
                    Ok(memories) => rewrite_model(m1, targets, memories),
                }
            },
        },
    }
}

proof fn lemma_list_targets_error_stays(
    list: Seq<ExprView>,
    k: int,
    n: int,
    allow: bool,
    targets: Targets,
)
    requires
        0 <= k <= n,
        list_targets(list, k, allow, targets) is Err,
    ensures
        list_targets(list, n, allow, targets) == list_targets(list, k, allow, targets),
    decreases n,
{
    if k < n {
        lemma_list_targets_error_stays(list, k, n - 1, allow, targets);
    }
}

fn collect_pre_targets_from_equations(
    equations: &Vec<Equation>,
    targets: &mut NameMap<PreTarget>,
    allow: bool,
) -> (r: Result<(), ToDaeError>)
    requires
        old(targets).wf(),
    ensures
        final(targets).wf(),
        collected(
            r,
            *final(targets),
            list_targets(
                rhs_of(equation_views(equations@)),
                equations@.len() as int,
                allow,
                old(targets).views(),
            ),
        ),
{
    let ghost list = rhs_of(equation_views(equations@));
    let mut i: usize = 0;
    while i < equations.len()
        invariant
            i <= equations@.len(),
            list == rhs_of(equation_views(equations@)),
            targets.wf(),
            list_targets(list, i as int, allow, old(targets).views()) == Ok::<_, ToDaeErrorView>(
                targets.views(),
            ),
        decreases equations.len() - i,
    {
        assert(list[i as int] == equations@[i as int].rhs@);
        if let Err(x) = collect_pre_targets_from_expr(&equations[i].rhs, targets, allow) {
            proof {
                lemma_list_targets_error_stays(
                    list,
                    i + 1,
                    equations@.len() as int,
                    allow,
                    old(targets).views(),
                );
            }
            return Err(x);
        }
        i = i + 1;
    }
    Ok(())
}

fn collect_pre_targets_from_list(
    exprs: &Vec<Expression>,
    targets: &mut NameMap<PreTarget>,
    allow: bool,
) -> (r: Result<(), ToDaeError>)
    requires
        old(targets).wf(),
    ensures
        final(targets).wf(),
        collected(
            r,
            *final(targets),
            list_targets(
                expr_views(exprs@),
                exprs@.len() as int,
                allow,
                old(targets).views(),
            ),
        ),
{
    let ghost list = expr_views(exprs@);
    let mut i: usize = 0;
    while i < exprs.len()
        invariant
            i <= exprs@.len(),
            list == expr_views(exprs@),
            targets.wf(),
            list_targets(list, i as int, allow, old(targets).views()) == Ok::<_, ToDaeErrorView>(
                targets.views(),
            ),
        decreases exprs.len() - i,
    {
        assert(list[i as int] == exprs@[i as int]@);
        if let Err(x) = collect_pre_targets_from_expr(&exprs[i], targets, allow) {
            proof {
                lemma_list_targets_error_stays(
                    list,
                    i + 1,
                    exprs@.len() as int,
                    allow,
                    old(targets).views(),
                );
            }
            return Err(x);
        }
        i = i + 1;
    }
    Ok(())
}

fn collect_pre_targets_from_event_actions(
    actions: &Vec<DaeEventAction>,
    targets: &mut NameMap<PreTarget>,
) -> (r: Result<(), ToDaeError>)
    requires
        old(targets).wf(),
    ensures
        final(targets).wf(),
        collected(
            r,
            *final(targets),
            list_targets(
                conditions_of(actions@),
                actions@.len() as int,
                true,
                old(targets).views(),
            ),
        ),
{
    let ghost list = conditions_of(actions@);
    let mut i: usize = 0;
    while i < actions.len()
        invariant
            i <= actions@.len(),
            list == conditions_of(actions@),
            targets.wf(),
            list_targets(list, i as int, true, old(targets).views()) == Ok::<_, ToDaeErrorView>(
                targets.views(),
            ),
        decreases actions.len() - i,
    {
        assert(list[i as int] == actions@[i as int].condition@);
        if let Err(x) = collect_pre_targets_from_expr(&actions[i].condition, targets, true) {
            proof {
                lemma_list_targets_error_stays(
                    list,
                    i + 1,
                    actions@.len() as int,
                    true,
                    old(targets).views(),
                );
            }
            return Err(x);
        }
        i = i + 1;
    }
    Ok(())
}

fn collect_model_targets(dae: &Dae) -> (r: Result<NameMap<PreTarget>, ToDaeError>)
    requires
        dae.wf(),
    ensures
        match r {
            Ok(found) => found.wf() && declared_targets(dae@) == Ok::<_, ToDaeErrorView>(
                found.views(),
            ),
            Err(x) => declared_targets(dae@) == Err::<Targets, _>(x@),
        },
{
    let mut targets: NameMap<PreTarget> = NameMap::new();
    assert(targets.views() =~= Seq::<Named<PreTargetView>>::empty());
    if let Err(x) = collect_pre_targets_from_equations(
        &dae.continuous.equations,
        &mut targets,
        false,
    ) {
        return Err(x);
    }
    if let Err(x) = collect_pre_targets_from_equations(
        &dae.discrete.real_updates,
        &mut targets,
        true,
    ) {
        return Err(x);
    }
    if let Err(x) = collect_pre_targets_from_equations(
        &dae.discrete.valued_updates,
        &mut targets,
        true,
    ) {
        return Err(x);
    }
    if let Err(x) = collect_pre_targets_from_equations(
        &dae.conditions.equations,
        &mut targets,
        true,
    ) {
        return Err(x);
    }
    if let Err(x) = collect_pre_targets_from_list(&dae.conditions.relations, &mut targets, false) {
        return Err(x);
    }
    if let Err(x) = collect_pre_targets_from_list(
        &dae.clocks.triggered_conditions,
        &mut targets,
        true,
    ) {
        return Err(x);
    }
    if let Err(x) = collect_pre_targets_from_event_actions(
        &dae.events.event_actions,
        &mut targets,
    ) {
        return Err(x);
    }
    if let Err(x) = collect_pre_targets_from_equations(
        &dae.initialization.equations,
        &mut targets,
        true,
    ) {
        return Err(x);
    }
    let mut kept = discard_enum_literal_pre_targets(&dae.symbols.enum_literal_ordinals, targets);
    match resolve_pre_targets(&dae.variables, &mut kept) {
        Ok(()) => Ok(kept),
        Err(x) => Err(x),
    }
}

proof fn lemma_parameters_error_stays(vars: VariablesView, targets: Targets, k: int, n: int)
    requires
        0 <= k <= n,
        target_parameters(vars, targets, k) is Err,
    ensures
        target_parameters(vars, targets, n) == target_parameters(vars, targets, k),
    decreases n,
{
    if k < n {
        lemma_parameters_error_stays(vars, targets, k, n - 1);
    }
}

fn build_parameters(vars: &DaeVariables, targets: &NameMap<PreTarget>) -> (r: Result<
    NameMap<Variable>,
    ToDaeError,
>)
    requires
        vars.wf(),
        targets.wf(),
    ensures
        match r {
            Ok(new) => new.wf() && target_parameters(
                vars@,
                targets.views(),
                targets.views().len() as int,
            ) == Ok::<_, ToDaeErrorView>(new.views()),
            Err(x) => target_parameters(vars@, targets.views(), targets.views().len() as int)
                == Err::<Seq<Named<VariableView>>, _>(x@),
        },
{
    let ghost all = targets.views();
    let mut new: NameMap<Variable> = NameMap::new();
    let mut i: usize = 0;
    assert(new.views() =~= Seq::<Named<VariableView>>::empty());
    while i < targets.len()
        invariant
            vars.wf(),
            targets.wf(),
            new.wf(),
            i <= targets.entries().len(),
            all == targets.views(),
            target_parameters(vars@, all, i as int) == Ok::<_, ToDaeErrorView>(new.views()),
        decreases targets.entries().len() - i,
    {
        let name = targets.name_at(i);
        let target = targets.value_at(i);
        assert(all[i as int] == (name@, target@));
        match find_variable_partition(vars, target.source_name.as_str()) {
            Some((_, variable)) => {
                let parameter = build_pre_parameter(variable, target.source_name.as_str());
                let ghost before = new;
                let ghost content = parameter;
                let pre = make_pre_name(target.source_name.as_str());
                new.insert(pre.as_str(), parameter);
                proof {
                    lemma_views_with_named(before, new, pre@, content);
                }
            },
            None => {
                proof {
                    lemma_parameters_error_stays(vars@, all, i + 1, all.len() as int);
                }
                return Err(undeclared_target_error(name, target.span));
            },
        }
        i = i + 1;
    }
    Ok(new)
}

fn add_parameters(parameters: &mut NameMap<Variable>, new: &NameMap<Variable>)
    requires
        old(parameters).wf(),
        new.wf(),
    ensures
        final(parameters).wf(),
        final(parameters).views() == with_parameters(
            old(parameters).views(),
            new.views(),
            new.views().len() as int,
        ),
{
    let ghost list = new.views();
    let mut i: usize = 0;
    while i < new.len()
        invariant
            new.wf(),
            parameters.wf(),
            i <= new.entries().len(),
            list == new.views(),
            parameters.views() == with_parameters(old(parameters).views(), list, i as int),
        decreases new.entries().len() - i,
    {
        let name = new.name_at(i);
        let variable = new.value_at(i).clone();
        assert(list[i as int] == (name@, variable@));
        let ghost before = *parameters;
        let ghost content = variable;
        proof {
            parameters.lemma_views(name@);
        }
        parameters.insert_if_absent(name, variable);
        proof {
            if !named(before.entries(), name@) {
                assert(parameters.views() =~= before.views().push((name@, content@)));
            }
        }
        i = i + 1;
    }
}

fn rewrite_equations(
    equations: &mut Vec<Equation>,
    targets: &NameMap<PreTarget>,
    memories: &Vec<(Expression, Expression)>,
) -> (r: Result<(), ToDaeError>)
    requires
        targets.wf(),
    ensures
        ({
            let pass = whole_pass(
                rhs_of(equation_views(old(equations)@)),
                targets.views(),
                memory_views(memories@),
            );
            &&& equation_views(final(equations)@) == with_rhs(
                equation_views(old(equations)@),
                pass.list,
            )
            &&& match r {
                Ok(()) => pass.error is None,
                Err(x) => pass.error == Some(x@),
            }
        }),
{
    let ghost first = equation_views(equations@);
    let ghost list = rhs_of(first);
    let ghost t = targets.views();
    let ghost m = memory_views(memories@);
    let mut i: usize = 0;
    assert(equation_views(equations@) =~= with_rhs(first, list));
    while i < equations.len()
        invariant
            targets.wf(),
            first == equation_views(old(equations)@),
            list == rhs_of(first),
            t == targets.views(),
            m == memory_views(memories@),
            equations@.len() == first.len(),
            i <= equations@.len(),
            list_pass(list, i as int, t, m).error is None,
            equation_views(equations@) == with_rhs(first, list_pass(list, i as int, t, m).list),
        decreases equations.len() - i,
    {
        proof {
            lemma_list_pass(list, i as int, t, m);
            assert(equation_views(equations@)[i as int].rhs == equations@[i as int].rhs@);
            assert(equations@[i as int].rhs@ == list[i as int]);
        }
        match rewrite_pre_expr(&equations[i].rhs, targets, memories) {
            Ok(rhs) => {
                let ghost before = equation_views(equations@);
                let ghost content = rhs@;
                equations[i].rhs = rhs;
                proof {
                    let after = equation_views(equations@);
                    assert(after =~= before.update(
                        i as int,
                        EquationView { rhs: content, ..before[i as int] },
                    ));
                    assert(after =~= with_rhs(first, list_pass(list, i + 1, t, m).list));
                }
            },
            Err(x) => {
                proof {
                    lemma_list_pass_stops(list, i + 1, list.len() as int, t, m);
                }
                return Err(x);
            },
        }
        i = i + 1;
    }
    Ok(())
}

fn rewrite_list(
    exprs: &mut Vec<Expression>,
    targets: &NameMap<PreTarget>,
    memories: &Vec<(Expression, Expression)>,
) -> (r: Result<(), ToDaeError>)
    requires
        targets.wf(),
    ensures
        ({
            let pass = whole_pass(
                expr_views(old(exprs)@),
                targets.views(),
                memory_views(memories@),
            );
            &&& expr_views(final(exprs)@) == pass.list
            &&& match r {
                Ok(()) => pass.error is None,
                Err(x) => pass.error == Some(x@),
            }
        }),
{
    let ghost list = expr_views(exprs@);
    let ghost t = targets.views();
    let ghost m = memory_views(memories@);
    let mut i: usize = 0;
    while i < exprs.len()
        invariant
            targets.wf(),
            list == expr_views(old(exprs)@),
            t == targets.views(),
            m == memory_views(memories@),
            exprs@.len() == list.len(),
            i <= exprs@.len(),
            list_pass(list, i as int, t, m).error is None,
            expr_views(exprs@) == list_pass(list, i as int, t, m).list,
        decreases exprs.len() - i,
    {
        proof {
            lemma_list_pass(list, i as int, t, m);
            assert(expr_views(exprs@)[i as int] == exprs@[i as int]@);
        }
        match rewrite_pre_expr(&exprs[i], targets, memories) {
            Ok(e) => {
                let ghost before = expr_views(exprs@);
                let ghost content = e@;
                exprs.set(i, e);
                assert(expr_views(exprs@) =~= before.update(i as int, content));
            },
            Err(x) => {
                proof {
                    lemma_list_pass_stops(list, i + 1, list.len() as int, t, m);
                }
                return Err(x);
            },
        }
        i = i + 1;
    }
    Ok(())
}

/// Whether two lists of actions differ in their conditions alone.
pub open spec fn same_but_conditions(a: Seq<DaeEventAction>, b: Seq<DaeEventAction>) -> bool {
    &&& a.len() == b.len()
    &&& forall|i: int|
        0 <= i < a.len() ==> (#[trigger] a[i]).kind == b[i].kind && a[i].span == b[i].span
            && a[i].origin == b[i].origin
}

fn rewrite_event_actions(
    actions: &mut Vec<DaeEventAction>,
    targets: &NameMap<PreTarget>,
    memories: &Vec<(Expression, Expression)>,
) -> (r: Result<(), ToDaeError>)
    requires
        targets.wf(),
    ensures
        same_but_conditions(final(actions)@, old(actions)@),
        ({
            let pass = whole_pass(
                conditions_of(old(actions)@),
                targets.views(),
                memory_views(memories@),
            );
            &&& conditions_of(final(actions)@) == pass.list
            &&& match r {
                Ok(()) => pass.error is None,
                Err(x) => pass.error == Some(x@),
            }
        }),
{
    let ghost list = conditions_of(actions@);
    let ghost t = targets.views();
    let ghost m = memory_views(memories@);
    let mut i: usize = 0;
    while i < actions.len()
        invariant
            targets.wf(),
            list == conditions_of(old(actions)@),
            t == targets.views(),
            m == memory_views(memories@),
            actions@.len() == list.len(),
            i <= actions@.len(),
            same_but_conditions(actions@, old(actions)@),
            list_pass(list, i as int, t, m).error is None,
            conditions_of(actions@) == list_pass(list, i as int, t, m).list,
        decreases actions.len() - i,
    {
        proof {
            lemma_list_pass(list, i as int, t, m);
            assert(conditions_of(actions@)[i as int] == actions@[i as int].condition@);
        }
        match rewrite_pre_expr(&actions[i].condition, targets, memories) {
            Ok(e) => {
                let ghost before = conditions_of(actions@);
                let ghost content = e@;
                actions[i].condition = e;
                assert(conditions_of(actions@) =~= before.update(i as int, content));
            },
            Err(x) => {
                proof {
                    lemma_list_pass_stops(list, i + 1, list.len() as int, t, m);
                }
                return Err(x);
            },
        }
        i = i + 1;
    }
    Ok(())
}

/// Whether two systems agree on all that left limits do not touch.
pub open spec fn same_frame(a: Dae, b: Dae) -> bool {
    &&& a.schema_version == b.schema_version
    &&& a.symbols == b.symbols
    &&& a.metadata == b.metadata
    &&& a.events.synthetic_root_conditions == b.events.synthetic_root_conditions
    &&& a.events.scheduled_time_events == b.events.scheduled_time_events
    &&& same_but_conditions(a.events.event_actions@, b.events.event_actions@)
    &&& a.clocks.constructor_exprs == b.clocks.constructor_exprs
    &&& a.clocks.schedules == b.clocks.schedules
    &&& a.clocks.intervals == b.clocks.intervals
    &&& a.clocks.timings == b.clocks.timings
}

/// What a pass over a model gives: the model it leaves and an error if any.
pub open spec fn passed(r: Result<(), ToDaeError>, after: DaeView, expected: ModelPass) -> bool {
    &&& after == expected.model
    &&& match r {
        Ok(()) => expected.error is None,
        Err(x) => expected.error == Some(x@),
    }
}

fn rewrite_rest(
    dae: &mut Dae,
    targets: &NameMap<PreTarget>,
    memories: &Vec<(Expression, Expression)>,
) -> (r: Result<(), ToDaeError>)
    requires
        old(dae).wf(),
        targets.wf(),
    ensures
        final(dae).wf(),
        same_frame(*final(dae), *old(dae)),
        passed(
            r,
            final(dae)@,
            rewrite_conditions(old(dae)@, targets.views(), memory_views(memories@)),
        ),
{
    if let Err(x) = rewrite_equations(&mut dae.conditions.equations, targets, memories) {
        return Err(x);
    }
    if let Err(x) = rewrite_list(&mut dae.conditions.relations, targets, memories) {
        return Err(x);
    }
    if let Err(x) = rewrite_list(&mut dae.clocks.triggered_conditions, targets, memories) {
        return Err(x);
    }
    if let Err(x) = rewrite_event_actions(&mut dae.events.event_actions, targets, memories) {
        return Err(x);
    }
    rewrite_equations(&mut dae.initialization.equations, targets, memories)
}

/// Lowers every left limit of a system to a reference to a parameter.
///
/// For each variable whose left limit is needed there is a parameter with the
/// shape and start of the variable; one that is there already stays as it is.
pub fn lower_pre_operator(dae: &mut Dae) -> (r: Result<(), ToDaeError>)
    requires
        old(dae).wf(),
        relation_offset(
            old(dae)@.condition_equations,
            old(dae)@.condition_equations.len() as int,
        ) <= usize::MAX,
    ensures
        final(dae).wf(),
        same_frame(*final(dae), *old(dae)),
        passed(r, final(dae)@, lower_pre(old(dae)@)),
{
    let targets = match collect_model_targets(&*dae) {
        Ok(targets) => targets,
        Err(x) => {
            return Err(x);
        },
    };
    let new = match build_parameters(&dae.variables, &targets) {
        Ok(new) => new,
        Err(x) => {
            return Err(x);
        },
    };
    add_parameters(&mut dae.variables.parameters, &new);
    let memories = match relation_memory_exprs(
        &dae.variables,
        &dae.conditions.equations,
        &dae.conditions.relations,
    ) {
        Ok(memories) => memories,
        Err(x) => {
            return Err(x);
        },
    };
    if let Err(x) = rewrite_equations(&mut dae.continuous.equations, &targets, &memories) {
        return Err(x);
    }
    if let Err(x) = rewrite_equations(&mut dae.discrete.real_updates, &targets, &memories) {
        return Err(x);
    }
    if let Err(x) = rewrite_equations(&mut dae.discrete.valued_updates, &targets, &memories) {
        return Err(x);
    }
    rewrite_rest(dae, &targets, &memories)
}

} // verus!
