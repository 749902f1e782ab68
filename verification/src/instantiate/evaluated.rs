//! Components as they are at their place in a model.
//!
//! What a class declares of a component is evaluated in each instance of the class:
//! whether the component is there, its dimensions, its value, what it says of what is
//! inside it, and of which class it is.
use crate::dae::const_eval::{const_value, ConstValue};
use crate::expr::tree::{
    copy_expressions, copy_optional, same_expression, ExprView, Expression, NodeView,
};
use crate::instantiate::annotation::copy_annotations;
use crate::instantiate::context::{replacement, FrameView, InstantiateContext};
use crate::instantiate::record::{
    copy_scope, copy_scopes, declaration_binding_allows_structural_resolution,
    resolves_declaration,
};
use crate::instantiate::structural::{
    dotted_path, evaluate_integers, evaluate_structural, known_integers,
    law_modified_value_is_read, resolve_declaration_binding_expr, resolve_modification, resolved,
    resolved_modification, structural_value, EvalPlace, EvalScope,
};
use crate::instantiate::tree::{
    class_defined, find_class_by_def, lookup_type_info, override_views, said_modifications,
    type_info, AttributesView, ClassTree, ClassView, Component, ComponentView,
    ExtractedAttributes,
};
use crate::ir::instance::{ClassOverride, OverrideView};
use crate::ir::modification::{
    lemma_modification_views, modification_of, ModificationValue, ModificationView,
};
use crate::ir::name::{copy_subscripts, QualifiedName};
use crate::ir::path_map::Entry;
use crate::text::{copy_text, held};
use vstd::prelude::*;

verus! {

/// A copy of a replaced class.
pub fn copy_override(o: &ClassOverride) -> (r: ClassOverride)
    ensures
        r@ == o@,
{
    ClassOverride {
        alias: o.alias.clone(),
        alias_def_id: o.alias_def_id,
        target_def_id: o.target_def_id,
        target_ref: match &o.target_ref {
            Some(reference) => Some(reference.clone()),
            None => None,
        },
        modifier_args: copy_expressions(&o.modifier_args),
    }
}

/// A copy of replaced classes.
pub fn copy_overrides(list: &Vec<ClassOverride>) -> (r: Vec<ClassOverride>)
    ensures
        override_views(r@) == override_views(list@),
{
    let ghost all = override_views(list@);
    let mut r: Vec<ClassOverride> = Vec::new();
    let mut i: usize = 0;
    assert(override_views(r@) =~= all.take(0));
    while i < list.len()
        invariant
            all == override_views(list@),
            i <= list@.len(),
            override_views(r@) == all.take(i as int),
        decreases list.len() - i,
    {
        let ghost before = override_views(r@);
        r.push(copy_override(&list[i]));
        assert(override_views(r@) =~= before.push(all[i as int]));
        i = i + 1;
        assert(override_views(r@) =~= all.take(i as int));
    }
    assert(all.take(i as int) =~= all);
    r
}

/// A copy of modifications as they are said.
pub fn copy_said(list: &Vec<(QualifiedName, ModificationValue)>) -> (r: Vec<
    (QualifiedName, ModificationValue),
>)
    ensures
        said_modifications(r@) == said_modifications(list@),
{
    let ghost all = said_modifications(list@);
    let mut r: Vec<(QualifiedName, ModificationValue)> = Vec::new();
    let mut i: usize = 0;
    assert(said_modifications(r@) =~= all.take(0));
    while i < list.len()
        invariant
            all == said_modifications(list@),
            i <= list@.len(),
            said_modifications(r@) == all.take(i as int),
        decreases list.len() - i,
    {
        let ghost before = said_modifications(r@);
        r.push((list[i].0.clone(), list[i].1.clone()));
        assert(said_modifications(r@) =~= before.push(all[i as int]));
        i = i + 1;
        assert(said_modifications(r@) =~= all.take(i as int));
    }
    assert(all.take(i as int) =~= all);
    r
}

/// A copy of attributes.
pub fn copy_attributes(a: &ExtractedAttributes) -> (r: ExtractedAttributes)
    requires
        a.source_scopes.wf(),
    ensures
        r.source_scopes.wf(),
        r@ == a@,
{
    ExtractedAttributes {
        start: copy_optional(&a.start),
        start_is_explicit: a.start_is_explicit,
        fixed: a.fixed,
        min: copy_optional(&a.min),
        max: copy_optional(&a.max),
        nominal: copy_optional(&a.nominal),
        source_scopes: copy_scopes(&a.source_scopes),
        quantity: copy_text(&a.quantity),
        unit: copy_text(&a.unit),
        display_unit: copy_text(&a.display_unit),
        state_select: a.state_select,
    }
}

/// A copy of a component.
pub fn copy_component(comp: &Component) -> (c: Component)
    requires
        comp.wf(),
    ensures
        c.wf(),
        c@ == comp@,
{
    let c = Component {
        name: comp.name.clone(),
        type_text: comp.type_text.clone(),
        type_def_id: comp.type_def_id,
        type_name_def_id: comp.type_name_def_id,
        class_overrides: copy_overrides(&comp.class_overrides),
        has_forwarding_class_redeclare: comp.has_forwarding_class_redeclare,
        def_id: comp.def_id,
        inner: comp.inner,
        outer: comp.outer,
        variability: comp.variability,
        causality: comp.causality,
        flow: comp.flow,
        stream: comp.stream,
        is_final: comp.is_final,
        is_protected: comp.is_protected,
        is_structural: comp.is_structural,
        condition: copy_optional(&comp.condition),
        dims: copy_subscripts(&comp.dims),
        dims_expr: copy_expressions(&comp.dims_expr),
        binding: copy_optional(&comp.binding),
        modifications: copy_said(&comp.modifications),
        attributes: copy_attributes(&comp.attributes),
        annotations: copy_annotations(&comp.annotations),
        description: copy_text(&comp.description),
        span: comp.span,
        declaration_scope: copy_scope(&comp.declaration_scope),
    };
    assert(c@.dims =~= comp@.dims);
    c
}

/// A component with the class that stands in place of its own, where the components
/// around replace it.
pub open spec fn retyped(
    tree: Seq<ClassView>,
    frames: Seq<FrameView>,
    comp: ComponentView,
) -> ComponentView {
    match comp.type_def_id {
        None => comp,
        Some(alias) => match replacement(frames, alias) {
            None => comp,
            Some(target) => ComponentView {
                type_def_id: Some(target),
                type_text: match class_defined(tree, target) {
                    Some(i) => tree[i].name,
                    None => comp.type_text,
                },
                ..comp
            },
        },
    }
}

/// A replaced class whose replacement is the class itself stands for what the
/// components around replace it by.
pub open spec fn forwarded(o: OverrideView, frames: Seq<FrameView>) -> OverrideView {
    if o.target_def_id == o.alias_def_id && replacement(frames, o.alias_def_id) is Some {
        OverrideView { target_def_id: replacement(frames, o.alias_def_id)->0, ..o }
    } else {
        o
    }
}

/// The dimensions of a component: those of its expressions where all are known, else
/// those that are given.
pub open spec fn dimensions_at(comp: ComponentView, at: EvalPlace) -> Seq<i64> {
    if comp.dims_expr.len() == 0 {
        comp.dims
    } else {
        match known_integers(comp.dims_expr, at, comp.dims_expr.len() as int) {
            Some(dims) => dims,
            None => comp.dims,
        }
    }
}

/// Whether the value that a component declares is evaluated: it is not modified, and
/// it is fixed or changes at events alone.
pub open spec fn evaluates_declaration(
    tree: Seq<ClassView>,
    comp: ComponentView,
    at: EvalPlace,
) -> bool {
    &&& modification_of(at.mods, at.path.push((comp.name, Seq::<i64>::empty()))) is None
    &&& resolves_declaration(
        comp.variability,
        comp.is_structural,
        type_info(tree, comp) is Some && type_info(tree, comp)->0.is_discrete,
    )
}

/// A component as it is at a place.
pub open spec fn evaluated(
    tree: Seq<ClassView>,
    frames: Seq<FrameView>,
    at: EvalPlace,
    declared: ComponentView,
) -> ComponentView {
    let comp = retyped(tree, frames, declared);
    let binding = binding_at(tree, comp, at);
    ComponentView {
        class_overrides: comp.class_overrides.map_values(
            |o: OverrideView| forwarded(o, frames),
        ),
        dims: dimensions_at(comp, at),
        binding,
        modifications: comp.modifications.map_values(
            |e: Entry<ModificationView>| (e.0, resolved_modification(e.1, at)),
        ),
        attributes: AttributesView {
            start: start_at(comp, binding),
            ..comp.attributes
        },
        ..comp
    }
}

/// Whether a component is not there: its condition is known not to hold.
pub open spec fn is_disabled(comp: ComponentView, at: EvalPlace) -> bool {
    comp.condition is Some && structural_value(comp.condition->0, at) == Some(
        ConstValue::Boolean(false),
    )
}

/// Whether a component is not there.
pub fn condition_is_false(comp: &Component, at: &EvalScope<'_>) -> (r: bool)
    requires
        at.wf(),
    ensures
        r == is_disabled(comp@, at.place()),
{
    match &comp.condition {
        Some(condition) => match evaluate_structural(condition, at) {
            Some(ConstValue::Boolean(false)) => true,
            _ => false,
        },
        None => false,
    }
}

fn retype(tree: &ClassTree, ctx: &InstantiateContext, comp: &Component) -> (c: Component)
    requires
        ctx.wf(),
        comp.wf(),
    ensures
        c.wf(),
        c@ == retyped(tree@, ctx.frames(), comp@),
{
    let mut c = copy_component(comp);
    if let Some(alias) = comp.type_def_id {
        if let Some(target) = ctx.active_replacement(alias) {
            c.type_def_id = Some(target);
            if let Some(i) = find_class_by_def(tree, target) {
                assert(tree@[i as int] == tree.classes@[i as int]@);
                c.type_text = tree.classes[i].name.clone();
            }
        }
    }
    c
}

fn forward_overrides(list: &Vec<ClassOverride>, ctx: &InstantiateContext) -> (r: Vec<
    ClassOverride,
>)
    ensures
        override_views(r@) == override_views(list@).map_values(
            |o: OverrideView| forwarded(o, ctx.frames()),
        ),
{
    let ghost all = override_views(list@).map_values(
        |o: OverrideView| forwarded(o, ctx.frames()),
    );
    let mut r: Vec<ClassOverride> = Vec::new();
    let mut i: usize = 0;
    assert(override_views(r@) =~= all.take(0));
    while i < list.len()
        invariant
            all == override_views(list@).map_values(
                |o: OverrideView| forwarded(o, ctx.frames()),
            ),
            i <= list@.len(),
            override_views(r@) == all.take(i as int),
        decreases list.len() - i,
    {
        let ghost before = override_views(r@);
        let mut o = copy_override(&list[i]);
        if o.target_def_id.0 == o.alias_def_id.0 {
            if let Some(target) = ctx.active_replacement(o.alias_def_id) {
                o.target_def_id = target;
            }
        }
        assert(o@ == forwarded(list@[i as int]@, ctx.frames()));
        r.push(o);
        assert(override_views(r@) =~= before.push(all[i as int]));
        i = i + 1;
        assert(override_views(r@) =~= all.take(i as int));
    }
    assert(all.take(i as int) =~= all);
    r
}

fn evaluate_modifications(
    list: &Vec<(QualifiedName, ModificationValue)>,
    at: &EvalScope<'_>,
) -> (r: Vec<(QualifiedName, ModificationValue)>)
    requires
        at.wf(),
    ensures
        said_modifications(r@) == said_modifications(list@).map_values(
            |e: Entry<ModificationView>| (e.0, resolved_modification(e.1, at.place())),
        ),
{
    let ghost place = at.place();
    let ghost all = said_modifications(list@).map_values(
        |e: Entry<ModificationView>| (e.0, resolved_modification(e.1, place)),
    );
    let mut r: Vec<(QualifiedName, ModificationValue)> = Vec::new();
    let mut i: usize = 0;
    assert(said_modifications(r@) =~= all.take(0));
    while i < list.len()
        invariant
            at.wf(),
            place == at.place(),
            all == said_modifications(list@).map_values(
                |e: Entry<ModificationView>| (e.0, resolved_modification(e.1, place)),
            ),
            i <= list@.len(),
            said_modifications(r@) == all.take(i as int),
        decreases list.len() - i,
    {
        let ghost before = said_modifications(r@);
        let m = resolve_modification(&list[i].1, at);
        r.push((list[i].0.clone(), m));
        assert(said_modifications(r@) =~= before.push(all[i as int]));
        i = i + 1;
        assert(said_modifications(r@) =~= all.take(i as int));
    }
    assert(all.take(i as int) =~= all);
    r
}

fn evaluate_dimensions(comp: &Component, at: &EvalScope<'_>) -> (r: Vec<i64>)
    requires
        at.wf(),
    ensures
        r@ == dimensions_at(comp@, at.place()),
{
    if comp.dims_expr.len() > 0 {
        if let Some(dims) = evaluate_integers(&comp.dims_expr, at) {
            return dims;
        }
    }
    copy_subscripts(&comp.dims)
}

/// The value that a component has at a place by its declaration.
pub open spec fn binding_at(tree: Seq<ClassView>, comp: ComponentView, at: EvalPlace) -> Option<
    ExprView,
> {
    match comp.binding {
        Some(value) => if evaluates_declaration(tree, comp, at) {
            Some(resolved(value, at))
        } else {
            Some(value)
        },
        None => None,
    }
}

fn evaluate_binding(tree: &ClassTree, comp: &Component, at: &EvalScope<'_>) -> (r: Option<
    Expression,
>)
    requires
        at.wf(),
    ensures
        held(r) == binding_at(tree@, comp@, at.place()),
{
    let path = at.path.child(comp.name.as_str());
    assert(path@ =~= at.path@.push((comp@.name, Seq::<i64>::empty())));
    proof {
        at.env.active.lemma_distinct();
        lemma_modification_views(at.env.entries(), path@);
    }
    let is_discrete: bool = match lookup_type_info(tree, comp) {
        Some(info) => info.is_discrete,
        None => false,
    };
    let evaluates = at.env.get(&path).is_none() && declaration_binding_allows_structural_resolution(
        comp.variability,
        comp.is_structural,
        is_discrete,
    );
    match &comp.binding {
        Some(value) => if evaluates {
            Some(resolve_declaration_binding_expr(value, at))
        } else {
            Some(value.clone())
        },
        None => None,
    }
}

/// The start value of a component whose declared value is this one at its place: a
/// start value that is the declared value follows it.
pub open spec fn start_at(comp: ComponentView, binding: Option<ExprView>) -> Option<ExprView> {
    if comp.binding is Some && comp.attributes.start == comp.binding {
        binding
    } else {
        comp.attributes.start
    }
}

fn evaluate_start(comp: &Component, binding: &Option<Expression>) -> (r: Option<Expression>)
    ensures
        held(r) == start_at(comp@, held(*binding)),
{
    let follows: bool = match &comp.binding {
        Some(value) => match &comp.attributes.start {
            Some(start) => same_expression(start, value),
            None => false,
        },
        None => false,
    };
    if follows {
        copy_optional(binding)
    } else {
        copy_optional(&comp.attributes.start)
    }
}

/// A component as it is at a place.
pub fn evaluate_component(
    tree: &ClassTree,
    ctx: &InstantiateContext,
    declared: &Component,
    at: &EvalScope<'_>,
) -> (c: Component)
    requires
        ctx.wf(),
        declared.wf(),
        at.wf(),
    ensures
        c.wf(),
        c@ == evaluated(tree@, ctx.frames(), at.place(), declared@),
{
    let comp = retype(tree, ctx, declared);
    let binding = evaluate_binding(tree, &comp, at);
    let start = evaluate_start(&comp, &binding);
    let class_overrides = forward_overrides(&comp.class_overrides, ctx);
    let dims = evaluate_dimensions(&comp, at);
    let modifications = evaluate_modifications(&comp.modifications, at);
    let ghost before = comp@;
    let mut attributes = comp.attributes;
    attributes.start = start;
    assert(attributes@ == (AttributesView {
        start: start_at(before, binding_at(tree@, before, at.place())),
        ..before.attributes
    }));
    Component { class_overrides, dims, binding, modifications, attributes, ..comp }
}

/// A dimension that names a modified parameter is what the modification says.
pub proof fn law_modified_dimension(comp: ComponentView, at: EvalPlace, name: Seq<char>, n: i64)
    requires
        at.locals.len() == 0,
        comp.dims_expr.len() == 1,
        comp.dims_expr[0].node == (NodeView::VarRef { name }),
        comp.dims_expr[0].args.len() == 0,
        modification_of(at.mods, at.path + dotted_path(name))
            is Some,
        const_value(
            modification_of(
                at.mods,
                at.path + dotted_path(name),
            )->0.value,
        ) == Some(ConstValue::Integer(n)),
    ensures
        dimensions_at(comp, at) == seq![n],
{
    reveal_with_fuel(known_integers, 2);
    law_modified_value_is_read(name, at, comp.dims_expr[0]);
    assert(known_integers(comp.dims_expr, at, 1)->0 =~= seq![n]);
}

/// A component whose condition names a modified parameter is there unless the
/// modification says false.
pub proof fn law_modified_condition(comp: ComponentView, at: EvalPlace, name: Seq<char>, b: bool)
    requires
        at.locals.len() == 0,
        comp.condition is Some,
        comp.condition->0.node == (NodeView::VarRef { name }),
        comp.condition->0.args.len() == 0,
        modification_of(at.mods, at.path + dotted_path(name))
            is Some,
        const_value(
            modification_of(
                at.mods,
                at.path + dotted_path(name),
            )->0.value,
        ) == Some(ConstValue::Boolean(b)),
    ensures
        is_disabled(comp, at) == !b,
{
    law_modified_value_is_read(name, at, comp.condition->0);
}

} // verus!
