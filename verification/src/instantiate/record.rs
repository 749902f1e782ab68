//! What is recorded of one component instance.
use crate::expr::tree::{copy_expressions, copy_optional, Expression};
use crate::instantiate::annotation::{
    has_evaluate_annotation, has_trainable_annotation, to_evaluate, to_train,
};
use crate::instantiate::attributes::{attributes_of, extract_attributes};
use crate::instantiate::context::{
    any_expandable, any_flow, any_protected, any_stream, last_causality, last_overconstrained,
    last_variability, FrameView, InstantiateContext,
};
use crate::instantiate::error::{
    known_span, location_to_span, InstantiateError, InstantiateErrorView,
};
use crate::instantiate::evaluated::copy_override;
use crate::instantiate::tree::{
    override_views, ClassTree, ClassView, Component, ComponentView, TypeInfo,
};
use crate::ir::id_map::{with_id, IdMap};
use crate::ir::instance::{
    component_reference_for_instance, reference_of, Causality, ClassOverride, ClassType,
    InstanceData, InstanceView, OverrideView, Variability,
};
use crate::ir::modification::{lemma_modification_views, modification_of, ModificationView};
use crate::ir::name::{copy_parts, copy_subscripts, path_text, InstanceId, PartView, QualifiedName};
use crate::ir::name_map::{named, NameMap};
use crate::ir::path_map::Entry;
use crate::span::Span;
use crate::text::{copy_text, held};
use vstd::prelude::*;

verus! {

/// The direction of a component: its own, else the one handed on, else that of
/// its class.
pub open spec fn causality_of(
    comp: ComponentView,
    class: Option<ClassView>,
    handed_on: Option<Causality>,
) -> Causality {
    if !(comp.causality is Empty) {
        comp.causality
    } else {
        match handed_on {
            Some(causality) => causality,
            None => match class {
                Some(class) => class.causality,
                None => comp.causality,
            },
        }
    }
}

/// The variability of a component: its own, else the one handed on.
pub open spec fn variability_of(comp: ComponentView, handed_on: Option<Variability>) -> Variability {
    if comp.variability is Empty && handed_on is Some {
        handed_on->0
    } else {
        comp.variability
    }
}

/// The direction of a component.
pub fn resolve_component_causality(
    comp: &Component,
    class_causality: Option<Causality>,
    handed_on: Option<Causality>,
) -> (r: Causality)
    ensures
        forall|class: Option<ClassView>|
            class_causality == (match class {
                Some(c) => Some(c.causality),
                None => None,
            }) ==> r == #[trigger] causality_of(comp@, class, handed_on),
{
    match comp.causality {
        Causality::Empty => match handed_on {
            Some(causality) => causality,
            None => match class_causality {
                Some(causality) => causality,
                None => comp.causality,
            },
        },
        _ => comp.causality,
    }
}

/// The variability of a component.
pub fn resolve_effective_variability(comp: &Component, handed_on: Option<Variability>) -> (r:
    Variability)
    ensures
        r == variability_of(comp@, handed_on),
{
    match comp.variability {
        Variability::Empty => match handed_on {
            Some(variability) => variability,
            None => comp.variability,
        },
        _ => comp.variability,
    }
}

/// The class of a type, where it is one.
pub open spec fn class_at(tree: Seq<ClassView>, info: TypeInfo) -> Option<ClassView> {
    match info.class {
        Some(i) => Some(tree[i as int]),
        None => None,
    }
}

/// The error of a component whose class is partial, where that is not allowed.
/// Packages and functions may be partial.
pub open spec fn partial_error(
    tree: Seq<ClassView>,
    comp: ComponentView,
    info: TypeInfo,
    path: Seq<PartView>,
    allowed: bool,
) -> Option<InstantiateErrorView> {
    match class_at(tree, info) {
        Some(class) => if !allowed && class.partial && !(class.class_type is Package)
            && !(class.class_type is Function) {
            match known_span(comp.span, "partial component"@) {
                Err(e) => Some(e),
                Ok(span) => Some(
                    InstantiateErrorView::PartialClass {
                        path: path_text(path),
                        type_text: comp.type_text,
                        span,
                    },
                ),
            }
        } else {
            None
        },
        None => None,
    }
}

/// Refuses a component whose class is partial, where that is not allowed.
pub fn validate_partial_component_instantiation(
    tree: &ClassTree,
    comp: &Component,
    info: TypeInfo,
    path: &QualifiedName,
    allowed: bool,
) -> (r: Result<(), InstantiateError>)
    requires
        info.class is Some ==> info.class->0 < tree@.len(),
    ensures
        match r {
            Ok(_) => partial_error(tree@, comp@, info, path@, allowed) is None,
            Err(e) => partial_error(tree@, comp@, info, path@, allowed) == Some(e@),
        },
{
    if allowed {
        return Ok(());
    }
    let class = match info.class {
        Some(i) => {
            assert(tree@[i as int] == tree.classes@[i as int]@);
            &tree.classes[i]
        },
        None => {
            return Ok(());
        },
    };
    let may_be_partial: bool = match class.class_type {
        ClassType::Package => true,
        ClassType::Function => true,
        _ => false,
    };
    if !class.partial || may_be_partial {
        return Ok(());
    }
    match location_to_span(comp.span, "partial component") {
        Ok(span) => Err(
            InstantiateError::PartialClass {
                path: path.to_flat_string(),
                type_text: comp.type_text.clone(),
                span,
            },
        ),
        Err(e) => Err(e),
    }
}

/// A copy of a map of scopes.
pub fn copy_scopes(scopes: &NameMap<QualifiedName>) -> (r: NameMap<QualifiedName>)
    requires
        scopes.wf(),
    ensures
        r.wf(),
        r.views() == scopes.views(),
{
    let mut r: NameMap<QualifiedName> = NameMap::new();
    let mut i: usize = 0;
    assert(r.views() =~= scopes.views().take(0));
    while i < scopes.len()
        invariant
            scopes.wf(),
            r.wf(),
            i <= scopes.entries().len(),
            r.views() == scopes.views().take(i as int),
        decreases scopes.entries().len() - i,
    {
        let name = scopes.name_at(i);
        let scope = scopes.value_at(i).clone();
        let ghost entry = scopes.views()[i as int];
        proof {
            scopes.lemma_views(name@);
            r.lemma_views(name@);
            r.lemma_with_named(name@, scope);
            assert(entry == (name@, scope@));
            if named(r.views(), name@) {
                let k = choose|k: int|
                    0 <= k < r.views().len() && (#[trigger] r.views()[k]).0 == name@;
                assert(scopes.views()[k] == r.views()[k]);
                assert(scopes.views()[k].0 != scopes.views()[i as int].0);
            }
        }
        let ghost before = r.views();
        r.insert(name, scope);
        i = i + 1;
        assert(r.views() =~= before.push(entry));
        assert(r.views() =~= scopes.views().take(i as int));
    }
    assert(scopes.views().take(i as int) =~= scopes.views());
    r
}

/// The first `n` replaced classes, by the class that is replaced.
pub open spec fn overrides_by_class(list: Seq<OverrideView>, n: int) -> Seq<(u32, OverrideView)>
    decreases n,
{
    if n <= 0 {
        Seq::empty()
    } else {
        with_id(overrides_by_class(list, n - 1), list[n - 1].alias_def_id.0, list[n - 1])
    }
}

fn map_overrides(list: &Vec<ClassOverride>) -> (r: IdMap<ClassOverride>)
    ensures
        r.wf(),
        r.views() == overrides_by_class(override_views(list@), list@.len() as int),
{
    let ghost all = override_views(list@);
    let mut r: IdMap<ClassOverride> = IdMap::new();
    let mut i: usize = 0;
    assert(r.views() =~= Seq::<(u32, OverrideView)>::empty());
    while i < list.len()
        invariant
            all == override_views(list@),
            i <= list@.len(),
            r.wf(),
            r.views() == overrides_by_class(all, i as int),
        decreases list.len() - i,
    {
        assert(all[i as int] == list@[i as int]@);
        let o = copy_override(&list[i]);
        proof {
            r.lemma_with_id(o.alias_def_id.0, o);
        }
        r.insert(list[i].alias_def_id.0, o);
        i = i + 1;
    }
    r
}

/// What a component's place hands to it.
pub struct Surroundings {
    pub mods: Seq<Entry<ModificationView>>,
    pub frames: Seq<FrameView>,
}

/// The instance of a component at a path.
pub open spec fn instance_of(
    tree: Seq<ClassView>,
    around: Surroundings,
    comp: ComponentView,
    path: Seq<PartView>,
    id: u32,
    info: TypeInfo,
) -> InstanceView {
    let modified = modification_of(around.mods, path);
    let class = class_at(tree, info);
    let constraint = last_overconstrained(around.frames);
    let attributes = attributes_of(tree, around.mods, comp, path, info);
    InstanceView {
        instance_id: InstanceId(id),
        component_ref: Some(reference_of(path, comp.span, comp.def_id)),
        qualified_name: path,
        source_span: comp.span,
        dims: comp.dims,
        dims_expr: comp.dims_expr,
        type_text: comp.type_text,
        type_def_id: if comp.type_def_id is Some {
            comp.type_def_id
        } else {
            comp.type_name_def_id
        },
        declaration_source_scope: comp.declaration_scope,
        class_overrides: overrides_by_class(
            comp.class_overrides,
            comp.class_overrides.len() as int,
        ),
        has_forwarding_class_redeclare: comp.has_forwarding_class_redeclare,
        variability: variability_of(comp, last_variability(around.frames)),
        causality: causality_of(comp, class, last_causality(around.frames)),
        flow: comp.flow || any_flow(around.frames),
        stream: comp.stream || any_stream(around.frames),
        start: attributes.start,
        fixed: attributes.fixed,
        min: attributes.min,
        max: attributes.max,
        nominal: attributes.nominal,
        quantity: attributes.quantity,
        unit: attributes.unit,
        display_unit: attributes.display_unit,
        description: comp.description,
        state_select: attributes.state_select,
        binding: match modified {
            Some(m) => Some(m.value),
            None => comp.binding,
        },
        binding_source: match modified {
            Some(m) => m.source,
            None => None,
        },
        binding_source_scope: match modified {
            Some(m) => m.source_scope,
            None => None,
        },
        attribute_source_scopes: attributes.source_scopes,
        binding_from_modification: modified is Some,
        is_primitive: info.is_primitive,
        is_discrete_type: info.is_discrete,
        from_expandable_connector: any_expandable(around.frames),
        evaluate: to_evaluate(comp.is_final, comp.annotations),
        trainable: to_train(comp.annotations),
        is_final: comp.is_final,
        is_overconstrained: constraint is Some,
        is_protected: comp.is_protected || any_protected(around.frames),
        is_connector_type: class is Some && class->0.class_type is Connector,
        oc_record_path: match constraint {
            Some(pair) => Some(pair.1),
            None => None,
        },
        oc_eq_constraint_size: match constraint {
            Some(pair) => Some(pair.0),
            None => None,
        },
    }
}

/// A copy of an optional scope.
pub fn copy_scope(scope: &Option<QualifiedName>) -> (r: Option<QualifiedName>)
    ensures
        held(r) == held(*scope),
{
    match scope {
        Some(name) => Some(name.clone()),
        None => None,
    }
}

/// Records a component at a path. Its source position has to be known.
#[verifier::rlimit(40)]
pub fn build_instance_data(
    tree: &ClassTree,
    comp: &Component,
    ctx: &InstantiateContext,
    path: &QualifiedName,
    id: InstanceId,
    info: TypeInfo,
) -> (r: Result<InstanceData, InstantiateError>)
    requires
        ctx.wf(),
        comp.wf(),
        info.class is Some ==> info.class->0 < tree@.len(),
    ensures
        match r {
            Ok(data) => known_span(comp@.span, "instance component reference"@) is Ok && data@
                == instance_of(
                tree@,
                (Surroundings { mods: ctx.mods(), frames: ctx.frames() }),
                comp@,
                path@,
                id.0,
                info,
            ),
            Err(e) => known_span(comp@.span, "instance component reference"@) == Err::<
                Span,
                _,
            >(e@),
        },
{
    let span = match location_to_span(comp.span, "instance component reference") {
        Ok(span) => span,
        Err(e) => {
            return Err(e);
        },
    };
    let component_ref = component_reference_for_instance(path, span, comp.def_id);
    let mut is_connector_type: bool = false;
    let mut class_causality: Option<Causality> = None;
    if let Some(i) = info.class {
        assert(tree@[i as int] == tree.classes@[i as int]@);
        class_causality = Some(tree.classes[i].causality);
        is_connector_type = match tree.classes[i].class_type {
            ClassType::Connector => true,
            _ => false,
        };
    }
    let causality = resolve_component_causality(comp, class_causality, ctx.inherited_causality());
    assert(causality == causality_of(
        comp@,
        class_at(tree@, info),
        last_causality(ctx.frames()),
    ));
    let variability = resolve_effective_variability(comp, ctx.inherited_variability());
    let env = ctx.mod_env();
    let mut binding: Option<Expression> = None;
    let mut binding_source: Option<Expression> = None;
    let mut binding_source_scope: Option<QualifiedName> = None;
    let mut binding_from_modification: bool = false;
    proof {
        env.active.lemma_distinct();
        lemma_modification_views(env.entries(), path@);
    }
    match env.get(path) {
        Some(m) => {
            binding = Some(m.value.clone());
            binding_source = copy_optional(&m.source);
            binding_source_scope = copy_scope(&m.source_scope);
            binding_from_modification = true;
        },
        None => {
            binding = copy_optional(&comp.binding);
        },
    }
    let attributes = extract_attributes(tree, env, comp, path, info);
    let data = InstanceData {
        instance_id: id,
        component_ref: Some(component_ref),
        qualified_name: path.clone(),
        source_span: comp.span,
        dims: copy_subscripts(&comp.dims),
        dims_expr: copy_expressions(&comp.dims_expr),
        type_text: comp.type_text.clone(),
        type_def_id: if comp.type_def_id.is_some() {
            comp.type_def_id
        } else {
            comp.type_name_def_id
        },
        declaration_source_scope: copy_scope(&comp.declaration_scope),
        class_overrides: map_overrides(&comp.class_overrides),
        has_forwarding_class_redeclare: comp.has_forwarding_class_redeclare,
        variability,
        causality,
        flow: comp.flow || ctx.inherited_flow(),
        stream: comp.stream || ctx.inherited_stream(),
        start: attributes.start,
        fixed: attributes.fixed,
        min: attributes.min,
        max: attributes.max,
        nominal: attributes.nominal,
        quantity: attributes.quantity,
        unit: attributes.unit,
        display_unit: attributes.display_unit,
        description: copy_text(&comp.description),
        state_select: attributes.state_select,
        binding,
        binding_source,
        binding_source_scope,
        attribute_source_scopes: attributes.source_scopes,
        binding_from_modification,
        is_primitive: info.is_primitive,
        is_discrete_type: info.is_discrete,
        from_expandable_connector: ctx.is_in_expandable_connector(),
        evaluate: has_evaluate_annotation(comp.is_final, &comp.annotations),
        trainable: has_trainable_annotation(&comp.annotations),
        is_final: comp.is_final,
        is_overconstrained: ctx.is_in_overconstrained(),
        is_protected: comp.is_protected || ctx.is_in_protected(),
        is_connector_type,
        oc_record_path: ctx.overconstrained_record_path(),
        oc_eq_constraint_size: ctx.overconstrained_eq_size(),
    };
    proof {
        let expected = instance_of(
            tree@,
            Surroundings { mods: ctx.mods(), frames: ctx.frames() },
            comp@,
            path@,
            id.0,
            info,
        );
        assert(data@.dims == expected.dims);
        assert(data@.class_overrides == expected.class_overrides);
        assert(data@.component_ref == expected.component_ref);
        assert(data@.binding == expected.binding);
        assert(data@.attribute_source_scopes == expected.attribute_source_scopes);
        assert(data@ == expected);
    }
    Ok(data)
}

/// The path around a component; nothing at the root.
pub open spec fn path_around(path: Seq<PartView>) -> Seq<PartView> {
    if path.len() <= 1 {
        Seq::empty()
    } else {
        path.drop_last()
    }
}

/// The path around a component.
pub fn parent_instance_scope(path: &QualifiedName) -> (r: QualifiedName)
    ensures
        r@ == path_around(path@),
{
    if path.parts.len() <= 1 {
        return QualifiedName::new();
    }
    let r = QualifiedName { parts: copy_parts(&path.parts, 0, path.parts.len() - 1) };
    assert(r@ =~= path@.drop_last());
    r
}

/// The scope in which a binding is to be read: where its modifier is written, or
/// around the component that declares it.
pub fn binding_scope_for_record_expansion(
    path: &QualifiedName,
    binding_from_modification: bool,
    binding_source_scope: &Option<QualifiedName>,
) -> (r: Option<QualifiedName>)
    ensures
        held(r) == if binding_from_modification {
            held(*binding_source_scope)
        } else {
            Some(path_around(path@))
        },
{
    if binding_from_modification {
        copy_scope(binding_source_scope)
    } else {
        Some(parent_instance_scope(path))
    }
}

/// Whether the binding of a declaration is resolved before the simulation: that
/// of a parameter or a constant, of a structural component, or of one whose
/// values change at events alone.
pub open spec fn resolves_declaration(
    variability: Variability,
    is_structural: bool,
    is_discrete_type: bool,
) -> bool {
    variability is Parameter || variability is Constant || is_structural || is_discrete_type
}

/// Whether the binding of a declaration is resolved before the simulation.
pub fn declaration_binding_allows_structural_resolution(
    variability: Variability,
    is_structural: bool,
    is_discrete_type: bool,
) -> (r: bool)
    ensures
        r == resolves_declaration(variability, is_structural, is_discrete_type),
{
    match variability {
        Variability::Parameter => true,
        Variability::Constant => true,
        _ => is_structural || is_discrete_type,
    }
}

/// A modification of a component gives its instance the value, whatever the
/// declaration says.
pub proof fn law_modification_overrides_declaration(
    tree: Seq<ClassView>,
    around: Surroundings,
    comp: ComponentView,
    path: Seq<PartView>,
    id: u32,
    info: TypeInfo,
)
    ensures
        ({
            let data = instance_of(tree, around, comp, path, id, info);
            match modification_of(around.mods, path) {
                Some(m) => data.binding == Some(m.value) && data.binding_from_modification,
                None => data.binding == comp.binding && !data.binding_from_modification,
            }
        }),
{
}

} // verus!
