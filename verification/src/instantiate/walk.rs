//! Walking through the components of a model.
use crate::dae::shape::{
    flat_index_to_subscripts, ints_of, law_flat_position_is_inside, lemma_position_subscripts,
    nats_of,
};
use crate::instantiate::array::{
    add_element_modifications, element_component, element_subscripts, element_total,
    is_structured_array, lemma_element_comes_after, lemma_total_is_not_negative, make_element,
    make_element_subscripts, mods_at_element,
};
use crate::instantiate::attributes::{
    final_error, validate_final_type_attribute_overrides, ATTRIBUTE_COUNT,
};
use crate::instantiate::connections::{connections_of, extract_connections};
use crate::instantiate::context::{
    any_flow, any_stream, entered, frame_of, last_causality, last_variability, ActiveView,
    FrameView, InstantiateContext, MissingView, ScopeFrameInput, ScopeView,
};
use crate::instantiate::error::{known_span, InstantiateError, InstantiateErrorView};
use crate::instantiate::evaluated::{
    condition_is_false, evaluate_component, evaluated, is_disabled,
};
use crate::instantiate::nested::{
    lemma_inside_comes_after, mods_inside, populate_modification_environment,
};
use crate::instantiate::outer::{
    handle_inner_outer, inner_outer_handled, same_place, walk_state, WalkState,
};
use crate::instantiate::record::{
    build_instance_data, causality_of, copy_scope, instance_of, partial_error, resolve_component_causality,
    resolve_effective_variability, validate_partial_component_instantiation, variability_of,
    Surroundings,
};
use crate::instantiate::sections::{
    algorithms_at, algorithms_to_instance, copy_imports, equations_at, equations_to_instance,
};
use crate::instantiate::structural::{EvalPlace, EvalScope};
use crate::instantiate::tree::{
    lookup_type_info, override_views, type_info, ClassDef, ClassTree, ClassView, Component, ComponentView, TypeInfo,
};
use crate::ir::id_map::with_id;
use crate::ir::instance::{
    list_views, ClassInstanceData, ClassInstanceView, ClassOverride, InstanceConnection,
    InstanceConnectionView, InstanceOverlay, OverlayView, OverrideView,
};
use crate::ir::modification::ModificationView;
use crate::ir::name::{copy_subscripts, path_text, DefId, InstanceId, PartView, QualifiedName};
use crate::ir::name_map::with_named;
use crate::ir::path_map::Entry;
use vstd::prelude::*;

verus! {

/// What stays the same throughout a walk.
pub struct WalkRules {
    pub tree: Seq<ClassView>,
    pub depth_limit: usize,
    pub allow_partial: bool,
}

/// Where a walk is.
pub struct Place {
    pub path: Seq<PartView>,
    pub mods: Seq<Entry<ModificationView>>,
    /// The scopes around the innermost one.
    pub outer_scopes: Seq<ScopeView>,
    pub frames: Seq<FrameView>,
    pub active: Seq<ActiveView>,
}

/// What classes leave behind.
pub struct ClassResult {
    pub missing: Seq<MissingView>,
    pub overlay: OverlayView,
}

/// The overlay with one identity taken.
pub open spec fn identity_taken(overlay: OverlayView) -> OverlayView {
    OverlayView { next_id: (overlay.next_id + 1) as u32, ..overlay }
}

/// A component recorded, without what is inside it, and what its type is.
pub open spec fn component_recorded(
    rules: WalkRules,
    place: Place,
    comp: ComponentView,
    st: WalkState,
) -> Result<(WalkState, TypeInfo), InstantiateErrorView> {
    if st.overlay.next_id == u32::MAX {
        Err(InstantiateErrorView::TooManyInstances)
    } else {
        let id = st.overlay.next_id;
        let taken = WalkState { overlay: identity_taken(st.overlay), ..st };
        match inner_outer_handled(rules.tree, comp, place.path, place.outer_scopes, taken) {
            Err(e) => Err(e),
            Ok(handled) => match type_info(rules.tree, comp) {
                None => Err(
                    InstantiateErrorView::UnresolvedType {
                        path: path_text(place.path),
                        type_text: comp.type_text,
                        span: comp.span,
                    },
                ),
                Some(info) => match partial_error(
                    rules.tree,
                    comp,
                    info,
                    place.path,
                    rules.allow_partial,
                ) {
                    Some(e) => Err(e),
                    None => match final_error(
                        rules.tree,
                        place.mods,
                        comp,
                        place.path,
                        info,
                        ATTRIBUTE_COUNT as int,
                    ) {
                        Some(e) => Err(e),
                        None => match known_span(comp.span, "instance component reference"@) {
                            Err(e) => Err(e),
                            Ok(_) => {
                                let around = Surroundings {
                                    mods: place.mods,
                                    frames: place.frames,
                                };
                                let data = instance_of(
                                    rules.tree,
                                    around,
                                    comp,
                                    place.path,
                                    id,
                                    info,
                                );
                                let overlay = OverlayView {
                                    components: with_id(handled.overlay.components, id, data),
                                    ..handled.overlay
                                };
                                Ok((WalkState { overlay, ..handled }, info))
                            },
                        },
                    },
                },
            },
        }
    }
}

/// What a component hands on to the components inside it.
pub open spec fn handed_on(
    tree: Seq<ClassView>,
    place: Place,
    comp: ComponentView,
    info: TypeInfo,
) -> ScopeFrameInput {
    let class = tree[info.class->0 as int];
    ScopeFrameInput {
        variability: variability_of(
            comp,
            last_variability(place.frames),
        ),
        causality: causality_of(
            comp,
            Some(class),
            last_causality(place.frames),
        ),
        flow: comp.flow || any_flow(place.frames),
        stream: comp.stream || any_stream(place.frames),
        expandable: class.expandable,
        overconstrained_eq_size: class.eq_constraint_size,
        protected: comp.is_protected,
    }
}

/// Whether a walk goes into a component: not into primitive ones, and not into
/// outer ones, which stand for another.
pub open spec fn goes_inside(comp: ComponentView, info: TypeInfo) -> bool {
    !info.is_primitive && !(comp.outer && !comp.inner) && info.class is Some
}

/// Replaced classes and what stands in their place.
pub open spec fn replaced_pairs(list: Seq<OverrideView>) -> Seq<(DefId, DefId)> {
    list.map_values(|o: OverrideView| (o.alias_def_id, o.target_def_id))
}

/// The place inside a component, whose scope is this one.
pub open spec fn place_inside(
    tree: Seq<ClassView>,
    place: Place,
    comp: ComponentView,
    info: TypeInfo,
    scope: ScopeView,
) -> Place {
    Place {
        path: place.path,
        mods: mods_inside(
            place.mods,
            place.path,
            comp,
            tree[info.class->0 as int].components,
        ),
        outer_scopes: place.outer_scopes.push(scope),
        frames: place.frames.push(
            frame_of(
                handed_on(tree, place, comp, info),
                place.path,
                replaced_pairs(comp.class_overrides),
            ),
        ),
        active: place.active,
    }
}

/// Where the components of a class are evaluated.
pub open spec fn eval_place(rules: WalkRules, place: Place, class: int) -> EvalPlace {
    EvalPlace {
        mods: place.mods,
        path: place.path,
        components: rules.tree[class].components,
        locals: Seq::empty(),
        recorded: Seq::empty(),
    }
}

/// Where the connections of a class are evaluated, once its components are there.
pub open spec fn connection_place(
    rules: WalkRules,
    place: Place,
    class: int,
    st: WalkState,
) -> EvalPlace {
    EvalPlace { recorded: st.overlay.components, ..eval_place(rules, place, class) }
}

/// A component of a class as it is at a place.
pub open spec fn component_at(
    rules: WalkRules,
    place: Place,
    class: int,
    i: int,
) -> ComponentView {
    evaluated(
        rules.tree,
        place.frames,
        eval_place(rules, place, class),
        rules.tree[class].components[i],
    )
}

/// Whether a component of a class is not there at a place.
pub open spec fn disabled_at(rules: WalkRules, place: Place, class: int, i: int) -> bool {
    is_disabled(rules.tree[class].components[i], eval_place(rules, place, class))
}

/// The place of an element of an array.
pub open spec fn place_at_element(place: Place, name: Seq<char>, subs: Seq<i64>) -> Place {
    let array = place.path.push((name, Seq::<i64>::empty()));
    let path = place.path.push((name, subs));
    Place { path, mods: mods_at_element(place.mods, array, path, subs), ..place }
}

/// The dimensions of an array of structured components noted under its path.
pub open spec fn array_noted(st: WalkState, path: Seq<PartView>, dims: Seq<i64>) -> WalkState {
    WalkState {
        overlay: OverlayView {
            array_parent_dims: with_named(st.overlay.array_parent_dims, path_text(path), dims),
            ..st.overlay
        },
        ..st
    }
}

/// How far from the limit a path is.
pub open spec fn room(rules: WalkRules, path: Seq<PartView>) -> nat {
    if path.len() > rules.depth_limit {
        0
    } else {
        (rules.depth_limit + 1 - path.len()) as nat
    }
}

/// A component and all that is inside it.
pub open spec fn component_walked(
    rules: WalkRules,
    place: Place,
    comp: ComponentView,
    st: WalkState,
) -> Result<WalkState, InstantiateErrorView>
    decreases room(rules, place.path), 3int, 0int,
{
    match component_recorded(rules, place, comp, st) {
        Err(e) => Err(e),
        Ok((recorded, info)) => if !goes_inside(comp, info) {
            Ok(recorded)
        } else {
            match class_walked(
                rules,
                place_inside(rules.tree, place, comp, info, recorded.scope),
                info.class->0 as int,
                recorded.missing,
                recorded.overlay,
            ) {
                Err(e) => Err(e),
                Ok(r) => Ok(
                    WalkState { scope: recorded.scope, missing: r.missing, overlay: r.overlay },
                ),
            }
        },
    }
}

/// The first `n` elements of an array of structured components, in row-major
/// order. Each has a path of its own, and its part of what is said of the array.
pub open spec fn elements_walked(
    rules: WalkRules,
    place: Place,
    comp: ComponentView,
    n: int,
    st: WalkState,
) -> Result<WalkState, InstantiateErrorView>
    decreases room(rules, place.path), 0int, n,
{
    if n <= 0 || place.path.len() > rules.depth_limit {
        Ok(st)
    } else {
        match elements_walked(rules, place, comp, n - 1, st) {
            Err(e) => Err(e),
            Ok(before) => if n > u32::MAX {
                Err(InstantiateErrorView::TooManyInstances)
            } else {
                let subs = element_subscripts(comp.dims, n - 1);
                component_walked(
                    rules,
                    place_at_element(place, comp.name, subs),
                    element_component(comp, subs),
                    before,
                )
            },
        }
    }
}

/// The first `n` components of a class, evaluated where they are. Those whose
/// condition is false are noted and left out. Of an array of structured components
/// the dimensions are noted and the elements are walked.
pub open spec fn components_walked(
    rules: WalkRules,
    place: Place,
    class: int,
    n: int,
    st: WalkState,
) -> Result<WalkState, InstantiateErrorView>
    decreases room(rules, place.path), 1int, n,
{
    if n <= 0 || place.path.len() > rules.depth_limit {
        Ok(st)
    } else {
        match components_walked(rules, place, class, n - 1, st) {
            Err(e) => Err(e),
            Ok(before) => {
                let comp = component_at(rules, place, class, n - 1);
                let path = place.path.push((comp.name, Seq::<i64>::empty()));
                if disabled_at(rules, place, class, n - 1) {
                    Ok(
                        WalkState {
                            overlay: OverlayView {
                                disabled_components: with_named(
                                    before.overlay.disabled_components,
                                    path_text(path),
                                    true,
                                ),
                                ..before.overlay
                            },
                            ..before
                        },
                    )
                } else if is_structured_array(rules.tree, comp) {
                    elements_walked(
                        rules,
                        place,
                        comp,
                        element_total(comp.dims),
                        array_noted(before, path, comp.dims),
                    )
                } else {
                    component_walked(rules, Place { path, ..place }, comp, before)
                }
            },
        }
    }
}

/// The instance of a class at a path: its sections with the place they came from, and
/// its connections.
pub open spec fn class_instance(
    def: ClassView,
    path: Seq<PartView>,
    id: u32,
    connections: Seq<InstanceConnectionView>,
) -> ClassInstanceView {
    ClassInstanceView {
        instance_id: InstanceId(id),
        class_def_id: def.def_id,
        qualified_name: path,
        source_scope: def.scope,
        equations: equations_at(def.sections.equations, path, def.scope),
        initial_equations: equations_at(def.sections.initial_equations, path, def.scope),
        algorithms: algorithms_at(def.sections.algorithms, path, def.scope),
        initial_algorithms: algorithms_at(def.sections.initial_algorithms, path, def.scope),
        connections,
        resolved_imports: def.sections.imports,
    }
}

/// A class and all its components. It may not be deeper than allowed, nor inside
/// itself.
pub open spec fn class_walked(
    rules: WalkRules,
    place: Place,
    class: int,
    missing: Seq<MissingView>,
    overlay: OverlayView,
) -> Result<ClassResult, InstantiateErrorView>
    decreases room(rules, place.path), 2int, 0int,
{
    let def = rules.tree[class];
    if place.path.len() > rules.depth_limit {
        Err(
            InstantiateErrorView::DepthLimit {
                path: path_text(place.path),
                depth: place.path.len(),
                limit: rules.depth_limit,
                span: def.span,
            },
        )
    } else {
        match entered(place.active, def, place.path) {
            Err(e) => Err(e),
            Ok(active) => if overlay.next_id == u32::MAX {
                Err(InstantiateErrorView::TooManyInstances)
            } else {
                let start = WalkState {
                    scope: Seq::empty(),
                    missing,
                    overlay: identity_taken(overlay),
                };
                match components_walked(
                    rules,
                    Place { active, ..place },
                    class,
                    def.components.len() as int,
                    start,
                ) {
                    Err(e) => Err(e),
                    Ok(st) => match connections_of(
                        def.sections.connections,
                        connection_place(rules, place, class, st),
                    ) {
                        Err(e) => Err(e),
                        Ok(connections) => Ok(
                            ClassResult {
                                missing: st.missing,
                                overlay: OverlayView {
                                    classes: with_id(
                                        st.overlay.classes,
                                        overlay.next_id,
                                        class_instance(
                                            def,
                                            place.path,
                                            overlay.next_id,
                                            connections,
                                        ),
                                    ),
                                    ..st.overlay
                                },
                            },
                        ),
                    },
                }
            },
        }
    }
}

/// The rules by which a context walks.
pub open spec fn rules_of(tree: ClassTree, ctx: InstantiateContext) -> WalkRules {
    WalkRules {
        tree: tree@,
        depth_limit: ctx.depth_limit,
        allow_partial: ctx.allow_partial_instantiation,
    }
}

/// The place of a context inside a class.
pub open spec fn place_of(ctx: InstantiateContext) -> Place {
    Place {
        path: ctx.path(),
        mods: ctx.mods(),
        outer_scopes: ctx.scopes().drop_last(),
        frames: ctx.frames(),
        active: ctx.active(),
    }
}

/// The place of a context about to go into a class.
pub open spec fn place_before(ctx: InstantiateContext) -> Place {
    Place {
        path: ctx.path(),
        mods: ctx.mods(),
        outer_scopes: ctx.scopes(),
        frames: ctx.frames(),
        active: ctx.active(),
    }
}

/// Whether two contexts differ in what is missing alone.
pub open spec fn same_context(a: InstantiateContext, b: InstantiateContext) -> bool {
    a.same_but_missing(b)
}

/// Records a component, without what is inside it.
fn record_component(
    tree: &ClassTree,
    comp: &Component,
    ctx: &mut InstantiateContext,
    overlay: &mut InstanceOverlay,
) -> (r: Result<TypeInfo, InstantiateError>)
    requires
        tree.wf(),
        comp.wf(),
        old(ctx).wf(),
        old(overlay).wf(),
    ensures
        final(ctx).wf(),
        final(overlay).wf(),
        same_place(*final(ctx), *old(ctx)),
        match r {
            Ok(info) => (info.class is Some ==> info.class->0 < tree@.len()) && component_recorded(
                rules_of(*tree, *old(ctx)),
                place_of(*old(ctx)),
                comp@,
                walk_state(*old(ctx), *old(overlay)),
            ) == Ok::<_, InstantiateErrorView>((walk_state(*final(ctx), *final(overlay)), info)),
            Err(e) => component_recorded(
                rules_of(*tree, *old(ctx)),
                place_of(*old(ctx)),
                comp@,
                walk_state(*old(ctx), *old(overlay)),
            ) == Err::<(WalkState, TypeInfo), _>(e@),
        },
{
    if overlay.next_id == u32::MAX {
        return Err(InstantiateError::TooManyInstances);
    }
    let ghost start = walk_state(*ctx, *overlay);
    let id = overlay.alloc_id();
    let path = ctx.current_path();
    assert(walk_state(*ctx, *overlay) =~= (WalkState {
        overlay: identity_taken(start.overlay),
        ..start
    }));
    match handle_inner_outer(tree, comp, ctx, overlay, &path) {
        Ok(_) => {},
        Err(e) => {
            return Err(e);
        },
    }
    let ghost handled = walk_state(*ctx, *overlay);
    let info = match lookup_type_info(tree, comp) {
        Some(info) => info,
        None => {
            return Err(
                InstantiateError::UnresolvedType {
                    path: path.to_flat_string(),
                    type_text: comp.type_text.clone(),
                    span: comp.span,
                },
            );
        },
    };
    match validate_partial_component_instantiation(
        tree,
        comp,
        info,
        &path,
        ctx.allow_partial_instantiation,
    ) {
        Ok(_) => {},
        Err(e) => {
            return Err(e);
        },
    }
    match validate_final_type_attribute_overrides(tree, ctx.mod_env(), comp, &path, info) {
        Ok(_) => {},
        Err(e) => {
            return Err(e);
        },
    }
    let data = match build_instance_data(tree, comp, ctx, &path, id, info) {
        Ok(data) => data,
        Err(e) => {
            return Err(e);
        },
    };
    let ghost content = data@;
    overlay.add_component(data);
    proof {
        let expected = WalkState {
            overlay: OverlayView {
                components: with_id(handled.overlay.components, id.0, content),
                ..handled.overlay
            },
            ..handled
        };
        assert(walk_state(*ctx, *overlay) =~= expected);
    }
    Ok(info)
}

/// Instantiates the class of a component inside it: under the modifications of
/// the component and of what is around it, with what the component hands on. All
/// of that is forgotten afterwards.
fn instantiate_nested_class(
    tree: &ClassTree,
    comp: &Component,
    class: usize,
    ctx: &mut InstantiateContext,
    overlay: &mut InstanceOverlay,
    Ghost(info): Ghost<TypeInfo>,
) -> (r: Result<(), InstantiateError>)
    requires
        tree.wf(),
        comp.wf(),
        info.class == Some(class),
        class < tree@.len(),
        old(ctx).wf(),
        old(overlay).wf(),
    ensures
        final(ctx).wf(),
        final(overlay).wf(),
        same_place(*final(ctx), *old(ctx)),
        match r {
            Ok(_) => walk_state(*final(ctx), *final(overlay)).scope == walk_state(
                *old(ctx),
                *old(overlay),
            ).scope && class_walked(
                rules_of(*tree, *old(ctx)),
                place_inside(
                    tree@,
                    place_of(*old(ctx)),
                    comp@,
                    info,
                    walk_state(*old(ctx), *old(overlay)).scope,
                ),
                class as int,
                old(ctx).missing(),
                old(overlay)@,
            ) == Ok::<_, InstantiateErrorView>(
                (ClassResult { missing: final(ctx).missing(), overlay: final(overlay)@ }),
            ),
            Err(e) => class_walked(
                rules_of(*tree, *old(ctx)),
                place_inside(
                    tree@,
                    place_of(*old(ctx)),
                    comp@,
                    info,
                    walk_state(*old(ctx), *old(overlay)).scope,
                ),
                class as int,
                old(ctx).missing(),
                old(overlay)@,
            ) == Err::<ClassResult, _>(e@),
        },
    decreases room(rules_of(*tree, *old(ctx)), old(ctx).path()), 3int, 0int,
{
    let ghost rules = rules_of(*tree, *ctx);
    let ghost place = place_of(*ctx);
    let ghost scope = walk_state(*ctx, *overlay).scope;
    assert(tree@[class as int] == tree.classes@[class as int]@);
    let def = &tree.classes[class];
    let causality = resolve_component_causality(
        comp,
        Some(def.causality),
        ctx.inherited_causality(),
    );
    assert(causality == causality_of(
        comp@,
        Some(tree@[class as int]),
        last_causality(place.frames),
    ));
    let input = ScopeFrameInput {
        variability: resolve_effective_variability(
            comp,
            ctx.inherited_variability(),
        ),
        causality,
        flow: comp.flow || ctx.inherited_flow(),
        stream: comp.stream || ctx.inherited_stream(),
        expandable: def.expandable,
        overconstrained_eq_size: def.eq_constraint_size,
        protected: comp.is_protected,
    };
    assert(input == handed_on(rules.tree, place, comp@, info));
    let ghost scopes = ctx.scopes();
    let around: usize = ctx.modification_count();
    let path = ctx.current_path();
    populate_modification_environment(ctx, comp, def, &path);
    ctx.push_scope_frame(input, pair_overrides(&comp.class_overrides));
    proof {
        assert(scopes =~= place.outer_scopes.push(scope));
        assert(place_before(*ctx) == place_inside(rules.tree, place, comp@, info, scope));
        assert(rules_of(*tree, *ctx) == rules);
        lemma_inside_comes_after(place.mods, place.path, comp@, def@.components);
    }
    let result = instantiate_class(tree, class, ctx, overlay);
    ctx.pop_scope_frame();
    ctx.forget_modifications(around);
    proof {
        assert(ctx.frames() =~= place.frames);
        assert(ctx.mods() == place.mods);
        assert(ctx.scopes() == scopes);
    }
    result
}

/// Instantiates a component and all that is inside it.
pub fn instantiate_component(
    tree: &ClassTree,
    comp: &Component,
    ctx: &mut InstantiateContext,
    overlay: &mut InstanceOverlay,
) -> (r: Result<(), InstantiateError>)
    requires
        tree.wf(),
        comp.wf(),
        old(ctx).wf(),
        old(overlay).wf(),
    ensures
        final(ctx).wf(),
        final(overlay).wf(),
        same_place(*final(ctx), *old(ctx)),
        match r {
            Ok(_) => component_walked(
                rules_of(*tree, *old(ctx)),
                place_of(*old(ctx)),
                comp@,
                walk_state(*old(ctx), *old(overlay)),
            ) == Ok::<_, InstantiateErrorView>(walk_state(*final(ctx), *final(overlay))),
            Err(e) => component_walked(
                rules_of(*tree, *old(ctx)),
                place_of(*old(ctx)),
                comp@,
                walk_state(*old(ctx), *old(overlay)),
            ) == Err::<WalkState, _>(e@),
        },
    decreases room(rules_of(*tree, *old(ctx)), old(ctx).path()), 3int, 1int,
{
    let ghost rules = rules_of(*tree, *ctx);
    let ghost place = place_of(*ctx);
    let info = match record_component(tree, comp, ctx, overlay) {
        Ok(info) => info,
        Err(e) => {
            return Err(e);
        },
    };
    let ghost recorded = walk_state(*ctx, *overlay);
    if info.is_primitive || (comp.outer && !comp.inner) {
        return Ok(());
    }
    let class: usize = match info.class {
        Some(class) => class,
        None => {
            return Ok(());
        },
    };
    proof {
        assert(goes_inside(comp@, info));
        assert(place_of(*ctx) == place);
        assert(rules_of(*tree, *ctx) == rules);
    }
    match instantiate_nested_class(tree, comp, class, ctx, overlay, Ghost(info)) {
        Ok(_) => {},
        Err(e) => {
            return Err(e);
        },
    }
    assert(walk_state(*ctx, *overlay) == (WalkState {
        scope: recorded.scope,
        missing: ctx.missing(),
        overlay: overlay@,
    }));
    Ok(())
}

/// Instantiates the components of a class, one after the other.
fn instantiate_effective_components(
    tree: &ClassTree,
    class: usize,
    ctx: &mut InstantiateContext,
    overlay: &mut InstanceOverlay,
) -> (r: Result<(), InstantiateError>)
    requires
        tree.wf(),
        class < tree@.len(),
        old(ctx).wf(),
        old(overlay).wf(),
        old(ctx).path().len() <= old(ctx).depth_limit,
    ensures
        final(ctx).wf(),
        final(overlay).wf(),
        same_place(*final(ctx), *old(ctx)),
        match r {
            Ok(_) => components_walked(
                rules_of(*tree, *old(ctx)),
                place_of(*old(ctx)),
                class as int,
                tree@[class as int].components.len() as int,
                walk_state(*old(ctx), *old(overlay)),
            ) == Ok::<_, InstantiateErrorView>(walk_state(*final(ctx), *final(overlay))),
            Err(e) => components_walked(
                rules_of(*tree, *old(ctx)),
                place_of(*old(ctx)),
                class as int,
                tree@[class as int].components.len() as int,
                walk_state(*old(ctx), *old(overlay)),
            ) == Err::<WalkState, _>(e@),
        },
    decreases room(rules_of(*tree, *old(ctx)), old(ctx).path()), 1int, 0int,
{
    let ghost rules = rules_of(*tree, *ctx);
    let ghost place = place_of(*ctx);
    let ghost start = walk_state(*ctx, *overlay);
    let ghost count = tree@[class as int].components.len() as int;
    let no_locals: Vec<(String, i64)> = Vec::new();
    let mut i: usize = 0;
    while i < tree.classes[class].components.len()
        invariant
            tree.wf(),
            no_locals@.len() == 0,
            class < tree.classes@.len(),
            ctx.wf(),
            overlay.wf(),
            same_place(*ctx, *old(ctx)),
            old(ctx).path().len() <= old(ctx).depth_limit,
            rules == rules_of(*tree, *old(ctx)),
            place == place_of(*old(ctx)),
            start == walk_state(*old(ctx), *old(overlay)),
            count == tree@[class as int].components.len(),
            count == tree.classes@[class as int].components@.len(),
            i <= count,
            components_walked(rules, place, class as int, i as int, start) == Ok::<
                _,
                InstantiateErrorView,
            >(walk_state(*ctx, *overlay)),
        decreases count - i,
    {
        let declared = &tree.classes[class].components[i];
        proof {
            assert(tree@[class as int] == tree.classes@[class as int]@);
            assert(rules.tree[class as int].components[i as int] == declared@);
            assert(declared.wf());
        }
        let around = ctx.current_path();
        let at = EvalScope {
            env: ctx.mod_env(),
            path: &around,
            components: &tree.classes[class].components,
            locals: &no_locals,
            recorded: None,
        };
        assert(at.place().locals =~= Seq::<(Seq<char>, i64)>::empty());
        assert(at.place() == eval_place(rules, place, class as int));
        let disabled: bool = condition_is_false(declared, &at);
        let evaluated_here = evaluate_component(tree, ctx, declared, &at);
        let comp = &evaluated_here;
        assert(comp@ == component_at(rules, place, class as int, i as int));
        let ghost before = walk_state(*ctx, *overlay);
        let ghost path = place.path.push((comp@.name, Seq::<i64>::empty()));
        ctx.push_path(comp.name.as_str());
        assert(ctx.path() == path);
        let array = ctx.current_path();
        let mut result: Result<(), InstantiateError> = Ok(());
        if disabled {
            let text = array.to_flat_string();
            overlay.disabled_components.insert(text.as_str(), true);
            ctx.pop_path();
            assert(ctx.path() =~= place.path);
        } else if is_array_of_structures(tree, comp) {
            ctx.pop_path();
            proof {
                assert(ctx.path() =~= place.path);
                assert(place_of(*ctx) == place);
                assert(rules_of(*tree, *ctx) == rules);
                assert(walk_state(*ctx, *overlay) == before);
            }
            result = instantiate_array(tree, comp, &array, ctx, overlay);
        } else {
            assert(place_of(*ctx) == (Place { path, ..place }));
            assert(rules_of(*tree, *ctx) == rules);
            assert(walk_state(*ctx, *overlay) == before);
            result = instantiate_component(tree, comp, ctx, overlay);
            let ghost after = walk_state(*ctx, *overlay);
            ctx.pop_path();
            assert(ctx.path() =~= place.path);
            assert(walk_state(*ctx, *overlay) == after);
        }
        match result {
            Ok(_) => {},
            Err(e) => {
                proof {
                    lemma_components_fail(rules, place, class as int, i + 1, count, start);
                }
                return Err(e);
            },
        }
        i = i + 1;
    }
    Ok(())
}

fn pair_overrides(list: &Vec<ClassOverride>) -> (r: Vec<(DefId, DefId)>)
    ensures
        r@ == replaced_pairs(override_views(list@)),
{
    let ghost all = replaced_pairs(override_views(list@));
    let mut r: Vec<(DefId, DefId)> = Vec::new();
    let mut i: usize = 0;
    assert(r@ =~= all.take(0));
    while i < list.len()
        invariant
            all == replaced_pairs(override_views(list@)),
            i <= list@.len(),
            r@ == all.take(i as int),
        decreases list.len() - i,
    {
        r.push((list[i].alias_def_id, list[i].target_def_id));
        i = i + 1;
        assert(r@ =~= all.take(i as int));
    }
    assert(all.take(i as int) =~= all);
    r
}

fn is_array_of_structures(tree: &ClassTree, comp: &Component) -> (r: bool)
    ensures
        r == is_structured_array(tree@, comp@),
{
    if comp.dims.len() == 0 {
        return false;
    }
    match lookup_type_info(tree, comp) {
        Some(info) => info.class.is_some() && !info.is_primitive,
        None => false,
    }
}

/// Instantiates the elements of an array of structured components, one after the
/// other.
fn instantiate_array(
    tree: &ClassTree,
    comp: &Component,
    array: &QualifiedName,
    ctx: &mut InstantiateContext,
    overlay: &mut InstanceOverlay,
) -> (r: Result<(), InstantiateError>)
    requires
        tree.wf(),
        comp.wf(),
        comp@.dims.len() > 0,
        array@ == old(ctx).path().push((comp@.name, Seq::<i64>::empty())),
        old(ctx).wf(),
        old(overlay).wf(),
        old(ctx).path().len() <= old(ctx).depth_limit,
    ensures
        final(ctx).wf(),
        final(overlay).wf(),
        same_place(*final(ctx), *old(ctx)),
        ({
            let expected = elements_walked(
                rules_of(*tree, *old(ctx)),
                place_of(*old(ctx)),
                comp@,
                element_total(comp@.dims),
                array_noted(walk_state(*old(ctx), *old(overlay)), array@, comp@.dims),
            );
            match r {
                Ok(_) => expected == Ok::<_, InstantiateErrorView>(
                    walk_state(*final(ctx), *final(overlay)),
                ),
                Err(e) => expected == Err::<WalkState, _>(e@),
            }
        }),
    decreases room(rules_of(*tree, *old(ctx)), old(ctx).path()), 0int, 0int,
{
    let ghost rules = rules_of(*tree, *ctx);
    let ghost place = place_of(*ctx);
    let ghost dims = comp@.dims;
    let ghost total = element_total(dims);
    let ghost start = array_noted(walk_state(*ctx, *overlay), array@, dims);
    let text = array.to_flat_string();
    let sizes = copy_subscripts(&comp.dims);
    proof {
        overlay.array_parent_dims.lemma_with_named(text@, sizes);
    }
    overlay.array_parent_dims.insert(text.as_str(), sizes);
    assert(walk_state(*ctx, *overlay) =~= start);
    proof {
        lemma_total_is_not_negative(dims);
    }
    let mut k: usize = 0;
    loop
        invariant
            tree.wf(),
            comp.wf(),
            dims == comp@.dims,
            dims == comp.dims@,
            dims.len() > 0,
            total == element_total(dims),
            k <= total,
            k <= u32::MAX,
            array@ == place.path.push((comp@.name, Seq::<i64>::empty())),
            ctx.wf(),
            overlay.wf(),
            same_place(*ctx, *old(ctx)),
            old(ctx).path().len() <= old(ctx).depth_limit,
            rules == rules_of(*tree, *old(ctx)),
            place == place_of(*old(ctx)),
            start == array_noted(walk_state(*old(ctx), *old(overlay)), array@, dims),
            elements_walked(rules, place, comp@, k as int, start) == Ok::<
                _,
                InstantiateErrorView,
            >(walk_state(*ctx, *overlay)),
        decreases u32::MAX - k,
    {
        let found = match flat_index_to_subscripts(comp.dims.as_slice(), k) {
            Some(found) => found,
            None => {
                return Ok(());
            },
        };
        proof {
            lemma_position_subscripts(dims, k, found@);
            law_flat_position_is_inside(ints_of(dims), nats_of(found@));
        }
        if k as u64 >= u32::MAX as u64 {
            proof {
                lemma_elements_fail(rules, place, comp@, k + 1, total, start);
            }
            return Err(InstantiateError::TooManyInstances);
        }
        let subs = make_element_subscripts(&found);
        assert(subs@ == element_subscripts(dims, k as int));
        let element = make_element(comp, &subs);
        let ghost before = walk_state(*ctx, *overlay);
        let around: usize = ctx.modification_count();
        ctx.push_path_part(comp.name.as_str(), copy_subscripts(&subs));
        let path = ctx.current_path();
        add_element_modifications(ctx, array, &path, &subs);
        proof {
            assert(place_of(*ctx) == place_at_element(place, comp@.name, subs@));
            assert(rules_of(*tree, *ctx) == rules);
            assert(walk_state(*ctx, *overlay) == before);
            lemma_element_comes_after(
                place.mods,
                array@,
                path@,
                subs@,
                place.mods.len() as int,
            );
        }
        let result = instantiate_component(tree, &element, ctx, overlay);
        let ghost after = walk_state(*ctx, *overlay);
        ctx.forget_modifications(around);
        ctx.pop_path();
        proof {
            assert(ctx.path() =~= place.path);
            assert(ctx.mods() =~= place.mods);
            assert(walk_state(*ctx, *overlay) == after);
        }
        match result {
            Ok(_) => {},
            Err(e) => {
                proof {
                    lemma_elements_fail(rules, place, comp@, k + 1, total, start);
                }
                return Err(e);
            },
        }
        k = k + 1;
    }
}

proof fn lemma_elements_fail(
    rules: WalkRules,
    place: Place,
    comp: ComponentView,
    k: int,
    n: int,
    st: WalkState,
)
    requires
        0 <= k <= n,
        place.path.len() <= rules.depth_limit,
        elements_walked(rules, place, comp, k, st) is Err,
    ensures
        elements_walked(rules, place, comp, n, st) == elements_walked(rules, place, comp, k, st),
    decreases n,
{
    if k < n {
        lemma_elements_fail(rules, place, comp, k, n - 1, st);
    }
}

proof fn lemma_components_fail(
    rules: WalkRules,
    place: Place,
    class: int,
    k: int,
    n: int,
    st: WalkState,
)
    requires
        0 <= k <= n,
        place.path.len() <= rules.depth_limit,
        components_walked(rules, place, class, k, st) is Err,
    ensures
        components_walked(rules, place, class, n, st) == components_walked(
            rules,
            place,
            class,
            k,
            st,
        ),
    decreases n,
{
    if k < n {
        lemma_components_fail(rules, place, class, k, n - 1, st);
    }
}

fn make_class_instance(
    def: &ClassDef,
    path: QualifiedName,
    id: InstanceId,
    connections: Vec<InstanceConnection>,
) -> (data: ClassInstanceData)
    ensures
        data@ == class_instance(def@, path@, id.0, list_views(connections@)),
{
    let sections = &def.sections;
    ClassInstanceData {
        instance_id: id,
        class_def_id: def.def_id,
        source_scope: copy_scope(&def.scope),
        equations: equations_to_instance(&sections.equations, &path, &def.scope),
        initial_equations: equations_to_instance(&sections.initial_equations, &path, &def.scope),
        algorithms: algorithms_to_instance(&sections.algorithms, &path, &def.scope),
        initial_algorithms: algorithms_to_instance(
            &sections.initial_algorithms,
            &path,
            &def.scope,
        ),
        connections,
        resolved_imports: copy_imports(&sections.imports),
        qualified_name: path,
    }
}

/// Instantiates a class and all its components.
pub fn instantiate_class(
    tree: &ClassTree,
    class: usize,
    ctx: &mut InstantiateContext,
    overlay: &mut InstanceOverlay,
) -> (r: Result<(), InstantiateError>)
    requires
        tree.wf(),
        class < tree@.len(),
        old(ctx).wf(),
        old(overlay).wf(),
    ensures
        final(ctx).wf(),
        final(overlay).wf(),
        same_context(*final(ctx), *old(ctx)),
        match r {
            Ok(_) => class_walked(
                rules_of(*tree, *old(ctx)),
                place_before(*old(ctx)),
                class as int,
                old(ctx).missing(),
                old(overlay)@,
            ) == Ok::<_, InstantiateErrorView>(
                (ClassResult { missing: final(ctx).missing(), overlay: final(overlay)@ }),
            ),
            Err(e) => class_walked(
                rules_of(*tree, *old(ctx)),
                place_before(*old(ctx)),
                class as int,
                old(ctx).missing(),
                old(overlay)@,
            ) == Err::<ClassResult, _>(e@),
        },
    decreases room(rules_of(*tree, *old(ctx)), old(ctx).path()), 2int, 0int,
{
    let ghost rules = rules_of(*tree, *ctx);
    let ghost place = place_before(*ctx);
    let def = &tree.classes[class];
    assert(tree@[class as int] == def@);
    match ctx.validate_depth_limit(def.span) {
        Ok(_) => {},
        Err(e) => {
            return Err(e);
        },
    }
    match ctx.enter_instantiation_class(def) {
        Ok(_) => {},
        Err(e) => {
            return Err(e);
        },
    }
    let ghost active = ctx.active();
    if overlay.next_id == u32::MAX {
        ctx.exit_instantiation_class(def);
        assert(ctx.active() =~= place.active);
        return Err(InstantiateError::TooManyInstances);
    }
    ctx.push_inner_scope();
    let id = overlay.alloc_id();
    let path = ctx.current_path();
    proof {
        assert(ctx.scopes().drop_last() =~= place.outer_scopes);
        assert(place_of(*ctx) == (Place { active, ..place }));
        assert(rules_of(*tree, *ctx) == rules);
        assert(walk_state(*ctx, *overlay) =~= (WalkState {
            scope: Seq::empty(),
            missing: old(ctx).missing(),
            overlay: identity_taken(old(overlay)@),
        }));
    }
    let mut result = instantiate_effective_components(tree, class, ctx, overlay);
    if result.is_ok() {
        let no_locals: Vec<(String, i64)> = Vec::new();
        let at = EvalScope {
            env: ctx.mod_env(),
            path: &path,
            components: &def.components,
            locals: &no_locals,
            recorded: Some(&overlay.components),
        };
        proof {
            assert(at.place().locals =~= Seq::<(Seq<char>, i64)>::empty());
            assert(at.place() == connection_place(
                rules,
                place,
                class as int,
                walk_state(*ctx, *overlay),
            ));
        }
        match extract_connections(&def.sections.connections, &at) {
            Ok(connections) => {
                overlay.add_class(make_class_instance(def, path, id, connections));
            },
            Err(e) => {
                result = Err(e);
            },
        }
    }
    ctx.pop_inner_scope();
    ctx.exit_instantiation_class(def);
    proof {
        assert(ctx.scopes() =~= place.outer_scopes);
        assert(ctx.active() =~= place.active);
    }
    result
}

} // verus!
