//! What holds of every walk through a model.
use crate::instantiate::array::{
    element_component, element_subscripts, element_total, is_structured_array,
};
use crate::instantiate::context::{
    active_at, entered, ActiveView, InnerView, MissingView,
};
use crate::instantiate::error::InstantiateErrorView;
use crate::instantiate::model::{outcome_of, OutcomeView};
use crate::instantiate::outer::{inner_of, inner_outer_handled, led_to, WalkState};
use crate::instantiate::record::{instance_of, Surroundings};
use crate::instantiate::tree::{class_named, ClassView, ComponentView};
use crate::instantiate::walk::{
    array_noted, class_walked, component_at, component_recorded, component_walked,
    components_walked, disabled_at, elements_walked, goes_inside, identity_taken,
    place_at_element, place_inside, room, Place, WalkRules,
};
use crate::ir::id_map::{distinct_ids, lemma_with_id_distinct, numbered};
use crate::ir::instance::OverlayView;
use crate::ir::modification::ModificationView;
use crate::ir::name::{path_text, DefId, PartView};
use crate::ir::name_map::{
    distinct_names, lemma_with_named_keeps, lemma_with_named_values, named, value_of_name,
    with_named,
};
use crate::ir::path_map::Entry;
use vstd::prelude::*;

verus! {

/// Every component has an identity of its own, and none is free any more.
pub open spec fn identities_apart(overlay: OverlayView) -> bool {
    &&& distinct_ids(overlay.components)
    &&& forall|i: int|
        0 <= i < overlay.components.len() ==> (#[trigger] overlay.components[i]).0
            < overlay.next_id
}

/// The components of one overlay stand at the beginning of another, and what is noted
/// as left out in the one is noted in the other.
pub open spec fn keeps_components(before: OverlayView, after: OverlayView) -> bool {
    &&& before.components.len() <= after.components.len()
    &&& before.next_id <= after.next_id
    &&& forall|i: int|
        0 <= i < before.components.len() ==> (#[trigger] after.components[i])
            == before.components[i]
    &&& forall|name: Seq<char>| #[trigger]
        named(before.disabled_components, name) ==> named(after.disabled_components, name)
}

/// The first component that is new stands at this path.
pub open spec fn adds_at(before: OverlayView, after: OverlayView, path: Seq<PartView>) -> bool {
    &&& before.components.len() < after.components.len()
    &&& after.components[before.components.len() as int].1.qualified_name == path
}

proof fn lemma_led_keeps(
    tree: Seq<ClassView>,
    overlay: OverlayView,
    list: Seq<MissingView>,
    name: Seq<char>,
    inner: InnerView,
    n: int,
)
    ensures
        led_to(tree, overlay, list, name, inner, n).components == overlay.components,
        led_to(tree, overlay, list, name, inner, n).next_id == overlay.next_id,
        led_to(tree, overlay, list, name, inner, n).disabled_components
            == overlay.disabled_components,
    decreases n,
{
    if n > 0 {
        lemma_led_keeps(tree, overlay, list, name, inner, n - 1);
    }
}

/// Recording a component adds it and leaves the others as they were.
pub proof fn lemma_recorded(rules: WalkRules, place: Place, comp: ComponentView, st: WalkState)
    requires
        identities_apart(st.overlay),
        component_recorded(rules, place, comp, st) is Ok,
    ensures
        ({
            let after = component_recorded(rules, place, comp, st)->Ok_0.0.overlay;
            identities_apart(after) && keeps_components(st.overlay, after) && adds_at(
                st.overlay,
                after,
                place.path,
            ) && after.components.len() == st.overlay.components.len() + 1
                && after.components.last().1 == instance_of(
                rules.tree,
                Surroundings { mods: place.mods, frames: place.frames },
                comp,
                place.path,
                st.overlay.next_id,
                component_recorded(rules, place, comp, st)->Ok_0.1,
            )
        }),
{
    let id = st.overlay.next_id;
    let taken = WalkState { overlay: identity_taken(st.overlay), ..st };
    let inner = inner_of(rules.tree, comp, place.path);
    lemma_led_keeps(
        rules.tree,
        taken.overlay,
        taken.missing,
        comp.name,
        inner,
        taken.missing.len() as int,
    );
    let handled = inner_outer_handled(
        rules.tree,
        comp,
        place.path,
        place.outer_scopes,
        taken,
    )->Ok_0.overlay;
    assert(handled.components == st.overlay.components);
    assert(handled.next_id == id + 1);
    assert(handled.disabled_components == st.overlay.disabled_components);
    let after = component_recorded(rules, place, comp, st)->Ok_0.0.overlay;
    if numbered(handled.components, id) {
        let i = choose|i: int|
            0 <= i < handled.components.len() && (#[trigger] handled.components[i]).0 == id;
        assert(st.overlay.components[i].0 < id);
    }
    let data = after.components[handled.components.len() as int].1;
    lemma_with_id_distinct(handled.components, id, data);
}

/// Walking a component adds it first and leaves the others as they were.
pub proof fn lemma_component(rules: WalkRules, place: Place, comp: ComponentView, st: WalkState)
    requires
        identities_apart(st.overlay),
        component_walked(rules, place, comp, st) is Ok,
    ensures
        ({
            let after = component_walked(rules, place, comp, st)->Ok_0.overlay;
            identities_apart(after) && keeps_components(st.overlay, after) && adds_at(
                st.overlay,
                after,
                place.path,
            )
        }),
    decreases room(rules, place.path), 3int, 0int,
{
    lemma_recorded(rules, place, comp, st);
    let (recorded, info) = component_recorded(rules, place, comp, st)->Ok_0;
    if goes_inside(comp, info) {
        law_instances_have_own_identities(
            rules,
            place_inside(rules.tree, place, comp, info, recorded.scope),
            info.class->0 as int,
            recorded.missing,
            recorded.overlay,
        );
        let after = component_walked(rules, place, comp, st)->Ok_0.overlay;
        let i = st.overlay.components.len() as int;
        assert(after.components[i] == recorded.overlay.components[i]);
        assert forall|k: int| 0 <= k < st.overlay.components.len() implies (
        #[trigger] after.components[k]) == st.overlay.components[k] by {
            assert(after.components[k] == recorded.overlay.components[k]);
        }
    }
}

/// Walking elements leaves the components that were there as they were.
pub proof fn lemma_elements(
    rules: WalkRules,
    place: Place,
    comp: ComponentView,
    n: int,
    st: WalkState,
)
    requires
        identities_apart(st.overlay),
        elements_walked(rules, place, comp, n, st) is Ok,
    ensures
        ({
            let after = elements_walked(rules, place, comp, n, st)->Ok_0.overlay;
            identities_apart(after) && keeps_components(st.overlay, after)
        }),
    decreases room(rules, place.path), 0int, n,
{
    if n > 0 && place.path.len() <= rules.depth_limit {
        lemma_elements(rules, place, comp, n - 1, st);
        let before = elements_walked(rules, place, comp, n - 1, st)->Ok_0;
        let subs = element_subscripts(comp.dims, n - 1);
        lemma_component(
            rules,
            place_at_element(place, comp.name, subs),
            element_component(comp, subs),
            before,
        );
        let after = elements_walked(rules, place, comp, n, st)->Ok_0.overlay;
        assert forall|k: int| 0 <= k < st.overlay.components.len() implies (
        #[trigger] after.components[k]) == st.overlay.components[k] by {
            assert(after.components[k] == before.overlay.components[k]);
        }
    }
}

/// Walking the components of a class leaves those that were there as they were.
pub proof fn lemma_components(rules: WalkRules, place: Place, class: int, n: int, st: WalkState)
    requires
        identities_apart(st.overlay),
        components_walked(rules, place, class, n, st) is Ok,
    ensures
        ({
            let after = components_walked(rules, place, class, n, st)->Ok_0.overlay;
            identities_apart(after) && keeps_components(st.overlay, after)
        }),
    decreases room(rules, place.path), 1int, n,
{
    if n > 0 && place.path.len() <= rules.depth_limit {
        lemma_components(rules, place, class, n - 1, st);
        let before = components_walked(rules, place, class, n - 1, st)->Ok_0;
        let comp = component_at(rules, place, class, n - 1);
        let path = place.path.push((comp.name, Seq::<i64>::empty()));
        if disabled_at(rules, place, class, n - 1) {
            assert forall|name: Seq<char>| #[trigger]
                named(before.overlay.disabled_components, name) implies named(
                with_named(before.overlay.disabled_components, path_text(path), true),
                name,
            ) by {
                lemma_with_named_keeps(
                    before.overlay.disabled_components,
                    path_text(path),
                    true,
                    name,
                );
            }
        } else {
            if is_structured_array(rules.tree, comp) {
                let noted = array_noted(before, path, comp.dims);
                assert(noted.overlay.disabled_components == before.overlay.disabled_components);
                lemma_elements(rules, place, comp, element_total(comp.dims), noted);
            } else {
                lemma_component(rules, Place { path, ..place }, comp, before);
            }
            let after = components_walked(rules, place, class, n, st)->Ok_0.overlay;
            assert forall|k: int| 0 <= k < st.overlay.components.len() implies (
            #[trigger] after.components[k]) == st.overlay.components[k] by {
                assert(after.components[k] == before.overlay.components[k]);
            }
        }
    }
}

/// A walk gives every component an identity of its own, and leaves the
/// components that were there as they were.
pub proof fn law_instances_have_own_identities(
    rules: WalkRules,
    place: Place,
    class: int,
    missing: Seq<MissingView>,
    overlay: OverlayView,
)
    requires
        identities_apart(overlay),
        class_walked(rules, place, class, missing, overlay) is Ok,
    ensures
        identities_apart(class_walked(rules, place, class, missing, overlay)->Ok_0.overlay),
        keeps_components(
            overlay,
            class_walked(rules, place, class, missing, overlay)->Ok_0.overlay,
        ),
    decreases room(rules, place.path), 2int, 0int,
{
    let def = rules.tree[class];
    let active = entered(place.active, def, place.path)->Ok_0;
    let start = WalkState { scope: Seq::empty(), missing, overlay: identity_taken(overlay) };
    let inside = Place { active, ..place };
    let count = def.components.len() as int;
    lemma_components(rules, inside, class, count, start);
    assert(start.overlay.disabled_components == overlay.disabled_components);
    assert(class_walked(rules, place, class, missing, overlay)->Ok_0.overlay.disabled_components
        == components_walked(rules, inside, class, count, start)->Ok_0.overlay.disabled_components);
}

/// Every element of an array of structured components has an instance at a path
/// of its own: that of the array with the subscripts of the element.
pub proof fn law_arrays_have_their_elements(
    rules: WalkRules,
    place: Place,
    comp: ComponentView,
    n: int,
    st: WalkState,
    k: int,
)
    requires
        identities_apart(st.overlay),
        place.path.len() <= rules.depth_limit,
        elements_walked(rules, place, comp, n, st) is Ok,
        0 <= k < n,
    ensures
        ({
            let after = elements_walked(rules, place, comp, n, st)->Ok_0.overlay;
            let path = place.path.push((comp.name, element_subscripts(comp.dims, k)));
            exists|i: int|
                0 <= i < after.components.len() && (#[trigger] after.components[i]).1.qualified_name
                    == path
        }),
    decreases n,
{
    let before = elements_walked(rules, place, comp, n - 1, st)->Ok_0;
    let after = elements_walked(rules, place, comp, n, st)->Ok_0;
    let subs = element_subscripts(comp.dims, n - 1);
    let path = place.path.push((comp.name, element_subscripts(comp.dims, k)));
    lemma_elements(rules, place, comp, n - 1, st);
    lemma_component(
        rules,
        place_at_element(place, comp.name, subs),
        element_component(comp, subs),
        before,
    );
    if k == n - 1 {
        let i = before.overlay.components.len() as int;
        assert(after.overlay.components[i].1.qualified_name == path);
    } else {
        law_arrays_have_their_elements(rules, place, comp, n - 1, st, k);
        let i = choose|i: int|
            0 <= i < before.overlay.components.len() && (
            #[trigger] before.overlay.components[i]).1.qualified_name == path;
        assert(after.overlay.components[i] == before.overlay.components[i]);
    }
}

/// The dimensions of an array of structured components are found under its path.
pub proof fn law_array_dimensions_are_noted(st: WalkState, path: Seq<PartView>, dims: Seq<i64>)
    requires
        distinct_names(st.overlay.array_parent_dims),
    ensures
        value_of_name(array_noted(st, path, dims).overlay.array_parent_dims, path_text(path))
            == Some(dims),
{
    lemma_with_named_values(
        st.overlay.array_parent_dims,
        path_text(path),
        dims,
        path_text(path),
    );
}

/// A class that is inside itself is refused.
pub proof fn law_cycles_are_refused(
    rules: WalkRules,
    place: Place,
    class: int,
    missing: Seq<MissingView>,
    overlay: OverlayView,
    i: int,
)
    requires
        rules.tree[class].def_id is Some,
        0 <= i < place.active.len(),
        place.active[i].key == rules.tree[class].def_id->0,
    ensures
        class_walked(rules, place, class, missing, overlay) is Err,
{
    lemma_active_is_found(place.active, place.active[i].key, i, place.active.len() as int);
}

proof fn lemma_active_is_found(
    list: Seq<ActiveView>,
    key: DefId,
    i: int,
    n: int,
)
    requires
        0 <= i < n <= list.len(),
        list[i].key == key,
    ensures
        active_at(list, key, n) is Some,
    decreases n,
{
    if i < n - 1 {
        lemma_active_is_found(list, key, i, n - 1);
    }
}

/// A class deeper than allowed is refused.
pub proof fn law_depth_is_limited(
    rules: WalkRules,
    place: Place,
    class: int,
    missing: Seq<MissingView>,
    overlay: OverlayView,
)
    requires
        place.path.len() > rules.depth_limit,
    ensures
        class_walked(rules, place, class, missing, overlay) is Err,
        class_walked(rules, place, class, missing, overlay)->Err_0 is DepthLimit,
{
}

/// An unknown model is refused, and only an unknown one for that reason.
pub proof fn law_unknown_model_is_refused(
    tree: Seq<ClassView>,
    name: Seq<char>,
    depth_limit: usize,
    mods: Seq<Entry<ModificationView>>,
)
    requires
        class_named(tree, name) is None,
    ensures
        outcome_of(tree, name, depth_limit, mods) == OutcomeView::Error(
            InstantiateErrorView::ModelNotFound { name },
        ),
{
}

} // verus!
