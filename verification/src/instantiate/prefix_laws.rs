//! Which prefixes an instance has, by the declarations that lead to it.
//!
//! An instance stands at the end of a chain of components: one of the model, one of the
//! class of that one, and so on. What it is follows from what these declare.
use crate::instantiate::array::{
    element_component, element_subscripts, element_total, is_structured_array,
};
use crate::instantiate::context::{
    any_expandable, any_flow, any_protected, any_stream, entered, last_causality,
    last_overconstrained, last_variability, root_frame, FrameView, InnerView, InstantiateOptions,
    MissingView,
};
use crate::instantiate::laws::{
    identities_apart, law_instances_have_own_identities, lemma_component, lemma_components,
    lemma_elements, lemma_recorded,
};
use crate::instantiate::model::{
    law_made_up_names_were_missing, made_up, model_rules, ordered_names, outcome_with,
    root_overlay, root_place, seeded, synthetic_inner,
};
use crate::instantiate::outer::WalkState;
use crate::instantiate::tree::{class_named, type_info, ClassView, ComponentView};
use crate::instantiate::walk::{
    array_noted, class_walked, component_at, component_recorded, component_walked,
    components_walked, disabled_at, elements_walked, goes_inside, identity_taken,
    place_at_element, place_inside, room, Place, WalkRules,
};
use crate::ir::instance::{Causality, InstanceView, OverlayView, Variability};
use crate::ir::modification::ModificationView;
use crate::ir::name::{path_text, PartView};
use crate::ir::name_map::with_named;
use crate::ir::path_map::Entry;
use vstd::prelude::*;

verus! {

/// The class of a component, where its type is one.
pub open spec fn class_of(tree: Seq<ClassView>, comp: ComponentView) -> Option<ClassView> {
    match type_info(tree, comp) {
        Some(info) => match info.class {
            Some(i) => Some(tree[i as int]),
            None => None,
        },
        None => None,
    }
}

/// The direction at the end of a chain: what the last component declares, else the
/// direction of what is around it, else that of its class.
pub open spec fn direction(tree: Seq<ClassView>, chain: Seq<ComponentView>) -> Causality
    decreases chain.len(),
{
    if chain.len() == 0 {
        Causality::Empty
    } else if !(chain.last().causality is Empty) {
        chain.last().causality
    } else if !(direction(tree, chain.drop_last()) is Empty) {
        direction(tree, chain.drop_last())
    } else {
        match class_of(tree, chain.last()) {
            Some(class) => class.causality,
            None => Causality::Empty,
        }
    }
}

/// The variability at the end of a chain: what the last component declares, else what the
/// nearest parameter or constant around it hands on.
pub open spec fn constancy(chain: Seq<ComponentView>) -> Variability
    decreases chain.len(), 0int,
{
    if chain.len() == 0 {
        Variability::Empty
    } else if !(chain.last().variability is Empty) {
        chain.last().variability
    } else {
        match handed_down(chain.drop_last()) {
            Some(v) => v,
            None => Variability::Empty,
        }
    }
}

/// The variability of the nearest parameter or constant in a chain, from its end on.
pub open spec fn handed_down(chain: Seq<ComponentView>) -> Option<Variability>
    decreases chain.len(), 1int,
{
    if chain.len() == 0 {
        None
    } else if constancy(chain) is Parameter || constancy(chain) is Constant {
        Some(constancy(chain))
    } else {
        handed_down(chain.drop_last())
    }
}

/// Whether something in a chain is declared with `flow`.
pub open spec fn flows(chain: Seq<ComponentView>) -> bool {
    exists|k: int| 0 <= k < chain.len() && (#[trigger] chain[k]).flow
}

/// Whether something in a chain is declared with `stream`.
pub open spec fn streams(chain: Seq<ComponentView>) -> bool {
    exists|k: int| 0 <= k < chain.len() && (#[trigger] chain[k]).stream
}

/// Whether something in a chain is declared as protected.
pub open spec fn hidden(chain: Seq<ComponentView>) -> bool {
    exists|k: int| 0 <= k < chain.len() && (#[trigger] chain[k]).is_protected
}

/// Whether the class of something in a chain is expandable.
pub open spec fn expands(tree: Seq<ClassView>, chain: Seq<ComponentView>) -> bool {
    exists|k: int|
        0 <= k < chain.len() && (class_of(tree, #[trigger] chain[k]) matches Some(class)
            && class.expandable)
}

/// Size and path of the innermost record in a chain whose class has an equality
/// constraint.
pub open spec fn constrained(
    tree: Seq<ClassView>,
    chain: Seq<ComponentView>,
    path: Seq<PartView>,
) -> Option<(usize, Seq<char>)>
    decreases chain.len(),
{
    if chain.len() == 0 {
        None
    } else {
        match class_of(tree, chain.last()) {
            Some(class) => match class.eq_constraint_size {
                Some(size) => Some((size, path_text(path))),
                None => constrained(tree, chain.drop_last(), path.drop_last()),
            },
            None => constrained(tree, chain.drop_last(), path.drop_last()),
        }
    }
}

/// Whether a component is declared like this. Its type is the declared one, unless a
/// component around replaces the class that the declaration names.
pub open spec fn is_declaration_of(declared: ComponentView, comp: ComponentView) -> bool {
    &&& comp.name == declared.name
    &&& comp.causality == declared.causality
    &&& comp.variability == declared.variability
    &&& comp.flow == declared.flow
    &&& comp.stream == declared.stream
    &&& comp.inner == declared.inner
    &&& comp.outer == declared.outer
    &&& comp.is_final == declared.is_final
    &&& comp.is_protected == declared.is_protected
    &&& comp.description == declared.description
    &&& comp.span == declared.span
    &&& comp.annotations == declared.annotations
    &&& declared.type_def_id is None ==> comp.type_text == declared.type_text && comp.type_def_id
        is None
}

/// Whether a class declares a component.
pub open spec fn declares(class: ClassView, comp: ComponentView) -> bool {
    exists|j: int|
        0 <= j < class.components.len() && is_declaration_of(
            #[trigger] class.components[j],
            comp,
        )
}

/// Whether a component has no prefix but `inner`.
pub open spec fn is_bare_inner(comp: ComponentView) -> bool {
    &&& comp.inner
    &&& !comp.outer
    &&& comp.causality is Empty
    &&& comp.variability is Empty
    &&& !comp.flow
    &&& !comp.stream
    &&& !comp.is_protected
    &&& !comp.is_final
}

/// Whether component `k` of a chain is declared by the class of the one before it.
pub open spec fn goes_on(tree: Seq<ClassView>, chain: Seq<ComponentView>, k: int) -> bool {
    class_of(tree, chain[k - 1]) matches Some(class) && declares(class, chain[k])
}

/// Whether a chain leads from a model to a path: it starts with a component of the model,
/// or with an inner component that was made up, goes on with components of the classes
/// of those before, and has the names of the path.
#[verifier::opaque]
pub open spec fn leads_to(
    tree: Seq<ClassView>,
    model: ClassView,
    made: Seq<Seq<char>>,
    chain: Seq<ComponentView>,
    path: Seq<PartView>,
) -> bool {
    &&& chain.len() == path.len()
    &&& forall|k: int| 0 <= k < chain.len() ==> (#[trigger] chain[k]).name == path[k].0
    &&& chain.len() > 0 ==> declares(model, chain[0]) || (is_bare_inner(chain[0])
        && made.contains(chain[0].name))
    &&& forall|k: int| 1 <= k < chain.len() ==> #[trigger] goes_on(tree, chain, k)
}

/// Whether an instance has the prefixes that a chain gives it.
pub open spec fn has_prefixes(
    tree: Seq<ClassView>,
    chain: Seq<ComponentView>,
    data: InstanceView,
) -> bool {
    let around = chain.drop_last();
    let path = data.qualified_name;
    let constraint = constrained(tree, around, path.drop_last());
    &&& data.type_text == chain.last().type_text
    &&& data.causality == direction(tree, chain)
    &&& data.variability == constancy(chain)
    &&& data.flow == flows(chain)
    &&& data.stream == streams(chain)
    &&& data.is_protected == hidden(chain)
    &&& data.is_final == chain.last().is_final
    &&& data.description == chain.last().description
    &&& data.source_span == chain.last().span
    &&& data.from_expandable_connector == expands(tree, around)
    &&& data.is_connector_type == (class_of(tree, chain.last()) matches Some(class)
        && class.class_type is Connector)
    &&& data.is_overconstrained == (constraint is Some)
    &&& constraint matches Some(c) ==> data.oc_eq_constraint_size == Some(c.0)
        && data.oc_record_path == Some(c.1)
    &&& constraint is None ==> data.oc_eq_constraint_size is None && data.oc_record_path is None
}

/// Whether an instance stands at the end of a chain that leads to it and has the prefixes
/// that the chain gives it.
pub open spec fn is_explained(
    tree: Seq<ClassView>,
    model: ClassView,
    made: Seq<Seq<char>>,
    data: InstanceView,
) -> bool {
    exists|chain: Seq<ComponentView>| #[trigger]
        leads_to(tree, model, made, chain, data.qualified_name) && chain.len() > 0
            && has_prefixes(tree, chain, data)
}

/// Whether every component from a position on is explained.
pub open spec fn all_explained(
    tree: Seq<ClassView>,
    model: ClassView,
    made: Seq<Seq<char>>,
    overlay: OverlayView,
    from: int,
) -> bool {
    forall|i: int|
        from <= i < overlay.components.len() ==> is_explained(
            tree,
            model,
            made,
            (#[trigger] overlay.components[i]).1,
        )
}

/// Whether frames hold what the components of a chain hand on.
spec fn framed(
    tree: Seq<ClassView>,
    chain: Seq<ComponentView>,
    path: Seq<PartView>,
    frames: Seq<FrameView>,
) -> bool
    decreases chain.len(),
{
    if chain.len() == 0 {
        frames == seq![root_frame()]
    } else {
        let frame = frames.last();
        &&& frames.len() > 0
        &&& framed(tree, chain.drop_last(), path.drop_last(), frames.drop_last())
        &&& class_of(tree, chain.last()) is Some
        &&& frame.flow == flows(chain)
        &&& frame.stream == streams(chain)
        &&& frame.protected == chain.last().is_protected
        &&& frame.expandable == class_of(tree, chain.last())->0.expandable
        &&& frame.causality == if direction(tree, chain) is Empty {
            None
        } else {
            Some(direction(tree, chain))
        }
        &&& frame.variability == if constancy(chain) is Parameter || constancy(chain) is Constant {
            Some(constancy(chain))
        } else {
            None
        }
        &&& frame.overconstrained == match class_of(tree, chain.last())->0.eq_constraint_size {
            Some(size) => Some((size, path_text(path))),
            None => None,
        }
    }
}

proof fn lemma_framed(
    tree: Seq<ClassView>,
    chain: Seq<ComponentView>,
    path: Seq<PartView>,
    frames: Seq<FrameView>,
)
    requires
        framed(tree, chain, path, frames),
    ensures
        any_flow(frames) == flows(chain),
        any_stream(frames) == streams(chain),
        any_protected(frames) == hidden(chain),
        any_expandable(frames) == expands(tree, chain),
        last_causality(frames) == (if direction(tree, chain) is Empty {
            None
        } else {
            Some(direction(tree, chain))
        }),
        last_variability(frames) == handed_down(chain),
        last_overconstrained(frames) == constrained(tree, chain, path),
    decreases chain.len(),
{
    if chain.len() == 0 {
        assert(frames.last() == root_frame());
        assert(frames.drop_last() =~= Seq::<FrameView>::empty());
        assert(!any_flow(frames) && !any_stream(frames) && !any_protected(frames)
            && !any_expandable(frames));
        assert(!flows(chain) && !streams(chain) && !hidden(chain) && !expands(tree, chain));
        reveal_with_fuel(last_causality, 2);
        reveal_with_fuel(last_variability, 2);
        reveal_with_fuel(last_overconstrained, 2);
    } else {
        let front = frames.drop_last();
        let outer = chain.drop_last();
        let n = chain.len() - 1;
        let last = chain.last();
        lemma_framed(tree, outer, path.drop_last(), front);
        lemma_frames_split(frames);
        lemma_chain_split(tree, chain);
        if direction(tree, chain) is Empty {
            assert(direction(tree, outer) is Empty);
        }
    }
}

/// What holds of some frame holds of the last one or of one before it.
proof fn lemma_frames_split(frames: Seq<FrameView>)
    requires
        frames.len() > 0,
    ensures
        any_flow(frames) == (any_flow(frames.drop_last()) || frames.last().flow),
        any_stream(frames) == (any_stream(frames.drop_last()) || frames.last().stream),
        any_protected(frames) == (any_protected(frames.drop_last()) || frames.last().protected),
        any_expandable(frames) == (any_expandable(frames.drop_last()) || frames.last().expandable),
{
    let front = frames.drop_last();
    let n = frames.len() - 1;
    assert(frames.last() == frames[n]);
    assert forall|i: int| 0 <= i < n implies front[i] == #[trigger] frames[i] by {}
    if any_flow(front) {
        let i = choose|i: int| 0 <= i < front.len() && (#[trigger] front[i]).flow;
        assert(frames[i].flow);
    }
    if any_flow(frames) {
        let i = choose|i: int| 0 <= i < frames.len() && (#[trigger] frames[i]).flow;
        assert(i == n || front[i].flow);
    }
    if any_stream(front) {
        let i = choose|i: int| 0 <= i < front.len() && (#[trigger] front[i]).stream;
        assert(frames[i].stream);
    }
    if any_stream(frames) {
        let i = choose|i: int| 0 <= i < frames.len() && (#[trigger] frames[i]).stream;
        assert(i == n || front[i].stream);
    }
    if any_protected(front) {
        let i = choose|i: int| 0 <= i < front.len() && (#[trigger] front[i]).protected;
        assert(frames[i].protected);
    }
    if any_protected(frames) {
        let i = choose|i: int| 0 <= i < frames.len() && (#[trigger] frames[i]).protected;
        assert(i == n || front[i].protected);
    }
    if any_expandable(front) {
        let i = choose|i: int| 0 <= i < front.len() && (#[trigger] front[i]).expandable;
        assert(frames[i].expandable);
    }
    if any_expandable(frames) {
        let i = choose|i: int| 0 <= i < frames.len() && (#[trigger] frames[i]).expandable;
        assert(i == n || front[i].expandable);
    }
}

/// What holds of some component of a chain holds of the last one or of one before it.
proof fn lemma_chain_split(tree: Seq<ClassView>, chain: Seq<ComponentView>)
    requires
        chain.len() > 0,
    ensures
        flows(chain) == (flows(chain.drop_last()) || chain.last().flow),
        streams(chain) == (streams(chain.drop_last()) || chain.last().stream),
        hidden(chain) == (hidden(chain.drop_last()) || chain.last().is_protected),
        expands(tree, chain) == (expands(tree, chain.drop_last()) || (class_of(
            tree,
            chain.last(),
        ) matches Some(class) && class.expandable)),
{
    let front = chain.drop_last();
    let n = chain.len() - 1;
    assert(chain.last() == chain[n]);
    assert forall|i: int| 0 <= i < n implies front[i] == #[trigger] chain[i] by {}
    if flows(front) {
        let i = choose|i: int| 0 <= i < front.len() && (#[trigger] front[i]).flow;
        assert(chain[i].flow);
    }
    if flows(chain) {
        let i = choose|i: int| 0 <= i < chain.len() && (#[trigger] chain[i]).flow;
        assert(i == n || front[i].flow);
    }
    if streams(front) {
        let i = choose|i: int| 0 <= i < front.len() && (#[trigger] front[i]).stream;
        assert(chain[i].stream);
    }
    if streams(chain) {
        let i = choose|i: int| 0 <= i < chain.len() && (#[trigger] chain[i]).stream;
        assert(i == n || front[i].stream);
    }
    if hidden(front) {
        let i = choose|i: int| 0 <= i < front.len() && (#[trigger] front[i]).is_protected;
        assert(chain[i].is_protected);
    }
    if hidden(chain) {
        let i = choose|i: int| 0 <= i < chain.len() && (#[trigger] chain[i]).is_protected;
        assert(i == n || front[i].is_protected);
    }
    if expands(tree, front) {
        let i = choose|i: int|
            0 <= i < front.len() && (class_of(tree, #[trigger] front[i]) matches Some(class)
                && class.expandable);
        assert(class_of(tree, chain[i]) is Some);
    }
    if expands(tree, chain) {
        let i = choose|i: int|
            0 <= i < chain.len() && (class_of(tree, #[trigger] chain[i]) matches Some(class)
                && class.expandable);
        assert(i == n || class_of(tree, front[i]) is Some);
    }
}

proof fn lemma_recorded_explained(
    rules: WalkRules,
    place: Place,
    comp: ComponentView,
    st: WalkState,
    model: ClassView,
    made: Seq<Seq<char>>,
    outer: Seq<ComponentView>,
)
    requires
        identities_apart(st.overlay),
        component_recorded(rules, place, comp, st) is Ok,
        place.path.len() > 0,
        leads_to(rules.tree, model, made, outer.push(comp), place.path),
        framed(rules.tree, outer, place.path.drop_last(), place.frames),
    ensures
        ({
            let after = component_recorded(rules, place, comp, st)->Ok_0.0.overlay;
            all_explained(rules.tree, model, made, after, st.overlay.components.len() as int)
        }),
{
    lemma_recorded(rules, place, comp, st);
    let tree = rules.tree;
    let after = component_recorded(rules, place, comp, st)->Ok_0.0.overlay;
    let chain = outer.push(comp);
    let data = after.components.last().1;
    assert(chain.drop_last() =~= outer);
    lemma_framed(tree, outer, place.path.drop_last(), place.frames);
    lemma_chain_split(tree, chain);
    assert(type_info(tree, comp) == Some(component_recorded(rules, place, comp, st)->Ok_0.1));
    assert(has_prefixes(tree, chain, data));
    assert(leads_to(tree, model, made, chain, data.qualified_name));
    assert(is_explained(tree, model, made, data));
    assert(after.components[after.components.len() - 1] == after.components.last());
}

proof fn lemma_component_explained(
    rules: WalkRules,
    place: Place,
    comp: ComponentView,
    st: WalkState,
    model: ClassView,
    made: Seq<Seq<char>>,
    outer: Seq<ComponentView>,
)
    requires
        identities_apart(st.overlay),
        component_walked(rules, place, comp, st) is Ok,
        place.path.len() > 0,
        leads_to(rules.tree, model, made, outer.push(comp), place.path),
        framed(rules.tree, outer, place.path.drop_last(), place.frames),
    ensures
        ({
            let after = component_walked(rules, place, comp, st)->Ok_0.overlay;
            all_explained(rules.tree, model, made, after, st.overlay.components.len() as int)
        }),
    decreases room(rules, place.path), 3int, 0int,
{
    let tree = rules.tree;
    lemma_recorded(rules, place, comp, st);
    lemma_recorded_explained(rules, place, comp, st, model, made, outer);
    let (recorded, info) = component_recorded(rules, place, comp, st)->Ok_0;
    if goes_inside(comp, info) {
        let inside = place_inside(tree, place, comp, info, recorded.scope);
        let class = info.class->0 as int;
        let chain = outer.push(comp);
        assert(chain.drop_last() =~= outer);
        assert(inside.frames.drop_last() =~= place.frames);
        lemma_framed(tree, outer, place.path.drop_last(), place.frames);
        lemma_chain_split(tree, chain);
        assert(type_info(tree, comp) == Some(info));
        assert(class_of(tree, comp) == Some(tree[class]));
        assert(framed(tree, chain, place.path, inside.frames));
        lemma_class_explained(
            rules,
            inside,
            class,
            recorded.missing,
            recorded.overlay,
            model,
            made,
            chain,
        );
        law_instances_have_own_identities(
            rules,
            inside,
            class,
            recorded.missing,
            recorded.overlay,
        );
        let after = component_walked(rules, place, comp, st)->Ok_0.overlay;
        let middle = recorded.overlay.components.len() as int;
        assert forall|i: int|
            st.overlay.components.len() <= i < after.components.len() implies is_explained(
            tree,
            model,
            made,
            (#[trigger] after.components[i]).1,
        ) by {
            if i < middle {
                assert(after.components[i] == recorded.overlay.components[i]);
            }
        }
    }
}

/// A chain goes on with a component of the class of its last one.
proof fn lemma_leads_on(
    tree: Seq<ClassView>,
    model: ClassView,
    made: Seq<Seq<char>>,
    outer: Seq<ComponentView>,
    path: Seq<PartView>,
    class: ClassView,
    comp: ComponentView,
    subs: Seq<i64>,
)
    requires
        leads_to(tree, model, made, outer, path),
        outer.len() == 0 ==> class == model,
        outer.len() > 0 ==> class_of(tree, outer.last()) == Some(class),
        declares(class, comp),
    ensures
        leads_to(tree, model, made, outer.push(comp), path.push((comp.name, subs))),
{
    reveal(leads_to);
    let chain = outer.push(comp);
    let to = path.push((comp.name, subs));
    assert forall|k: int| 0 <= k < chain.len() implies (#[trigger] chain[k]).name == to[k].0 by {
        if k < outer.len() {
            assert(chain[k] == outer[k]);
        }
    }
    assert forall|k: int| 1 <= k < chain.len() implies #[trigger] goes_on(tree, chain, k) by {
        if k < outer.len() {
            assert(goes_on(tree, outer, k));
            assert(chain[k] == outer[k] && chain[k - 1] == outer[k - 1]);
        } else {
            assert(chain[k - 1] == outer.last());
        }
    }
    if outer.len() > 0 {
        assert(chain[0] == outer[0]);
    }
}

proof fn lemma_elements_explained(
    rules: WalkRules,
    place: Place,
    comp: ComponentView,
    n: int,
    st: WalkState,
    model: ClassView,
    made: Seq<Seq<char>>,
    outer: Seq<ComponentView>,
    class: ClassView,
)
    requires
        identities_apart(st.overlay),
        elements_walked(rules, place, comp, n, st) is Ok,
        leads_to(rules.tree, model, made, outer, place.path),
        framed(rules.tree, outer, place.path, place.frames),
        outer.len() == 0 ==> class == model,
        outer.len() > 0 ==> class_of(rules.tree, outer.last()) == Some(class),
        declares(class, comp),
    ensures
        ({
            let after = elements_walked(rules, place, comp, n, st)->Ok_0.overlay;
            all_explained(rules.tree, model, made, after, st.overlay.components.len() as int)
        }),
    decreases room(rules, place.path), 0int, n,
{
    if n > 0 && place.path.len() <= rules.depth_limit {
        lemma_elements_explained(rules, place, comp, n - 1, st, model, made, outer, class);
        lemma_elements(rules, place, comp, n - 1, st);
        let before = elements_walked(rules, place, comp, n - 1, st)->Ok_0;
        let subs = element_subscripts(comp.dims, n - 1);
        let at = place_at_element(place, comp.name, subs);
        let element = element_component(comp, subs);
        let j = choose|j: int|
            0 <= j < class.components.len() && is_declaration_of(
                #[trigger] class.components[j],
                comp,
            );
        assert(is_declaration_of(class.components[j], element));
        assert(declares(class, element));
        lemma_leads_on(rules.tree, model, made, outer, place.path, class, element, subs);
        assert(at.path.drop_last() =~= place.path);
        lemma_component_explained(rules, at, element, before, model, made, outer);
        lemma_component(rules, at, element, before);
        let after = elements_walked(rules, place, comp, n, st)->Ok_0.overlay;
        let middle = before.overlay.components.len() as int;
        assert forall|i: int|
            st.overlay.components.len() <= i < after.components.len() implies is_explained(
            rules.tree,
            model,
            made,
            (#[trigger] after.components[i]).1,
        ) by {
            if i < middle {
                assert(after.components[i] == before.overlay.components[i]);
            }
        }
    }
}

proof fn lemma_components_explained(
    rules: WalkRules,
    place: Place,
    class: int,
    n: int,
    st: WalkState,
    model: ClassView,
    made: Seq<Seq<char>>,
    outer: Seq<ComponentView>,
)
    requires
        n <= rules.tree[class].components.len(),
        identities_apart(st.overlay),
        components_walked(rules, place, class, n, st) is Ok,
        leads_to(rules.tree, model, made, outer, place.path),
        framed(rules.tree, outer, place.path, place.frames),
        outer.len() == 0 ==> rules.tree[class] == model,
        outer.len() > 0 ==> class_of(rules.tree, outer.last()) == Some(rules.tree[class]),
    ensures
        ({
            let after = components_walked(rules, place, class, n, st)->Ok_0.overlay;
            all_explained(rules.tree, model, made, after, st.overlay.components.len() as int)
        }),
    decreases room(rules, place.path), 1int, n,
{
    if n > 0 && place.path.len() <= rules.depth_limit {
        lemma_components_explained(rules, place, class, n - 1, st, model, made, outer);
        lemma_components(rules, place, class, n - 1, st);
        let before = components_walked(rules, place, class, n - 1, st)->Ok_0;
        let comp = component_at(rules, place, class, n - 1);
        let def = rules.tree[class];
        assert(is_declaration_of(def.components[n - 1], comp));
        assert(declares(def, comp));
        let path = place.path.push((comp.name, Seq::<i64>::empty()));
        if !disabled_at(rules, place, class, n - 1) {
            if is_structured_array(rules.tree, comp) {
                let noted = array_noted(before, path, comp.dims);
                let total = element_total(comp.dims);
                lemma_elements_explained(
                    rules,
                    place,
                    comp,
                    total,
                    noted,
                    model,
                    made,
                    outer,
                    def,
                );
                lemma_elements(rules, place, comp, total, noted);
            } else {
                let at = Place { path, ..place };
                lemma_leads_on(
                    rules.tree,
                    model,
                    made,
                    outer,
                    place.path,
                    def,
                    comp,
                    Seq::<i64>::empty(),
                );
                assert(path.drop_last() =~= place.path);
                lemma_component_explained(rules, at, comp, before, model, made, outer);
                lemma_component(rules, at, comp, before);
            }
            let after = components_walked(rules, place, class, n, st)->Ok_0.overlay;
            let middle = before.overlay.components.len() as int;
            assert forall|i: int|
                st.overlay.components.len() <= i < after.components.len() implies is_explained(
                rules.tree,
                model,
                made,
                (#[trigger] after.components[i]).1,
            ) by {
                if i < middle {
                    assert(after.components[i] == before.overlay.components[i]);
                }
            }
        }
    }
}

proof fn lemma_class_explained(
    rules: WalkRules,
    place: Place,
    class: int,
    missing: Seq<MissingView>,
    overlay: OverlayView,
    model: ClassView,
    made: Seq<Seq<char>>,
    outer: Seq<ComponentView>,
)
    requires
        identities_apart(overlay),
        class_walked(rules, place, class, missing, overlay) is Ok,
        leads_to(rules.tree, model, made, outer, place.path),
        framed(rules.tree, outer, place.path, place.frames),
        outer.len() == 0 ==> rules.tree[class] == model,
        outer.len() > 0 ==> class_of(rules.tree, outer.last()) == Some(rules.tree[class]),
    ensures
        all_explained(
            rules.tree,
            model,
            made,
            class_walked(rules, place, class, missing, overlay)->Ok_0.overlay,
            overlay.components.len() as int,
        ),
    decreases room(rules, place.path), 2int, 0int,
{
    let def = rules.tree[class];
    let active = entered(place.active, def, place.path)->Ok_0;
    let start = WalkState { scope: Seq::empty(), missing, overlay: identity_taken(overlay) };
    lemma_components_explained(
        rules,
        Place { active, ..place },
        class,
        def.components.len() as int,
        start,
        model,
        made,
        outer,
    );
}

proof fn lemma_made_up_explained(
    rules: WalkRules,
    mods: Seq<Entry<ModificationView>>,
    missing: Seq<MissingView>,
    n: int,
    st: WalkState,
    model: ClassView,
    made: Seq<Seq<char>>,
)
    requires
        0 <= n <= missing.len(),
        forall|k: int| 0 <= k < missing.len() ==> made.contains((#[trigger] missing[k]).name),
        identities_apart(st.overlay),
        all_explained(rules.tree, model, made, st.overlay, 0),
        made_up(rules, mods, missing, n, st) is Ok,
    ensures
        identities_apart(made_up(rules, mods, missing, n, st)->Ok_0.overlay),
        all_explained(
            rules.tree,
            model,
            made,
            made_up(rules, mods, missing, n, st)->Ok_0.overlay,
            0,
        ),
    decreases n,
{
    if n > 0 {
        lemma_made_up_explained(rules, mods, missing, n - 1, st, model, made);
        let before = made_up(rules, mods, missing, n - 1, st)->Ok_0;
        let after = made_up(rules, mods, missing, n, st)->Ok_0;
        let mi = missing[n - 1];
        if class_named(rules.tree, mi.type_text) is Some {
            let class = class_named(rules.tree, mi.type_text)->0;
            let path = seq![(mi.name, Seq::<i64>::empty())];
            let noted = WalkState {
                scope: with_named(
                    before.scope,
                    mi.name,
                    InnerView {
                        qualified_name: path,
                        type_text: mi.type_text,
                        type_def_id: mi.type_def_id,
                    },
                ),
                ..before
            };
            let place = Place {
                path,
                mods,
                outer_scopes: Seq::empty(),
                frames: seq![root_frame()],
                active: Seq::empty(),
            };
            let comp = synthetic_inner(mi, rules.tree[class].def_id, mi.span);
            let none = Seq::<ComponentView>::empty();
            assert(none.push(comp)[0] == comp);
            assert(leads_to(rules.tree, model, made, none.push(comp), path)) by {
                reveal(leads_to);
            }
            assert(framed(rules.tree, none, path.drop_last(), place.frames));
            lemma_component_explained(rules, place, comp, noted, model, made, none);
            lemma_component(rules, place, comp, noted);
            assert forall|i: int| 0 <= i < after.overlay.components.len() implies is_explained(
                rules.tree,
                model,
                made,
                (#[trigger] after.overlay.components[i]).1,
            ) by {
                if i < before.overlay.components.len() {
                    assert(after.overlay.components[i] == before.overlay.components[i]);
                }
            }
        }
    }
}

/// Every instance of a model stands at the end of a chain of declarations that leads to
/// it from the model, and has the prefixes that these give it: its direction is its own,
/// else that of what is around it, else that of its class; it is a parameter or a
/// constant where it says so or where the nearest around it is one; and it is a flow, a
/// stream, protected or inside an expandable connector where anything on the way is.
pub proof fn law_instances_have_the_prefixes_of_their_declarations(
    tree: Seq<ClassView>,
    model_name: Seq<char>,
    options: InstantiateOptions,
    i: int,
)
    requires
        outcome_with(tree, model_name, options) is Success,
        0 <= i < outcome_with(tree, model_name, options)->Success_0.components.len(),
    ensures
        ({
            let overlay = outcome_with(tree, model_name, options)->Success_0;
            is_explained(
                tree,
                tree[class_named(tree, model_name)->0],
                overlay.synthesized_inners,
                overlay.components[i].1,
            )
        }),
{
    let overlay = outcome_with(tree, model_name, options)->Success_0;
    let made = overlay.synthesized_inners;
    let mods = seeded(options);
    let model = class_named(tree, model_name)->0;
    let def = tree[model];
    let rules = model_rules(tree, def, options.depth_limit);
    let none = Seq::<ComponentView>::empty();
    let place = root_place(Seq::empty(), mods);
    let start = root_overlay(def);
    assert(leads_to(tree, def, made, none, place.path)) by {
        reveal(leads_to);
    }
    assert(framed(tree, none, place.path, place.frames));
    let first = class_walked(rules, place, model, Seq::empty(), start)->Ok_0;
    lemma_class_explained(rules, place, model, Seq::empty(), start, def, made, none);
    if first.missing.len() > 0 {
        let missing = first.missing;
        let n = missing.len() as int;
        assert(made == ordered_names(missing, n));
        assert forall|k: int| 0 <= k < missing.len() implies made.contains(
            (#[trigger] missing[k]).name,
        ) by {
            law_made_up_names_were_missing(missing, n, missing[k].name);
        }
        let begin = WalkState { scope: Seq::empty(), missing: Seq::empty(), overlay: start };
        lemma_made_up_explained(rules, mods, missing, n, begin, def, made);
        let st = made_up(rules, mods, missing, n, begin)->Ok_0;
        let again = root_place(st.scope, mods);
        lemma_class_explained(rules, again, model, st.missing, st.overlay, def, made, none);
        law_instances_have_own_identities(rules, again, model, st.missing, st.overlay);
        let after = class_walked(rules, again, model, st.missing, st.overlay)->Ok_0.overlay;
        if i < st.overlay.components.len() {
            assert(after.components[i] == st.overlay.components[i]);
        }
        assert(overlay.components[i] == after.components[i]);
    }
}

/// An instance of the model itself that says nothing of its direction has the direction of
/// its class, and one that says something has what it says.
pub proof fn law_connectors_give_their_direction(tree: Seq<ClassView>, comp: ComponentView)
    ensures
        comp.causality is Empty ==> direction(tree, seq![comp]) == match class_of(tree, comp) {
            Some(class) => class.causality,
            None => Causality::Empty,
        },
        !(comp.causality is Empty) ==> direction(tree, seq![comp]) == comp.causality,
{
    reveal_with_fuel(direction, 2);
    assert(seq![comp].last() == comp);
}

/// What is inside a component that has a direction, and says nothing of its own, has that
/// direction.
pub proof fn law_directions_are_handed_on(
    tree: Seq<ClassView>,
    outer: Seq<ComponentView>,
    comp: ComponentView,
)
    requires
        comp.causality is Empty,
        !(direction(tree, outer) is Empty),
    ensures
        direction(tree, outer.push(comp)) == direction(tree, outer),
{
    assert(outer.push(comp).drop_last() =~= outer);
}

} // verus!
