//! Which components of a class are there, and how many elements they have.
use crate::dae::const_eval::{const_value, ConstValue};
use crate::expr::tree::NodeView;
use crate::instantiate::array::{element_subscripts, element_total, is_structured_array};
use crate::instantiate::context::{entered, InstantiateOptions, MissingView};
use crate::instantiate::laws::{
    identities_apart, keeps_components, law_arrays_have_their_elements, lemma_component,
    lemma_components, lemma_elements,
};
use crate::instantiate::model::{
    made_up, model_rules, outcome_with, root_overlay, root_place, seeded,
};
use crate::instantiate::outer::WalkState;
use crate::instantiate::root_laws::{
    all_obeyed, law_modification_decides_condition, law_modification_decides_dimension,
    lemma_made_up_obey, lemma_root_mods_are_distinct, modified_size, said_in,
};
use crate::instantiate::structural::dotted_path;
use crate::instantiate::tree::{class_named, ClassView, ComponentView};
use crate::instantiate::walk::{
    array_noted, class_walked, component_at, components_walked, disabled_at, identity_taken, Place,
    WalkRules,
};
use crate::ir::instance::OverlayView;
use crate::ir::modification::modification_of;
use crate::ir::name::{path_text, PartView};
use crate::ir::name_map::{lemma_with_named_keeps, named};
use vstd::prelude::*;

verus! {

/// Whether there is an instance at a path.
pub open spec fn instance_at(overlay: OverlayView, path: Seq<PartView>) -> bool {
    exists|i: int|
        0 <= i < overlay.components.len() && (#[trigger] overlay.components[i]).1.qualified_name
            == path
}

/// Whether a component of a class at a place is where it should be: noted as left out
/// where its condition is false, there with all its elements where it is an array of
/// structured components, and there as one instance otherwise.
pub open spec fn accounted_for(
    rules: WalkRules,
    place: Place,
    class: int,
    i: int,
    overlay: OverlayView,
) -> bool {
    let comp = component_at(rules, place, class, i);
    let path = place.path.push((comp.name, Seq::<i64>::empty()));
    if disabled_at(rules, place, class, i) {
        named(overlay.disabled_components, path_text(path))
    } else if is_structured_array(rules.tree, comp) {
        forall|k: int|
            0 <= k < element_total(comp.dims) ==> instance_at(
                overlay,
                place.path.push((comp.name, #[trigger] element_subscripts(comp.dims, k))),
            )
    } else {
        instance_at(overlay, path)
    }
}

proof fn lemma_instance_stays(before: OverlayView, after: OverlayView, path: Seq<PartView>)
    requires
        keeps_components(before, after),
        instance_at(before, path),
    ensures
        instance_at(after, path),
{
    let i = choose|i: int|
        0 <= i < before.components.len() && (#[trigger] before.components[i]).1.qualified_name
            == path;
    assert(after.components[i] == before.components[i]);
}

proof fn lemma_stays_accounted_for(
    rules: WalkRules,
    place: Place,
    class: int,
    i: int,
    before: OverlayView,
    after: OverlayView,
)
    requires
        keeps_components(before, after),
        accounted_for(rules, place, class, i, before),
    ensures
        accounted_for(rules, place, class, i, after),
{
    let comp = component_at(rules, place, class, i);
    let path = place.path.push((comp.name, Seq::<i64>::empty()));
    if !disabled_at(rules, place, class, i) {
        if is_structured_array(rules.tree, comp) {
            assert forall|k: int| 0 <= k < element_total(comp.dims) implies instance_at(
                after,
                place.path.push((comp.name, #[trigger] element_subscripts(comp.dims, k))),
            ) by {
                lemma_instance_stays(
                    before,
                    after,
                    place.path.push((comp.name, element_subscripts(comp.dims, k))),
                );
            }
        } else {
            lemma_instance_stays(before, after, path);
        }
    }
}

proof fn lemma_components_accounted_for(
    rules: WalkRules,
    place: Place,
    class: int,
    n: int,
    st: WalkState,
    i: int,
)
    requires
        0 <= i < n,
        place.path.len() <= rules.depth_limit,
        identities_apart(st.overlay),
        components_walked(rules, place, class, n, st) is Ok,
    ensures
        accounted_for(
            rules,
            place,
            class,
            i,
            components_walked(rules, place, class, n, st)->Ok_0.overlay,
        ),
    decreases n,
{
    lemma_components(rules, place, class, n - 1, st);
    let before = components_walked(rules, place, class, n - 1, st)->Ok_0;
    let after = components_walked(rules, place, class, n, st)->Ok_0;
    let comp = component_at(rules, place, class, n - 1);
    let path = place.path.push((comp.name, Seq::<i64>::empty()));
    if disabled_at(rules, place, class, n - 1) {
        assert forall|name: Seq<char>| #[trigger]
            named(before.overlay.disabled_components, name) implies named(
            after.overlay.disabled_components,
            name,
        ) by {
            lemma_with_named_keeps(
                before.overlay.disabled_components,
                path_text(path),
                true,
                name,
            );
        }
        lemma_with_named_keeps(
            before.overlay.disabled_components,
            path_text(path),
            true,
            path_text(path),
        );
    } else if is_structured_array(rules.tree, comp) {
        let noted = array_noted(before, path, comp.dims);
        let total = element_total(comp.dims);
        assert(noted.overlay.disabled_components == before.overlay.disabled_components);
        lemma_elements(rules, place, comp, total, noted);
        assert forall|k: int| 0 <= k < total implies instance_at(
            after.overlay,
            place.path.push((comp.name, #[trigger] element_subscripts(comp.dims, k))),
        ) by {
            law_arrays_have_their_elements(rules, place, comp, total, noted, k);
        }
    } else {
        lemma_component(rules, Place { path, ..place }, comp, before);
        let added = before.overlay.components.len() as int;
        assert(after.overlay.components[added].1.qualified_name == path);
    }
    if i < n - 1 {
        lemma_components_accounted_for(rules, place, class, n - 1, st, i);
        assert(keeps_components(before.overlay, after.overlay));
        lemma_stays_accounted_for(rules, place, class, i, before.overlay, after.overlay);
    }
}

/// Of every class that is walked each component is there or noted as left out, as its
/// condition and its dimensions are at the place.
pub proof fn law_components_are_accounted_for(
    rules: WalkRules,
    place: Place,
    class: int,
    missing: Seq<MissingView>,
    overlay: OverlayView,
    i: int,
)
    requires
        identities_apart(overlay),
        class_walked(rules, place, class, missing, overlay) is Ok,
        0 <= i < rules.tree[class].components.len(),
    ensures
        accounted_for(
            rules,
            place,
            class,
            i,
            class_walked(rules, place, class, missing, overlay)->Ok_0.overlay,
        ),
{
    let def = rules.tree[class];
    let active = entered(place.active, def, place.path)->Ok_0;
    let start = WalkState { scope: Seq::empty(), missing, overlay: identity_taken(overlay) };
    let inside = Place { active, ..place };
    let count = def.components.len() as int;
    lemma_components_accounted_for(rules, inside, class, count, start, i);
    let st = components_walked(rules, inside, class, count, start)->Ok_0;
    let after = class_walked(rules, place, class, missing, overlay)->Ok_0.overlay;
    assert(keeps_components(st.overlay, after));
    lemma_stays_accounted_for(rules, inside, class, i, st.overlay, after);
    assert(component_at(rules, inside, class, i) == component_at(rules, place, class, i));
    assert(disabled_at(rules, inside, class, i) == disabled_at(rules, place, class, i));
}

/// A component of a model whose condition is a name that a modification of the root
/// makes false is noted as left out, and one that it makes true and that is no array of
/// structured components is there, whether the inner components of the model are
/// declared or made up.
pub proof fn law_root_modifications_decide_conditions(
    tree: Seq<ClassView>,
    model_name: Seq<char>,
    options: InstantiateOptions,
    i: int,
    name: Seq<char>,
    holds: bool,
)
    requires
        outcome_with(tree, model_name, options) is Success,
        0 <= i < tree[class_named(tree, model_name)->0].components.len(),
        ({
            let comp = tree[class_named(tree, model_name)->0].components[i];
            let said = modification_of(seeded(options), dotted_path(name));
            &&& comp.condition is Some
            &&& comp.condition->0.node == (NodeView::VarRef { name })
            &&& comp.condition->0.args.len() == 0
            &&& said is Some
            &&& const_value(said->0.value) == Some(ConstValue::Boolean(holds))
        }),
    ensures
        ({
            let overlay = outcome_with(tree, model_name, options)->Success_0;
            let comp = tree[class_named(tree, model_name)->0].components[i];
            let path = seq![(comp.name, Seq::<i64>::empty())];
            if holds {
                is_structured_array(tree, root_component(tree, model_name, options, i))
                    || instance_at(overlay, path)
            } else {
                named(overlay.disabled_components, path_text(path))
            }
        }),
{
    let mods = seeded(options);
    let model = class_named(tree, model_name)->0;
    let rules = model_rules(tree, tree[model], options.depth_limit);
    let place = root_place(Seq::empty(), mods);
    let comp = tree[model].components[i];
    lemma_root_accounted_for(tree, model_name, options, i);
    assert(said_in(mods, mods));
    assert(place.path + dotted_path(name) =~= dotted_path(name));
    law_modification_decides_condition(mods, rules, place, model, i, name, holds);
    assert(place.path.push((comp.name, Seq::<i64>::empty())) =~= seq![
        (comp.name, Seq::<i64>::empty()),
    ]);
}

/// A component of a model as it is under the modifications of the root.
pub open spec fn root_component(
    tree: Seq<ClassView>,
    model_name: Seq<char>,
    options: InstantiateOptions,
    i: int,
) -> ComponentView {
    let model = class_named(tree, model_name)->0;
    component_at(
        model_rules(tree, tree[model], options.depth_limit),
        root_place(Seq::empty(), seeded(options)),
        model,
        i,
    )
}

/// An array of structured components of a model, whose one dimension is a name that a
/// modification of the root gives a size, has an instance for each element of an array of
/// that size, whether the inner components of the model are declared or made up.
pub proof fn law_root_modifications_decide_elements(
    tree: Seq<ClassView>,
    model_name: Seq<char>,
    options: InstantiateOptions,
    i: int,
    size: i64,
    k: int,
)
    requires
        outcome_with(tree, model_name, options) is Success,
        0 <= i < tree[class_named(tree, model_name)->0].components.len(),
        tree[class_named(tree, model_name)->0].components[i].condition is None,
        is_structured_array(tree, root_component(tree, model_name, options, i)),
        modified_size(
            seeded(options),
            Seq::empty(),
            tree[class_named(tree, model_name)->0].components[i].dims_expr,
        ) == Some(size),
        0 <= k < element_total(seq![size]),
    ensures
        ({
            let comp = tree[class_named(tree, model_name)->0].components[i];
            instance_at(
                outcome_with(tree, model_name, options)->Success_0,
                seq![(comp.name, element_subscripts(seq![size], k))],
            )
        }),
{
    let mods = seeded(options);
    let model = class_named(tree, model_name)->0;
    let rules = model_rules(tree, tree[model], options.depth_limit);
    let place = root_place(Seq::empty(), mods);
    let comp = root_component(tree, model_name, options, i);
    lemma_root_accounted_for(tree, model_name, options, i);
    assert(said_in(mods, mods));
    law_modification_decides_dimension(mods, rules, place, model, i);
    assert(place.path =~= Seq::<PartView>::empty());
    assert(comp.dims == seq![size]);
    assert(place.path.push((comp.name, element_subscripts(comp.dims, k))) =~= seq![
        (comp.name, element_subscripts(seq![size], k)),
    ]);
}

/// A component of a model that has no condition and is no array is there, at its name.
pub proof fn law_plain_components_are_there(
    tree: Seq<ClassView>,
    model_name: Seq<char>,
    options: InstantiateOptions,
    i: int,
)
    requires
        outcome_with(tree, model_name, options) is Success,
        0 <= i < tree[class_named(tree, model_name)->0].components.len(),
        ({
            let comp = tree[class_named(tree, model_name)->0].components[i];
            comp.condition is None && comp.dims.len() == 0 && comp.dims_expr.len() == 0
        }),
    ensures
        instance_at(
            outcome_with(tree, model_name, options)->Success_0,
            seq![
                (
                    tree[class_named(tree, model_name)->0].components[i].name,
                    Seq::<i64>::empty(),
                ),
            ],
        ),
{
    lemma_root_accounted_for(tree, model_name, options, i);
    let model = class_named(tree, model_name)->0;
    let rules = model_rules(tree, tree[model], options.depth_limit);
    let place = root_place(Seq::empty(), seeded(options));
    let comp = component_at(rules, place, model, i);
    assert(comp.name == tree[model].components[i].name);
    assert(comp.dims.len() == 0);
    assert(place.path =~= Seq::<PartView>::empty());
    assert(place.path.push((comp.name, Seq::<i64>::empty())) =~= seq![
        (comp.name, Seq::<i64>::empty()),
    ]);
}

proof fn lemma_root_accounted_for(
    tree: Seq<ClassView>,
    model_name: Seq<char>,
    options: InstantiateOptions,
    i: int,
)
    requires
        outcome_with(tree, model_name, options) is Success,
        0 <= i < tree[class_named(tree, model_name)->0].components.len(),
    ensures
        ({
            let model = class_named(tree, model_name)->0;
            accounted_for(
                model_rules(tree, tree[model], options.depth_limit),
                root_place(Seq::empty(), seeded(options)),
                model,
                i,
                outcome_with(tree, model_name, options)->Success_0,
            )
        }),
{
    let mods = seeded(options);
    let model = class_named(tree, model_name)->0;
    let rules = model_rules(tree, tree[model], options.depth_limit);
    let place = root_place(Seq::empty(), mods);
    let overlay = root_overlay(tree[model]);
    lemma_root_mods_are_distinct(
        options.root_modifications@,
        options.root_modifications@.len() as int,
    );
    let first = class_walked(rules, place, model, Seq::empty(), overlay)->Ok_0;
    law_components_are_accounted_for(rules, place, model, Seq::empty(), overlay, i);
    if first.missing.len() > 0 {
        let start = WalkState { scope: Seq::empty(), missing: Seq::empty(), overlay };
        let n = first.missing.len() as int;
        assert(all_obeyed(mods, overlay, 0));
        lemma_made_up_obey(rules, mods, first.missing, n, start);
        let st = made_up(rules, mods, first.missing, n, start)->Ok_0;
        let again = root_place(st.scope, mods);
        law_components_are_accounted_for(rules, again, model, st.missing, st.overlay, i);
        assert(component_at(rules, again, model, i) == component_at(rules, place, model, i));
        assert(disabled_at(rules, again, model, i) == disabled_at(rules, place, model, i));
    }
}

} // verus!
