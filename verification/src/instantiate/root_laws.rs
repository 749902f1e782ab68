//! What the modifications of the root do, whatever the model is made of.
use crate::dae::const_eval::{const_value, ConstValue};
use crate::expr::tree::{ExprView, NodeView};
use crate::instantiate::array::{
    element_component, element_modification, element_subscripts, element_total,
    is_structured_array, lemma_element_comes_after, with_element,
};
use crate::instantiate::attributes::{attribute_path, selection_of, text_of, truth_of};
use crate::instantiate::context::{
    entered, root_frame, InnerView, InstantiateOptions, MissingView, ScopeView,
};
use crate::instantiate::evaluated::{law_modified_condition, law_modified_dimension, retyped};
use crate::instantiate::laws::{
    identities_apart, law_instances_have_own_identities, lemma_component, lemma_components,
    lemma_elements, lemma_recorded,
};
use crate::instantiate::model::{
    made_up, model_rules, outcome_with, retried, root_mods, root_overlay, root_place, seeded,
    synthetic_inner,
};
use crate::instantiate::nested::{
    is_at_or_inside, law_modification_around_wins, lemma_inside_is_distinct,
    lemma_with_modification_is_distinct,
};
use crate::instantiate::outer::WalkState;
use crate::instantiate::structural::dotted_path;
use crate::instantiate::tree::{class_named, ClassView, ComponentView, TypeInfo};
use crate::instantiate::walk::{
    array_noted, class_walked, component_at, component_recorded, component_walked,
    components_walked, disabled_at, elements_walked, eval_place, goes_inside, identity_taken,
    place_at_element, place_inside, room, Place, WalkRules,
};
use crate::ir::instance::{InstanceView, OverlayView};
use crate::ir::modification::{modification_of, ModificationValue, ModificationView};
use crate::ir::name::{PartView, QualifiedName};
use crate::ir::name_map::with_named;
use crate::ir::path_map::{distinct_keys, has_key, Entry};
use vstd::prelude::*;

verus! {

/// The size that a modification gives an array whose one dimension is a name, read in
/// the instance around it.
pub open spec fn modified_size(
    mods: Seq<Entry<ModificationView>>,
    around: Seq<PartView>,
    dims_expr: Seq<ExprView>,
) -> Option<i64> {
    if dims_expr.len() == 1 && dims_expr[0].node is VarRef && dims_expr[0].args.len() == 0 {
        match modification_of(mods, around + dotted_path(dims_expr[0].node->VarRef_name)) {
            Some(m) => match const_value(m.value) {
                Some(ConstValue::Integer(n)) => Some(n),
                _ => None,
            },
            None => None,
        }
    } else {
        None
    }
}

/// Whether an array has the size that a modification gives it.
pub open spec fn sized(
    mods: Seq<Entry<ModificationView>>,
    around: Seq<PartView>,
    dims_expr: Seq<ExprView>,
    dims: Seq<i64>,
) -> bool {
    modified_size(mods, around, dims_expr) matches Some(n) ==> dims == seq![n]
}

/// Whether an attribute is what a modification of it says.
pub open spec fn attribute_obeyed(
    mods: Seq<Entry<ModificationView>>,
    data: InstanceView,
    name: Seq<char>,
    value: Option<ExprView>,
) -> bool {
    modification_of(mods, attribute_path(data.qualified_name, name)) matches Some(m) ==> value
        == Some(m.value)
}

/// Whether a text attribute is what a modification of it says.
pub open spec fn text_obeyed(
    mods: Seq<Entry<ModificationView>>,
    data: InstanceView,
    name: Seq<char>,
    value: Option<Seq<char>>,
) -> bool {
    modification_of(mods, attribute_path(data.qualified_name, name)) matches Some(m) ==> text_of(
        m.value,
    ) is Some ==> value == text_of(m.value)
}

/// Whether the attributes of an instance are what modifications of them say.
pub open spec fn attributes_obeyed(
    mods: Seq<Entry<ModificationView>>,
    data: InstanceView,
) -> bool {
    &&& attribute_obeyed(mods, data, "start"@, data.start)
    &&& attribute_obeyed(mods, data, "min"@, data.min)
    &&& attribute_obeyed(mods, data, "max"@, data.max)
    &&& attribute_obeyed(mods, data, "nominal"@, data.nominal)
    &&& text_obeyed(mods, data, "quantity"@, data.quantity)
    &&& text_obeyed(mods, data, "unit"@, data.unit)
    &&& text_obeyed(mods, data, "displayUnit"@, data.display_unit)
    &&& modification_of(mods, attribute_path(data.qualified_name, "fixed"@)) matches Some(m)
        ==> data.fixed == truth_of(m.value)
    &&& modification_of(mods, attribute_path(data.qualified_name, "stateSelect"@)) matches Some(m)
        ==> data.state_select == selection_of(m.value)
}

/// Whether an instance has the value that a modification of it gives, the attributes
/// that modifications of them give, and the size that a modification of the name in its
/// dimension gives.
pub open spec fn obeyed(mods: Seq<Entry<ModificationView>>, data: InstanceView) -> bool {
    &&& modification_of(mods, data.qualified_name) matches Some(m) ==> data.binding == Some(m.value)
        && data.binding_from_modification
    &&& attributes_obeyed(mods, data)
    &&& sized(mods, data.qualified_name.drop_last(), data.dims_expr, data.dims)
}

/// Whether every component from a position on does what modifications say of it.
pub open spec fn all_obeyed(
    mods: Seq<Entry<ModificationView>>,
    overlay: OverlayView,
    from: int,
) -> bool {
    forall|i: int|
        from <= i < overlay.components.len() ==> obeyed(mods, (#[trigger] overlay.components[i]).1)
}

/// Whether what is said of a target is said of it among other modifications too.
pub open spec fn said_in(
    mods: Seq<Entry<ModificationView>>,
    all: Seq<Entry<ModificationView>>,
) -> bool {
    forall|target: Seq<PartView>| #[trigger]
        has_key(mods, target) ==> modification_of(all, target) == modification_of(mods, target)
}

proof fn lemma_obeyed_among_more(
    mods: Seq<Entry<ModificationView>>,
    all: Seq<Entry<ModificationView>>,
    overlay: OverlayView,
    from: int,
)
    requires
        said_in(mods, all),
        all_obeyed(all, overlay, from),
    ensures
        all_obeyed(mods, overlay, from),
{
    assert forall|i: int| from <= i < overlay.components.len() implies obeyed(
        mods,
        (#[trigger] overlay.components[i]).1,
    ) by {
        lemma_instance_obeys_among_more(mods, all, overlay.components[i].1);
    }
}

proof fn lemma_instance_obeys_among_more(
    mods: Seq<Entry<ModificationView>>,
    all: Seq<Entry<ModificationView>>,
    data: InstanceView,
)
    requires
        said_in(mods, all),
        obeyed(all, data),
    ensures
        obeyed(mods, data),
{
    lemma_said(mods, all, data.qualified_name);
    assert forall|name: Seq<char>|
        modification_of(mods, #[trigger] attribute_path(data.qualified_name, name))
            is Some implies modification_of(all, attribute_path(data.qualified_name, name))
        == modification_of(mods, attribute_path(data.qualified_name, name)) by {
        lemma_said(mods, all, attribute_path(data.qualified_name, name));
    }
    if modified_size(mods, data.qualified_name.drop_last(), data.dims_expr) is Some {
        lemma_said(
            mods,
            all,
            data.qualified_name.drop_last() + dotted_path(data.dims_expr[0].node->VarRef_name),
        );
    }
}

proof fn lemma_said(
    mods: Seq<Entry<ModificationView>>,
    all: Seq<Entry<ModificationView>>,
    target: Seq<PartView>,
)
    requires
        said_in(mods, all),
    ensures
        modification_of(mods, target) is Some ==> modification_of(all, target) == modification_of(
            mods,
            target,
        ),
{
    if modification_of(mods, target) is Some {
        assert(has_key(mods, target));
    }
}

/// What is said around a component is said of what is inside it.
pub proof fn law_modifications_reach_inside(
    tree: Seq<ClassView>,
    place: Place,
    comp: ComponentView,
    info: TypeInfo,
    scope: ScopeView,
)
    requires
        distinct_keys(place.mods),
    ensures
        said_in(place.mods, place_inside(tree, place, comp, info, scope).mods),
        distinct_keys(place_inside(tree, place, comp, info, scope).mods),
{
    let inside = place_inside(tree, place, comp, info, scope);
    let components = tree[info.class->0 as int].components;
    lemma_inside_is_distinct(place.mods, place.path, comp, components);
    assert forall|target: Seq<PartView>| #[trigger]
        has_key(place.mods, target) implies modification_of(inside.mods, target)
        == modification_of(place.mods, target) by {
        law_modification_around_wins(place.mods, place.path, comp, components, target);
    }
}

/// What is said around an array is said of what is inside its elements.
pub proof fn law_modifications_reach_elements(place: Place, name: Seq<char>, subs: Seq<i64>)
    requires
        distinct_keys(place.mods),
    ensures
        said_in(place.mods, place_at_element(place, name, subs).mods),
        distinct_keys(place_at_element(place, name, subs).mods),
{
    let at = place_at_element(place, name, subs);
    let array = place.path.push((name, Seq::<i64>::empty()));
    let count = place.mods.len() as int;
    lemma_element_is_distinct(place.mods, array, at.path, subs, count);
    lemma_element_comes_after(place.mods, array, at.path, subs, count);
    lemma_prefix_is_said(place.mods, at.mods);
}

/// Wherever a modification is said, a component whose condition is the name of what it
/// modifies is there or not as it says.
pub proof fn law_modification_decides_condition(
    mods: Seq<Entry<ModificationView>>,
    rules: WalkRules,
    place: Place,
    class: int,
    i: int,
    name: Seq<char>,
    holds: bool,
)
    requires
        said_in(mods, place.mods),
        rules.tree[class].components[i].condition is Some,
        rules.tree[class].components[i].condition->0.node == (NodeView::VarRef { name }),
        rules.tree[class].components[i].condition->0.args.len() == 0,
        modification_of(mods, place.path + dotted_path(name)) is Some,
        const_value(modification_of(mods, place.path + dotted_path(name))->0.value) == Some(
            ConstValue::Boolean(holds),
        ),
    ensures
        disabled_at(rules, place, class, i) == !holds,
{
    lemma_said(mods, place.mods, place.path + dotted_path(name));
    law_modified_condition(
        rules.tree[class].components[i],
        eval_place(rules, place, class),
        name,
        holds,
    );
}

/// Wherever a modification is said, an array whose one dimension is the name of what it
/// modifies has the size that it says.
pub proof fn law_modification_decides_dimension(
    mods: Seq<Entry<ModificationView>>,
    rules: WalkRules,
    place: Place,
    class: int,
    i: int,
)
    requires
        said_in(mods, place.mods),
    ensures
        sized(
            mods,
            place.path,
            component_at(rules, place, class, i).dims_expr,
            component_at(rules, place, class, i).dims,
        ),
{
    let declared = rules.tree[class].components[i];
    let comp = retyped(rules.tree, place.frames, declared);
    if modified_size(mods, place.path, comp.dims_expr) is Some {
        let name = comp.dims_expr[0].node->VarRef_name;
        lemma_said(mods, place.mods, place.path + dotted_path(name));
        law_modified_dimension(
            comp,
            eval_place(rules, place, class),
            name,
            modified_size(mods, place.path, comp.dims_expr)->0,
        );
    }
}

proof fn lemma_prefix_is_said(
    mods: Seq<Entry<ModificationView>>,
    all: Seq<Entry<ModificationView>>,
)
    requires
        distinct_keys(all),
        mods.len() <= all.len(),
        all.take(mods.len() as int) == mods,
    ensures
        said_in(mods, all),
{
    assert forall|target: Seq<PartView>| #[trigger] has_key(mods, target) implies modification_of(
        all,
        target,
    ) == modification_of(mods, target) by {
        let i = choose|i: int| 0 <= i < mods.len() && (#[trigger] mods[i]).0 == target;
        assert(all.take(mods.len() as int)[i] == all[i]);
        assert(all[i] == mods[i]);
        let k = choose|k: int| 0 <= k < all.len() && (#[trigger] all[k]).0 == target;
        if i < k {
            assert(all[i].0 != all[k].0);
        } else if k < i {
            assert(all[k].0 != all[i].0);
        }
    }
}

proof fn lemma_element_is_distinct(
    mods: Seq<Entry<ModificationView>>,
    array: Seq<PartView>,
    element: Seq<PartView>,
    subs: Seq<i64>,
    n: int,
)
    requires
        distinct_keys(mods),
        0 <= n <= mods.len(),
    ensures
        distinct_keys(with_element(mods, array, element, subs, n)),
    decreases n,
{
    if n > 0 {
        lemma_element_is_distinct(mods, array, element, subs, n - 1);
        let entry = mods[n - 1];
        if is_at_or_inside(entry.0, array) {
            lemma_with_modification_is_distinct(
                with_element(mods, array, element, subs, n - 1),
                element + entry.0.skip(array.len() as int),
                element_modification(entry.1, subs),
            );
        }
    }
}

proof fn lemma_recorded_obeys(rules: WalkRules, place: Place, comp: ComponentView, st: WalkState)
    requires
        identities_apart(st.overlay),
        sized(place.mods, place.path.drop_last(), comp.dims_expr, comp.dims),
        component_recorded(rules, place, comp, st) is Ok,
    ensures
        ({
            let after = component_recorded(rules, place, comp, st)->Ok_0.0.overlay;
            all_obeyed(place.mods, after, st.overlay.components.len() as int)
        }),
{
    lemma_recorded(rules, place, comp, st);
    let after = component_recorded(rules, place, comp, st)->Ok_0.0.overlay;
    assert(after.components[after.components.len() - 1] == after.components.last());
}

proof fn lemma_component_obeys(rules: WalkRules, place: Place, comp: ComponentView, st: WalkState)
    requires
        distinct_keys(place.mods),
        identities_apart(st.overlay),
        sized(place.mods, place.path.drop_last(), comp.dims_expr, comp.dims),
        component_walked(rules, place, comp, st) is Ok,
    ensures
        ({
            let after = component_walked(rules, place, comp, st)->Ok_0.overlay;
            all_obeyed(place.mods, after, st.overlay.components.len() as int)
        }),
    decreases room(rules, place.path), 3int, 0int,
{
    lemma_recorded(rules, place, comp, st);
    lemma_recorded_obeys(rules, place, comp, st);
    let (recorded, info) = component_recorded(rules, place, comp, st)->Ok_0;
    if goes_inside(comp, info) {
        let inside = place_inside(rules.tree, place, comp, info, recorded.scope);
        let class = info.class->0 as int;
        law_modifications_reach_inside(rules.tree, place, comp, info, recorded.scope);
        lemma_class_obeys(rules, inside, class, recorded.missing, recorded.overlay);
        law_instances_have_own_identities(
            rules,
            inside,
            class,
            recorded.missing,
            recorded.overlay,
        );
        let after = component_walked(rules, place, comp, st)->Ok_0.overlay;
        let middle = recorded.overlay.components.len() as int;
        lemma_obeyed_among_more(place.mods, inside.mods, after, middle);
        assert forall|i: int|
            st.overlay.components.len() <= i < after.components.len() implies obeyed(
            place.mods,
            (#[trigger] after.components[i]).1,
        ) by {
            if i < middle {
                assert(after.components[i] == recorded.overlay.components[i]);
            }
        }
    }
}

proof fn lemma_elements_obey(
    rules: WalkRules,
    place: Place,
    comp: ComponentView,
    n: int,
    st: WalkState,
)
    requires
        distinct_keys(place.mods),
        identities_apart(st.overlay),
        elements_walked(rules, place, comp, n, st) is Ok,
    ensures
        ({
            let after = elements_walked(rules, place, comp, n, st)->Ok_0.overlay;
            all_obeyed(place.mods, after, st.overlay.components.len() as int)
        }),
    decreases room(rules, place.path), 0int, n,
{
    if n > 0 && place.path.len() <= rules.depth_limit {
        lemma_elements_obey(rules, place, comp, n - 1, st);
        lemma_elements(rules, place, comp, n - 1, st);
        let before = elements_walked(rules, place, comp, n - 1, st)->Ok_0;
        let subs = element_subscripts(comp.dims, n - 1);
        let at = place_at_element(place, comp.name, subs);
        law_modifications_reach_elements(place, comp.name, subs);
        lemma_component_obeys(rules, at, element_component(comp, subs), before);
        lemma_component(rules, at, element_component(comp, subs), before);
        let after = elements_walked(rules, place, comp, n, st)->Ok_0.overlay;
        let middle = before.overlay.components.len() as int;
        lemma_obeyed_among_more(place.mods, at.mods, after, middle);
        assert forall|i: int|
            st.overlay.components.len() <= i < after.components.len() implies obeyed(
            place.mods,
            (#[trigger] after.components[i]).1,
        ) by {
            if i < middle {
                assert(after.components[i] == before.overlay.components[i]);
            }
        }
    }
}

proof fn lemma_components_obey(rules: WalkRules, place: Place, class: int, n: int, st: WalkState)
    requires
        distinct_keys(place.mods),
        identities_apart(st.overlay),
        components_walked(rules, place, class, n, st) is Ok,
    ensures
        ({
            let after = components_walked(rules, place, class, n, st)->Ok_0.overlay;
            all_obeyed(place.mods, after, st.overlay.components.len() as int)
        }),
    decreases room(rules, place.path), 1int, n,
{
    if n > 0 && place.path.len() <= rules.depth_limit {
        lemma_components_obey(rules, place, class, n - 1, st);
        lemma_components(rules, place, class, n - 1, st);
        let before = components_walked(rules, place, class, n - 1, st)->Ok_0;
        let comp = component_at(rules, place, class, n - 1);
        let path = place.path.push((comp.name, Seq::<i64>::empty()));
        if !disabled_at(rules, place, class, n - 1) {
            if is_structured_array(rules.tree, comp) {
                let noted = array_noted(before, path, comp.dims);
                lemma_elements_obey(rules, place, comp, element_total(comp.dims), noted);
                lemma_elements(rules, place, comp, element_total(comp.dims), noted);
            } else {
                law_modification_decides_dimension(place.mods, rules, place, class, n - 1);
                assert(path.drop_last() =~= place.path);
                lemma_component_obeys(rules, Place { path, ..place }, comp, before);
                lemma_component(rules, Place { path, ..place }, comp, before);
            }
            let after = components_walked(rules, place, class, n, st)->Ok_0.overlay;
            let middle = before.overlay.components.len() as int;
            assert forall|i: int|
                st.overlay.components.len() <= i < after.components.len() implies obeyed(
                place.mods,
                (#[trigger] after.components[i]).1,
            ) by {
                if i < middle {
                    assert(after.components[i] == before.overlay.components[i]);
                }
            }
        }
    }
}

proof fn lemma_class_obeys(
    rules: WalkRules,
    place: Place,
    class: int,
    missing: Seq<MissingView>,
    overlay: OverlayView,
)
    requires
        distinct_keys(place.mods),
        identities_apart(overlay),
        class_walked(rules, place, class, missing, overlay) is Ok,
    ensures
        all_obeyed(
            place.mods,
            class_walked(rules, place, class, missing, overlay)->Ok_0.overlay,
            overlay.components.len() as int,
        ),
    decreases room(rules, place.path), 2int, 0int,
{
    let def = rules.tree[class];
    let active = entered(place.active, def, place.path)->Ok_0;
    let start = WalkState { scope: Seq::empty(), missing, overlay: identity_taken(overlay) };
    lemma_components_obey(
        rules,
        Place { active, ..place },
        class,
        def.components.len() as int,
        start,
    );
}

/// Making up inner components keeps what modifications say in force.
pub proof fn lemma_made_up_obey(
    rules: WalkRules,
    mods: Seq<Entry<ModificationView>>,
    missing: Seq<MissingView>,
    n: int,
    st: WalkState,
)
    requires
        distinct_keys(mods),
        identities_apart(st.overlay),
        all_obeyed(mods, st.overlay, 0),
        made_up(rules, mods, missing, n, st) is Ok,
    ensures
        identities_apart(made_up(rules, mods, missing, n, st)->Ok_0.overlay),
        all_obeyed(mods, made_up(rules, mods, missing, n, st)->Ok_0.overlay, 0),
    decreases n,
{
    if n > 0 {
        lemma_made_up_obey(rules, mods, missing, n - 1, st);
        let before = made_up(rules, mods, missing, n - 1, st)->Ok_0;
        let after = made_up(rules, mods, missing, n, st)->Ok_0;
        let mi = missing[n - 1];
        if class_named(rules.tree, mi.type_text) is Some {
            let class = class_named(rules.tree, mi.type_text)->0;
            let path = seq![(mi.name, Seq::<i64>::empty())];
            let noted = WalkState {
                scope: with_named(
                    before.scope,
                    mi.name,
                    InnerView {
                        qualified_name: path,
                        type_text: mi.type_text,
                        type_def_id: mi.type_def_id,
                    },
                ),
                ..before
            };
            let place = Place {
                path,
                mods,
                outer_scopes: Seq::empty(),
                frames: seq![root_frame()],
                active: Seq::empty(),
            };
            let comp = synthetic_inner(mi, rules.tree[class].def_id, mi.span);
            lemma_component_obeys(rules, place, comp, noted);
            lemma_component(rules, place, comp, noted);
            assert forall|i: int| 0 <= i < after.overlay.components.len() implies obeyed(
                mods,
                (#[trigger] after.overlay.components[i]).1,
            ) by {
                if i < before.overlay.components.len() {
                    assert(after.overlay.components[i] == before.overlay.components[i]);
                }
            }
        }
    }
}

proof fn lemma_retried_obeys(
    tree: Seq<ClassView>,
    model: int,
    missing: Seq<MissingView>,
    depth_limit: usize,
    mods: Seq<Entry<ModificationView>>,
)
    requires
        distinct_keys(mods),
        retried(tree, model, missing, depth_limit, mods) is Ok,
    ensures
        all_obeyed(mods, retried(tree, model, missing, depth_limit, mods)->Ok_0, 0),
{
    let rules = model_rules(tree, tree[model], depth_limit);
    let start = WalkState {
        scope: Seq::empty(),
        missing: Seq::empty(),
        overlay: root_overlay(tree[model]),
    };
    let n = missing.len() as int;
    lemma_made_up_obey(rules, mods, missing, n, start);
    let st = made_up(rules, mods, missing, n, start)->Ok_0;
    let place = root_place(st.scope, mods);
    lemma_class_obeys(rules, place, model, st.missing, st.overlay);
    law_instances_have_own_identities(rules, place, model, st.missing, st.overlay);
    let after = class_walked(rules, place, model, st.missing, st.overlay)->Ok_0.overlay;
    assert forall|i: int| 0 <= i < after.components.len() implies obeyed(
        mods,
        (#[trigger] after.components[i]).1,
    ) by {
        if i < st.overlay.components.len() {
            assert(after.components[i] == st.overlay.components[i]);
        }
    }
}

/// The modifications of a root are about targets of their own.
pub proof fn lemma_root_mods_are_distinct(list: Seq<(QualifiedName, ModificationValue)>, n: int)
    ensures
        distinct_keys(root_mods(list, n)),
    decreases n,
{
    if n > 0 {
        lemma_root_mods_are_distinct(list, n - 1);
        lemma_with_modification_is_distinct(
            root_mods(list, n - 1),
            list[n - 1].0@,
            list[n - 1].1@,
        );
    }
}

/// Every instance of a model has the value and the attributes that modifications of the
/// root give it, and the size that a modification of the root gives the name in its
/// dimension, however deep it is, and whether the inner components of the model are
/// declared or made up.
pub proof fn law_root_modifications_hold(
    tree: Seq<ClassView>,
    model_name: Seq<char>,
    options: InstantiateOptions,
    i: int,
)
    requires
        outcome_with(tree, model_name, options) is Success,
        0 <= i < outcome_with(tree, model_name, options)->Success_0.components.len(),
    ensures
        obeyed(
            seeded(options),
            outcome_with(tree, model_name, options)->Success_0.components[i].1,
        ),
{
    let mods = seeded(options);
    let depth_limit = options.depth_limit;
    lemma_root_mods_are_distinct(
        options.root_modifications@,
        options.root_modifications@.len() as int,
    );
    let model = class_named(tree, model_name)->0;
    let rules = model_rules(tree, tree[model], depth_limit);
    let place = root_place(Seq::empty(), mods);
    let overlay = root_overlay(tree[model]);
    let first = class_walked(rules, place, model, Seq::empty(), overlay)->Ok_0;
    lemma_class_obeys(rules, place, model, Seq::empty(), overlay);
    if first.missing.len() > 0 {
        lemma_retried_obeys(tree, model, first.missing, depth_limit, mods);
    }
}

} // verus!
