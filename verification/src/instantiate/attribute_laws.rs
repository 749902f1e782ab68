//! What instances say of themselves.
use crate::dae::variable::StateSelect;
use crate::expr::tree::{ExprView, LiteralView, NodeView};
use crate::instantiate::annotation::{asks_evaluate, tool_trainable};
use crate::instantiate::attributes::{
    attribute_in, declared_attributes, final_error, inherited_attribute,
    selection_of, type_attribute, ATTRIBUTE_COUNT,
};
use crate::instantiate::context::{inner_in, InnerView, ScopeView};
use crate::instantiate::outer::{inner_outer_handled, noted_inner, WalkState};
use crate::instantiate::record::{instance_of, Surroundings};
use crate::instantiate::structural::reference_path;
use crate::instantiate::tree::{ClassView, ComponentView, TypeAttributeView, TypeInfo};
use crate::ir::modification::{modification_of, ModificationView};
use crate::ir::name::{path_text, PartView};
use crate::ir::name_map::{distinct_names, lemma_with_named_values, value_of_name};
use crate::ir::path_map::Entry;
use vstd::prelude::*;

verus! {

/// Whether a modification in force says a value of an attribute of the component at a
/// path.
pub open spec fn is_told(
    mods: Seq<Entry<ModificationView>>,
    path: Seq<PartView>,
    attribute: Seq<char>,
    value: ExprView,
) -> bool {
    modification_of(mods, path.push((attribute, Seq::<i64>::empty()))) matches Some(m) && m.value
        == value
}

/// Whether no modification says anything of an attribute of the component at a path.
pub open spec fn is_untold(
    mods: Seq<Entry<ModificationView>>,
    path: Seq<PartView>,
    attribute: Seq<char>,
) -> bool {
    modification_of(mods, path.push((attribute, Seq::<i64>::empty()))) is None
}

/// Whether an expression is a text.
pub open spec fn is_text(e: ExprView, s: Seq<char>) -> bool {
    e.node == NodeView::Literal(LiteralView::String(s))
}

/// Whether an expression is a truth value.
pub open spec fn is_truth(e: ExprView, b: bool) -> bool {
    e.node == NodeView::Literal(LiteralView::Boolean(b))
}

/// Whether an attribute is what is told of it, and what is declared where nothing is told.
pub open spec fn follows(
    mods: Seq<Entry<ModificationView>>,
    path: Seq<PartView>,
    attribute: Seq<char>,
    declared: Option<ExprView>,
    found: Option<ExprView>,
) -> bool {
    &&& forall|value: ExprView| #[trigger]
        is_told(mods, path, attribute, value) ==> found == Some(value)
    &&& is_untold(mods, path, attribute) ==> found == declared
}

/// Whether a text attribute is what is told of it where that is a text, else what is
/// declared where nothing is told, else what the type says where that is a text.
pub open spec fn follows_type(
    mods: Seq<Entry<ModificationView>>,
    path: Seq<PartView>,
    attribute: Seq<char>,
    declared: Option<Seq<char>>,
    inherited: Option<TypeAttributeView>,
    found: Option<Seq<char>>,
) -> bool {
    &&& forall|value: ExprView, s: Seq<char>| #[trigger]
        is_told(mods, path, attribute, value) && #[trigger] is_text(value, s) ==> found == Some(s)
    &&& is_untold(mods, path, attribute) && declared is Some ==> found == declared
    &&& is_untold(mods, path, attribute) && declared is None ==> match inherited {
        Some(a) => forall|s: Seq<char>| #[trigger] is_text(a.value, s) ==> found == Some(s),
        None => found is None,
    }
}

/// An instance says of itself what is told of it from outside, and else what its
/// declaration says: its value, its start, whether that is fixed, its bounds, its nominal
/// value, its texts, the last of which its type may say, and how it is selected. It has
/// its place, its dimensions, its type and its description from its declaration, is
/// evaluated where it is final or an annotation asks for it, and trainable where an
/// annotation says so.
pub proof fn law_instances_say_what_is_said_of_them(
    tree: Seq<ClassView>,
    around: Surroundings,
    comp: ComponentView,
    path: Seq<PartView>,
    id: u32,
    info: TypeInfo,
)
    ensures
        ({
            let made = instance_of(tree, around, comp, path, id, info);
            let mods = around.mods;
            let own = comp.attributes;
            &&& made.qualified_name == path
            &&& made.instance_id.0 == id
            &&& made.dims == comp.dims
            &&& made.dims_expr == comp.dims_expr
            &&& made.type_text == comp.type_text
            &&& made.description == comp.description
            &&& made.is_final == comp.is_final
            &&& made.source_span == comp.span
            &&& modification_of(mods, path) matches Some(m) ==> made.binding == Some(m.value)
                && made.binding_from_modification && made.binding_source == m.source
                && made.binding_source_scope == m.source_scope
            &&& modification_of(mods, path) is None ==> made.binding == comp.binding
                && !made.binding_from_modification
            &&& follows(mods, path, "start"@, own.start, made.start)
            &&& follows(mods, path, "min"@, own.min, made.min)
            &&& follows(mods, path, "max"@, own.max, made.max)
            &&& follows(mods, path, "nominal"@, own.nominal, made.nominal)
            &&& forall|value: ExprView, b: bool| #[trigger]
                is_told(mods, path, "fixed"@, value) && #[trigger] is_truth(value, b) ==> made.fixed == Some(b)
            &&& is_untold(mods, path, "fixed"@) ==> made.fixed == own.fixed
            &&& is_untold(mods, path, "stateSelect"@) ==> made.state_select == own.state_select
            &&& follows_type(
                mods,
                path,
                "quantity"@,
                own.quantity,
                inherited_attribute(tree, info, "quantity"@),
                made.quantity,
            )
            &&& follows_type(
                mods,
                path,
                "unit"@,
                own.unit,
                inherited_attribute(tree, info, "unit"@),
                made.unit,
            )
            &&& follows_type(
                mods,
                path,
                "displayUnit"@,
                own.display_unit,
                inherited_attribute(tree, info, "displayUnit"@),
                made.display_unit,
            )
            &&& made.evaluate <==> comp.is_final || exists|i: int|
                0 <= i < comp.annotations.len() && asks_evaluate(#[trigger] comp.annotations[i])
            &&& made.trainable <==> exists|i: int|
                0 <= i < comp.annotations.len() && tool_trainable(#[trigger] comp.annotations[i])
        }),
{
}

/// A selection of states is the one whose name ends the path that is told, and the default
/// where that is none of the names.
pub proof fn law_selections_go_by_their_names(e: ExprView)
    ensures
        ({
            let last = match reference_path(e) {
                Some(path) => if path.len() > 0 {
                    path.last().0
                } else {
                    Seq::empty()
                },
                None => Seq::empty(),
            };
            match selection_of(e) {
                StateSelect::Never => last == "never"@,
                StateSelect::Avoid => last == "avoid"@,
                StateSelect::Prefer => last == "prefer"@,
                StateSelect::Always => last == "always"@,
                StateSelect::Default => last != "never"@ && last != "avoid"@ && last != "prefer"@
                    && last != "always"@,
            }
        }),
{
    reveal_strlit("never");
    reveal_strlit("avoid");
    reveal_strlit("prefer");
    reveal_strlit("always");
    assert("never"@.len() == 5 && "avoid"@.len() == 5);
    assert("prefer"@.len() == 6 && "always"@.len() == 6);
    assert("never"@[0] != "avoid"@[0]);
    assert("prefer"@[0] != "always"@[0]);
}

/// Whether an attribute is one that the type of a component declares final although it is
/// declared or told.
pub open spec fn breaks_final(
    tree: Seq<ClassView>,
    mods: Seq<Entry<ModificationView>>,
    path: Seq<PartView>,
    info: TypeInfo,
    attribute: Seq<char>,
    declared: bool,
) -> bool {
    &&& inherited_attribute(tree, info, attribute) matches Some(a) && a.is_final
    &&& declared || !is_untold(mods, path, attribute)
}

/// A component is refused exactly where one of its attributes is declared or told although
/// its type declares it final.
pub proof fn law_final_attributes_are_kept(
    tree: Seq<ClassView>,
    mods: Seq<Entry<ModificationView>>,
    comp: ComponentView,
    path: Seq<PartView>,
    info: TypeInfo,
)
    ensures
        final_error(tree, mods, comp, path, info, ATTRIBUTE_COUNT as int) is Some <==> {
            let own = comp.attributes;
            ||| breaks_final(
                tree,
                mods,
                path,
                info,
                "start"@,
                own.start is Some && own.start_is_explicit,
            )
            ||| breaks_final(tree, mods, path, info, "fixed"@, own.fixed is Some)
            ||| breaks_final(tree, mods, path, info, "min"@, own.min is Some)
            ||| breaks_final(tree, mods, path, info, "max"@, own.max is Some)
            ||| breaks_final(tree, mods, path, info, "nominal"@, own.nominal is Some)
            ||| breaks_final(tree, mods, path, info, "quantity"@, own.quantity is Some)
            ||| breaks_final(tree, mods, path, info, "unit"@, own.unit is Some)
            ||| breaks_final(tree, mods, path, info, "displayUnit"@, own.display_unit is Some)
            ||| breaks_final(
                tree,
                mods,
                path,
                info,
                "stateSelect"@,
                own.state_select != StateSelect::Default,
            )
        },
{
    reveal_with_fuel(final_error, 10);
    let all = declared_attributes(comp);
    assert(all.len() == 9);
}

proof fn lemma_first_attribute(list: Seq<TypeAttributeView>, name: Seq<char>, n: int)
    requires
        0 <= n <= list.len(),
    ensures
        match attribute_in(list, name, n) {
            Some(a) => exists|i: int|
                0 <= i < n && #[trigger] list[i] == a && a.name == name && forall|j: int|
                    0 <= j < i ==> (#[trigger] list[j]).name != name,
            None => forall|j: int| 0 <= j < n ==> (#[trigger] list[j]).name != name,
        },
    decreases n,
{
    if n > 0 {
        lemma_first_attribute(list, name, n - 1);
    }
}

/// What a type itself says of an attribute, first, holds, whatever the types say that it
/// extends.
pub proof fn law_types_speak_before_their_bases(
    tree: Seq<ClassView>,
    class: int,
    name: Seq<char>,
    steps: nat,
    i: int,
)
    requires
        0 <= i < tree[class].type_attributes.len(),
        tree[class].type_attributes[i].name == name,
        forall|j: int| 0 <= j < i ==> (#[trigger] tree[class].type_attributes[j]).name != name,
    ensures
        type_attribute(tree, class, name, steps) == Some(tree[class].type_attributes[i]),
{
    let own = tree[class].type_attributes;
    lemma_first_attribute(own, name, own.len() as int);
    if attribute_in(own, name, own.len() as int) is None {
        assert(own[i].name != name);
    } else {
        let a = attribute_in(own, name, own.len() as int)->0;
        let k = choose|k: int|
            0 <= k < own.len() && #[trigger] own[k] == a && a.name == name && forall|j: int|
                0 <= j < k ==> (#[trigger] own[j]).name != name;
        if k < i {
            assert(own[k].name != name);
        } else if i < k {
            assert(own[i].name != name);
        }
    }
}

/// Whether an inner component is the nearest of its name: it is in a scope, and none of
/// the scopes further in has one.
pub open spec fn is_nearest(scopes: Seq<ScopeView>, name: Seq<char>, inner: InnerView) -> bool {
    exists|k: int|
        0 <= k < scopes.len() && value_of_name(#[trigger] scopes[k], name) == Some(inner)
            && forall|j: int|
            k < j < scopes.len() ==> value_of_name(#[trigger] scopes[j], name) is None
}

proof fn lemma_nearest(scopes: Seq<ScopeView>, name: Seq<char>, inner: InnerView)
    requires
        is_nearest(scopes, name, inner),
    ensures
        inner_in(scopes, name) == Some(inner),
    decreases scopes.len(),
{
    let k = choose|k: int|
        0 <= k < scopes.len() && value_of_name(#[trigger] scopes[k], name) == Some(inner)
            && forall|j: int|
            k < j < scopes.len() ==> value_of_name(#[trigger] scopes[j], name) is None;
    if k < scopes.len() - 1 {
        let front = scopes.drop_last();
        assert(value_of_name(scopes[scopes.len() - 1], name) is None);
        assert(front[k] == scopes[k]);
        assert forall|j: int| k < j < front.len() implies value_of_name(
            #[trigger] front[j],
            name,
        ) is None by {
            assert(front[j] == scopes[j]);
        }
        lemma_nearest(front, name, inner);
    }
}

/// An outer component is led to the nearest inner one of its name, from the scope it is in
/// outwards; one that is inner too is led from the scope around it. What else is led
/// somewhere stays so.
pub proof fn law_outer_components_are_led_to_the_nearest_inner(
    tree: Seq<ClassView>,
    comp: ComponentView,
    path: Seq<PartView>,
    around: Seq<ScopeView>,
    st: WalkState,
    inner: InnerView,
    other: Seq<char>,
)
    requires
        comp.outer,
        inner_outer_handled(tree, comp, path, around, st) is Ok,
        is_nearest(
            if comp.inner {
                around
            } else {
                around.push(st.scope)
            },
            comp.name,
            inner,
        ),
        path_text(path) != path_text(inner.qualified_name),
        ({
            let noted = noted_inner(tree, comp, path, st).overlay;
            distinct_names(noted.outer_prefix_to_inner) && distinct_names(
                noted.inner_outer_to_parent_inner,
            )
        }),
    ensures
        ({
            let noted = noted_inner(tree, comp, path, st).overlay;
            let after = inner_outer_handled(tree, comp, path, around, st)->Ok_0.overlay;
            let (before, led) = if comp.inner {
                (noted.inner_outer_to_parent_inner, after.inner_outer_to_parent_inner)
            } else {
                (noted.outer_prefix_to_inner, after.outer_prefix_to_inner)
            };
            &&& value_of_name(led, path_text(path)) == Some(path_text(inner.qualified_name))
            &&& other != path_text(path) ==> value_of_name(led, other) == value_of_name(
                before,
                other,
            )
        }),
{
    let noted = noted_inner(tree, comp, path, st);
    let scopes = if comp.inner {
        around
    } else {
        around.push(noted.scope)
    };
    lemma_nearest(scopes, comp.name, inner);
    let from = path_text(path);
    let to = path_text(inner.qualified_name);
    lemma_with_named_values(noted.overlay.outer_prefix_to_inner, from, to, other);
    lemma_with_named_values(noted.overlay.outer_prefix_to_inner, from, to, from);
    lemma_with_named_values(noted.overlay.inner_outer_to_parent_inner, from, to, other);
    lemma_with_named_values(noted.overlay.inner_outer_to_parent_inner, from, to, from);
}

} // verus!
