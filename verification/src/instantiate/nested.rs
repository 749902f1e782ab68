//! Modifications of what is inside a component.
//!
//! A component says how what is inside it is modified. What is said further out
//! stays, and all of it is forgotten when the walk leaves the component.
use crate::expr::tree::{expr_views, ExprView, Expression, Node, NodeView};
use crate::instantiate::context::InstantiateContext;
use crate::instantiate::record::{binding_scope_for_record_expansion, path_around};
use crate::instantiate::tree::{
    component_views, said_modifications, ClassDef, Component, ComponentView,
};
use crate::ir::modification::{
    lemma_modification_views, modification_of, with_modification, ModificationValue,
    ModificationView,
};
use crate::ir::name::{PartView, QualifiedName};
use crate::ir::path_map::{distinct_keys, has_key, Entry};
use crate::text::held;
use vstd::prelude::*;

verus! {

/// The modifications with the first `n` that a component says itself, under its
/// path.
pub open spec fn with_own(
    mods: Seq<Entry<ModificationView>>,
    path: Seq<PartView>,
    own: Seq<Entry<ModificationView>>,
    n: int,
) -> Seq<Entry<ModificationView>>
    decreases n,
{
    if n <= 0 {
        mods
    } else {
        with_modification(with_own(mods, path, own, n - 1), path + own[n - 1].0, own[n - 1].1)
    }
}

/// A field of a value.
pub open spec fn field_of(value: ExprView, field: Seq<char>) -> ExprView {
    ExprView { node: NodeView::FieldAccess { field }, args: seq![value], span: value.span }
}

/// The modification that gives a component inside a record its field of the
/// record's value.
pub open spec fn field_modification(
    value: ExprView,
    scope: Option<Seq<PartView>>,
    field: Seq<char>,
) -> ModificationView {
    ModificationView {
        value: field_of(value, field),
        source: None,
        source_scope: scope,
        each: false,
        final_: false,
    }
}

/// The modifications with the fields of a value for the first `n` components.
pub open spec fn with_fields(
    mods: Seq<Entry<ModificationView>>,
    path: Seq<PartView>,
    value: ExprView,
    scope: Option<Seq<PartView>>,
    components: Seq<ComponentView>,
    n: int,
) -> Seq<Entry<ModificationView>>
    decreases n,
{
    if n <= 0 {
        mods
    } else {
        let name = components[n - 1].name;
        with_modification(
            with_fields(mods, path, value, scope, components, n - 1),
            path.push((name, Seq::<i64>::empty())),
            field_modification(value, scope, name),
        )
    }
}

/// The value of a component and the scope in which it is to be read.
pub open spec fn scoped_binding(
    mods: Seq<Entry<ModificationView>>,
    path: Seq<PartView>,
    comp: ComponentView,
) -> Option<(ExprView, Option<Seq<PartView>>)> {
    match modification_of(mods, path) {
        Some(m) => Some((m.value, m.source_scope)),
        None => match comp.binding {
            Some(value) => Some((value, Some(path_around(path)))),
            None => None,
        },
    }
}

/// The modifications inside a component: those around it, then its own, then the
/// fields of its value.
pub open spec fn mods_inside(
    mods: Seq<Entry<ModificationView>>,
    path: Seq<PartView>,
    comp: ComponentView,
    components: Seq<ComponentView>,
) -> Seq<Entry<ModificationView>> {
    let own = with_own(mods, path, comp.modifications, comp.modifications.len() as int);
    match scoped_binding(mods, path, comp) {
        Some((value, scope)) => with_fields(
            own,
            path,
            value,
            scope,
            components,
            components.len() as int,
        ),
        None => own,
    }
}

proof fn lemma_own_comes_after(
    mods: Seq<Entry<ModificationView>>,
    path: Seq<PartView>,
    own: Seq<Entry<ModificationView>>,
    n: int,
)
    ensures
        with_own(mods, path, own, n).len() >= mods.len(),
        with_own(mods, path, own, n).take(mods.len() as int) == mods,
    decreases n,
{
    if n > 0 {
        lemma_own_comes_after(mods, path, own, n - 1);
    }
    assert(with_own(mods, path, own, n).take(mods.len() as int) =~= mods);
}

proof fn lemma_fields_come_after(
    mods: Seq<Entry<ModificationView>>,
    path: Seq<PartView>,
    value: ExprView,
    scope: Option<Seq<PartView>>,
    components: Seq<ComponentView>,
    n: int,
)
    ensures
        with_fields(mods, path, value, scope, components, n).len() >= mods.len(),
        with_fields(mods, path, value, scope, components, n).take(mods.len() as int) == mods,
    decreases n,
{
    if n > 0 {
        lemma_fields_come_after(mods, path, value, scope, components, n - 1);
    }
    assert(with_fields(mods, path, value, scope, components, n).take(mods.len() as int) =~= mods);
}

/// What is said around a component stands before what is said inside it.
pub proof fn lemma_inside_comes_after(
    mods: Seq<Entry<ModificationView>>,
    path: Seq<PartView>,
    comp: ComponentView,
    components: Seq<ComponentView>,
)
    ensures
        mods_inside(mods, path, comp, components).len() >= mods.len(),
        mods_inside(mods, path, comp, components).take(mods.len() as int) == mods,
{
    let own = with_own(mods, path, comp.modifications, comp.modifications.len() as int);
    lemma_own_comes_after(mods, path, comp.modifications, comp.modifications.len() as int);
    if let Some((value, scope)) = scoped_binding(mods, path, comp) {
        lemma_fields_come_after(own, path, value, scope, components, components.len() as int);
        assert(mods_inside(mods, path, comp, components).take(mods.len() as int) =~= own.take(
            mods.len() as int,
        ));
    }
}

fn add_own_modifications(
    ctx: &mut InstantiateContext,
    path: &QualifiedName,
    own: &Vec<(QualifiedName, ModificationValue)>,
)
    requires
        old(ctx).wf(),
    ensures
        final(ctx).wf(),
        final(ctx).same_but_mods(*old(ctx)),
        final(ctx).mods() == with_own(
            old(ctx).mods(),
            path@,
            said_modifications(own@),
            own@.len() as int,
        ),
{
    let ghost said = said_modifications(own@);
    let mut i: usize = 0;
    while i < own.len()
        invariant
            i <= own@.len(),
            said == said_modifications(own@),
            ctx.wf(),
            ctx.same_but_mods(*old(ctx)),
            ctx.mods() == with_own(old(ctx).mods(), path@, said, i as int),
        decreases own.len() - i,
    {
        assert(said[i as int] == (own@[i as int].0@, own@[i as int].1@));
        ctx.add_modification(path.join(&own[i].0), own[i].1.clone());
        i = i + 1;
    }
}

fn add_field_modifications(
    ctx: &mut InstantiateContext,
    path: &QualifiedName,
    value: &Expression,
    scope: &Option<QualifiedName>,
    components: &Vec<Component>,
)
    requires
        old(ctx).wf(),
    ensures
        final(ctx).wf(),
        final(ctx).same_but_mods(*old(ctx)),
        final(ctx).mods() == with_fields(
            old(ctx).mods(),
            path@,
            value@,
            held(*scope),
            component_views(components@),
            components@.len() as int,
        ),
{
    let ghost contents = component_views(components@);
    let mut i: usize = 0;
    while i < components.len()
        invariant
            i <= components@.len(),
            contents == component_views(components@),
            ctx.wf(),
            ctx.same_but_mods(*old(ctx)),
            ctx.mods() == with_fields(
                old(ctx).mods(),
                path@,
                value@,
                held(*scope),
                contents,
                i as int,
            ),
        decreases components.len() - i,
    {
        assert(contents[i as int] == components@[i as int]@);
        let name = components[i].name.as_str();
        let args = vec![value.clone()];
        assert(expr_views(args@) =~= seq![value@]);
        let field = Expression::new(
            Node::FieldAccess { field: components[i].name.clone() },
            args,
            value.span,
        );
        let source_scope = match scope {
            Some(scope) => Some(scope.clone()),
            None => None,
        };
        let modification = ModificationValue::with_source_scope(field, None, source_scope);
        assert(modification@ == field_modification(value@, held(*scope), name@));
        ctx.add_modification(path.child(name), modification);
        i = i + 1;
    }
}

/// Adds the modifications of what is inside a component.
pub fn populate_modification_environment(
    ctx: &mut InstantiateContext,
    comp: &Component,
    class: &ClassDef,
    path: &QualifiedName,
)
    requires
        old(ctx).wf(),
    ensures
        final(ctx).wf(),
        final(ctx).same_but_mods(*old(ctx)),
        final(ctx).mods() == mods_inside(old(ctx).mods(), path@, comp@, class@.components),
{
    let ghost before = ctx.mods();
    proof {
        ctx.mod_env.active.lemma_distinct();
        lemma_modification_views(ctx.mod_env.entries(), path@);
    }
    let mut value: Option<Expression> = None;
    let mut scope: Option<QualifiedName> = None;
    match ctx.mod_env().get(path) {
        Some(m) => {
            value = Some(m.value.clone());
            scope = binding_scope_for_record_expansion(path, true, &m.source_scope);
        },
        None => {
            if let Some(declared) = &comp.binding {
                value = Some(declared.clone());
                scope = binding_scope_for_record_expansion(path, false, &None);
            }
        },
    }
    assert(scoped_binding(before, path@, comp@) == match value {
        Some(e) => Some((e@, held(scope))),
        None => None,
    });
    add_own_modifications(ctx, path, &comp.modifications);
    if let Some(value) = &value {
        add_field_modifications(ctx, path, value, &scope, &class.components);
    }
}

/// Whether a target is a component or inside it.
pub open spec fn is_at_or_inside(target: Seq<PartView>, path: Seq<PartView>) -> bool {
    path.len() <= target.len() && target.take(path.len() as int) == path
}

/// What is said around a component wins over what the component says itself.
pub proof fn law_modification_around_wins(
    mods: Seq<Entry<ModificationView>>,
    path: Seq<PartView>,
    comp: ComponentView,
    components: Seq<ComponentView>,
    target: Seq<PartView>,
)
    requires
        distinct_keys(mods),
        has_key(mods, target),
    ensures
        modification_of(mods_inside(mods, path, comp, components), target) == modification_of(
            mods,
            target,
        ),
{
    let inside = mods_inside(mods, path, comp, components);
    lemma_inside_comes_after(mods, path, comp, components);
    lemma_inside_is_distinct(mods, path, comp, components);
    let i = choose|i: int| 0 <= i < mods.len() && (#[trigger] mods[i]).0 == target;
    assert(inside.take(mods.len() as int)[i] == inside[i]);
    assert(inside[i] == mods[i]);
    let k = choose|k: int| 0 <= k < inside.len() && (#[trigger] inside[k]).0 == target;
    if i < k {
        assert(inside[i].0 != inside[k].0);
    } else if k < i {
        assert(inside[k].0 != inside[i].0);
    }
}

/// Adding a modification gives no target a second one.
pub proof fn lemma_with_modification_is_distinct(
    mods: Seq<Entry<ModificationView>>,
    target: Seq<PartView>,
    value: ModificationView,
)
    requires
        distinct_keys(mods),
    ensures
        distinct_keys(with_modification(mods, target, value)),
{
    let after = with_modification(mods, target, value);
    assert forall|i: int, j: int| 0 <= i < j < after.len() implies (#[trigger] after[i]).0 != (
    #[trigger] after[j]).0 by {
        if j < mods.len() {
            assert(mods[i].0 != mods[j].0);
        } else {
            assert(mods[i] == after[i]);
        }
    }
}

proof fn lemma_own_is_distinct(
    mods: Seq<Entry<ModificationView>>,
    path: Seq<PartView>,
    own: Seq<Entry<ModificationView>>,
    n: int,
)
    requires
        distinct_keys(mods),
    ensures
        distinct_keys(with_own(mods, path, own, n)),
    decreases n,
{
    if n > 0 {
        lemma_own_is_distinct(mods, path, own, n - 1);
        lemma_with_modification_is_distinct(
            with_own(mods, path, own, n - 1),
            path + own[n - 1].0,
            own[n - 1].1,
        );
    }
}

proof fn lemma_fields_are_distinct(
    mods: Seq<Entry<ModificationView>>,
    path: Seq<PartView>,
    value: ExprView,
    scope: Option<Seq<PartView>>,
    components: Seq<ComponentView>,
    n: int,
)
    requires
        distinct_keys(mods),
    ensures
        distinct_keys(with_fields(mods, path, value, scope, components, n)),
    decreases n,
{
    if n > 0 {
        lemma_fields_are_distinct(mods, path, value, scope, components, n - 1);
        let name = components[n - 1].name;
        lemma_with_modification_is_distinct(
            with_fields(mods, path, value, scope, components, n - 1),
            path.push((name, Seq::<i64>::empty())),
            field_modification(value, scope, name),
        );
    }
}

/// Every target inside a component has one modification.
pub proof fn lemma_inside_is_distinct(
    mods: Seq<Entry<ModificationView>>,
    path: Seq<PartView>,
    comp: ComponentView,
    components: Seq<ComponentView>,
)
    requires
        distinct_keys(mods),
    ensures
        distinct_keys(mods_inside(mods, path, comp, components)),
{
    let own = with_own(mods, path, comp.modifications, comp.modifications.len() as int);
    lemma_own_is_distinct(mods, path, comp.modifications, comp.modifications.len() as int);
    if let Some((value, scope)) = scoped_binding(mods, path, comp) {
        lemma_fields_are_distinct(own, path, value, scope, components, components.len() as int);
    }
}

proof fn lemma_own_stays_inside(
    mods: Seq<Entry<ModificationView>>,
    path: Seq<PartView>,
    own: Seq<Entry<ModificationView>>,
    n: int,
    target: Seq<PartView>,
)
    requires
        !is_at_or_inside(target, path),
    ensures
        has_key(with_own(mods, path, own, n), target) == has_key(mods, target),
    decreases n,
{
    if n > 0 {
        lemma_own_stays_inside(mods, path, own, n - 1, target);
        let key = path + own[n - 1].0;
        assert(key.take(path.len() as int) =~= path);
        crate::ir::modification::law_outer_modification_wins(
            with_own(mods, path, own, n - 1),
            key,
            own[n - 1].1,
            target,
        );
    }
}

proof fn lemma_fields_stay_inside(
    mods: Seq<Entry<ModificationView>>,
    path: Seq<PartView>,
    value: ExprView,
    scope: Option<Seq<PartView>>,
    components: Seq<ComponentView>,
    n: int,
    target: Seq<PartView>,
)
    requires
        !is_at_or_inside(target, path),
    ensures
        has_key(with_fields(mods, path, value, scope, components, n), target) == has_key(
            mods,
            target,
        ),
    decreases n,
{
    if n > 0 {
        lemma_fields_stay_inside(mods, path, value, scope, components, n - 1, target);
        let name = components[n - 1].name;
        let key = path.push((name, Seq::<i64>::empty()));
        assert(key.take(path.len() as int) =~= path);
        crate::ir::modification::law_outer_modification_wins(
            with_fields(mods, path, value, scope, components, n - 1),
            key,
            field_modification(value, scope, name),
            target,
        );
    }
}

/// What a component says modifies nothing outside it, whatever the names there
/// are.
pub proof fn law_modifications_stay_inside(
    mods: Seq<Entry<ModificationView>>,
    path: Seq<PartView>,
    comp: ComponentView,
    components: Seq<ComponentView>,
    target: Seq<PartView>,
)
    requires
        !is_at_or_inside(target, path),
    ensures
        has_key(mods_inside(mods, path, comp, components), target) == has_key(mods, target),
{
    let own = with_own(mods, path, comp.modifications, comp.modifications.len() as int);
    lemma_own_stays_inside(
        mods,
        path,
        comp.modifications,
        comp.modifications.len() as int,
        target,
    );
    if let Some((value, scope)) = scoped_binding(mods, path, comp) {
        lemma_fields_stay_inside(
            own,
            path,
            value,
            scope,
            components,
            components.len() as int,
            target,
        );
    }
}

proof fn lemma_own_applies(
    mods: Seq<Entry<ModificationView>>,
    path: Seq<PartView>,
    own: Seq<Entry<ModificationView>>,
    k: int,
    n: int,
)
    requires
        distinct_keys(mods),
        0 <= k < n <= own.len(),
        !has_key(mods, path + own[k].0),
        forall|i: int| 0 <= i < k ==> (#[trigger] own[i]).0 != own[k].0,
    ensures
        modification_of(with_own(mods, path, own, n), path + own[k].0) == Some(own[k].1),
    decreases n,
{
    let key = path + own[k].0;
    if k < n - 1 {
        lemma_own_applies(mods, path, own, k, n - 1);
        lemma_own_is_distinct(mods, path, own, n - 1);
        crate::ir::modification::law_outer_modification_wins(
            with_own(mods, path, own, n - 1),
            path + own[n - 1].0,
            own[n - 1].1,
            key,
        );
    } else {
        lemma_own_is_absent(mods, path, own, k, k);
        crate::ir::modification::law_outer_modification_wins(
            with_own(mods, path, own, k),
            key,
            own[k].1,
            key,
        );
    }
}

proof fn lemma_own_is_absent(
    mods: Seq<Entry<ModificationView>>,
    path: Seq<PartView>,
    own: Seq<Entry<ModificationView>>,
    k: int,
    n: int,
)
    requires
        0 <= n <= k < own.len(),
        !has_key(mods, path + own[k].0),
        forall|i: int| 0 <= i < k ==> (#[trigger] own[i]).0 != own[k].0,
    ensures
        !has_key(with_own(mods, path, own, n), path + own[k].0),
    decreases n,
{
    if n > 0 {
        lemma_own_is_absent(mods, path, own, k, n - 1);
        let key = path + own[k].0;
        let other = path + own[n - 1].0;
        if other == key {
            assert(own[n - 1].0 =~= other.skip(path.len() as int));
            assert(own[k].0 =~= key.skip(path.len() as int));
        }
        crate::ir::modification::law_outer_modification_wins(
            with_own(mods, path, own, n - 1),
            other,
            own[n - 1].1,
            key,
        );
    }
}

/// What a component says first of something inside it holds there, unless it is
/// said around the component.
pub proof fn law_own_modification_holds(
    mods: Seq<Entry<ModificationView>>,
    path: Seq<PartView>,
    comp: ComponentView,
    components: Seq<ComponentView>,
    k: int,
)
    requires
        distinct_keys(mods),
        0 <= k < comp.modifications.len(),
        !has_key(mods, path + comp.modifications[k].0),
        forall|i: int|
            0 <= i < k ==> (#[trigger] comp.modifications[i]).0 != comp.modifications[k].0,
    ensures
        modification_of(
            mods_inside(mods, path, comp, components),
            path + comp.modifications[k].0,
        ) == Some(comp.modifications[k].1),
{
    let own = comp.modifications;
    let n = own.len() as int;
    let key = path + own[k].0;
    lemma_own_applies(mods, path, own, k, n);
    lemma_own_is_distinct(mods, path, own, n);
    if let Some((value, scope)) = scoped_binding(mods, path, comp) {
        lemma_fields_keep(
            with_own(mods, path, own, n),
            path,
            value,
            scope,
            components,
            components.len() as int,
            key,
        );
    }
}

proof fn lemma_fields_keep(
    mods: Seq<Entry<ModificationView>>,
    path: Seq<PartView>,
    value: ExprView,
    scope: Option<Seq<PartView>>,
    components: Seq<ComponentView>,
    n: int,
    target: Seq<PartView>,
)
    requires
        distinct_keys(mods),
        has_key(mods, target),
    ensures
        has_key(with_fields(mods, path, value, scope, components, n), target),
        modification_of(with_fields(mods, path, value, scope, components, n), target)
            == modification_of(mods, target),
    decreases n,
{
    if n > 0 {
        lemma_fields_keep(mods, path, value, scope, components, n - 1, target);
        lemma_fields_are_distinct(mods, path, value, scope, components, n - 1);
        let name = components[n - 1].name;
        crate::ir::modification::law_outer_modification_wins(
            with_fields(mods, path, value, scope, components, n - 1),
            path.push((name, Seq::<i64>::empty())),
            field_modification(value, scope, name),
            target,
        );
    }
}

} // verus!
