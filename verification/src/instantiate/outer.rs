//! Inner and outer components.
use crate::instantiate::context::{
    inner_in, missing_views, with_missing, InnerDeclaration, InnerView, InstantiateContext,
    MissingInnerInfo, MissingView, ScopeView,
};
use crate::instantiate::error::{
    known_span, location_to_span, InstantiateError, InstantiateErrorView,
};
use crate::instantiate::tree::{
    full_type, is_type_compatible_with_def_id, resolve_inner_outer_type_name,
    resolve_type_definition, type_definition, types_fit, ClassTree, ClassView, Component,
    ComponentView,
};
use crate::ir::instance::{InstanceOverlay, OverlayView};
use crate::ir::name::{path_text, PartView, QualifiedName};
use crate::ir::name_map::with_named;
use crate::text::same_text;
use vstd::prelude::*;

verus! {

/// The overlay with an outer path led to an inner one. A path is not led to
/// itself.
pub open spec fn led(
    overlay: OverlayView,
    is_inner_outer: bool,
    outer: Seq<PartView>,
    inner: Seq<PartView>,
) -> OverlayView {
    let from = path_text(outer);
    let to = path_text(inner);
    if from == to {
        overlay
    } else if is_inner_outer {
        OverlayView {
            inner_outer_to_parent_inner: with_named(overlay.inner_outer_to_parent_inner, from, to),
            ..overlay
        }
    } else {
        OverlayView {
            outer_prefix_to_inner: with_named(overlay.outer_prefix_to_inner, from, to),
            ..overlay
        }
    }
}

/// Leads an outer path to an inner one.
pub fn record_inner_outer_mapping(
    overlay: &mut InstanceOverlay,
    is_inner_outer: bool,
    outer: &QualifiedName,
    inner: &QualifiedName,
)
    requires
        old(overlay).wf(),
    ensures
        final(overlay).wf(),
        final(overlay)@ == led(old(overlay)@, is_inner_outer, outer@, inner@),
{
    let from = outer.to_flat_string();
    let to = inner.to_flat_string();
    if same_text(from.as_str(), to.as_str()) {
        return;
    }
    if is_inner_outer {
        proof {
            overlay.inner_outer_to_parent_inner.lemma_with_named(from@, to);
        }
        overlay.inner_outer_to_parent_inner.insert(from.as_str(), to);
    } else {
        proof {
            overlay.outer_prefix_to_inner.lemma_with_named(from@, to);
        }
        overlay.outer_prefix_to_inner.insert(from.as_str(), to);
    }
}

/// Whether an inner component is one that was missing.
pub open spec fn settles(
    tree: Seq<ClassView>,
    name: Seq<char>,
    inner: InnerView,
    missing: MissingView,
) -> bool {
    missing.name == name && types_fit(
        tree,
        missing.type_text,
        missing.type_def_id,
        inner.type_text,
        inner.type_def_id,
    )
}

/// Whether an inner component is one that was missing.
pub fn can_resolve_missing_inner(
    tree: &ClassTree,
    name: &str,
    inner: &InnerDeclaration,
    missing: &MissingInnerInfo,
) -> (r: bool)
    ensures
        r == settles(tree@, name@, inner@, missing@),
{
    same_text(missing.name.as_str(), name) && is_type_compatible_with_def_id(
        tree,
        missing.type_text.as_str(),
        missing.type_def_id,
        inner.type_text.as_str(),
        inner.type_def_id,
    )
}

/// What is still missing among the first `n` once an inner component is there.
pub open spec fn still_missing(
    tree: Seq<ClassView>,
    list: Seq<MissingView>,
    name: Seq<char>,
    inner: InnerView,
    n: int,
) -> Seq<MissingView>
    decreases n,
{
    if n <= 0 {
        Seq::empty()
    } else if settles(tree, name, inner, list[n - 1]) {
        still_missing(tree, list, name, inner, n - 1)
    } else {
        still_missing(tree, list, name, inner, n - 1).push(list[n - 1])
    }
}

/// The overlay with those among the first `n` led to an inner component that it
/// settles.
pub open spec fn led_to(
    tree: Seq<ClassView>,
    overlay: OverlayView,
    list: Seq<MissingView>,
    name: Seq<char>,
    inner: InnerView,
    n: int,
) -> OverlayView
    decreases n,
{
    if n <= 0 {
        overlay
    } else {
        let front = led_to(tree, overlay, list, name, inner, n - 1);
        if settles(tree, name, inner, list[n - 1]) {
            led(front, list[n - 1].is_inner_outer, list[n - 1].outer_path, inner.qualified_name)
        } else {
            front
        }
    }
}

/// Leads outer components that were missing an inner one to it.
pub fn resolve_pending_outer_refs_for_inner(
    tree: &ClassTree,
    ctx: &mut InstantiateContext,
    overlay: &mut InstanceOverlay,
    name: &str,
    inner: &InnerDeclaration,
)
    requires
        old(ctx).wf(),
        old(overlay).wf(),
    ensures
        final(ctx).wf(),
        final(overlay).wf(),
        final(ctx).same_but_missing(*old(ctx)),
        final(ctx).missing() == still_missing(
            tree@,
            old(ctx).missing(),
            name@,
            inner@,
            old(ctx).missing().len() as int,
        ),
        final(overlay)@ == led_to(
            tree@,
            old(overlay)@,
            old(ctx).missing(),
            name@,
            inner@,
            old(ctx).missing().len() as int,
        ),
{
    let ghost list = ctx.missing();
    let mut remaining: Vec<MissingInnerInfo> = Vec::new();
    let mut i: usize = 0;
    assert(missing_views(remaining@) =~= Seq::<MissingView>::empty());
    while i < ctx.missing_inners.len()
        invariant
            *ctx == *old(ctx),
            overlay.wf(),
            list == ctx.missing(),
            i <= ctx.missing_inners@.len(),
            missing_views(remaining@) == still_missing(tree@, list, name@, inner@, i as int),
            overlay@ == led_to(tree@, old(overlay)@, list, name@, inner@, i as int),
        decreases ctx.missing_inners.len() - i,
    {
        let missing = &ctx.missing_inners[i];
        assert(list[i as int] == missing@);
        let ghost before = missing_views(remaining@);
        if can_resolve_missing_inner(tree, name, inner, missing) {
            record_inner_outer_mapping(
                overlay,
                missing.is_inner_outer,
                &missing.outer_path,
                &inner.qualified_name,
            );
        } else {
            remaining.push(missing.clone());
            assert(missing_views(remaining@) =~= before.push(list[i as int]));
        }
        i = i + 1;
    }
    ctx.missing_inners = remaining;
}

/// What changes as components are instantiated.
#[verifier::ext_equal]
pub struct WalkState {
    /// The inner components of the innermost scope.
    pub scope: ScopeView,
    pub missing: Seq<MissingView>,
    pub overlay: OverlayView,
}

/// The declaration that an inner component makes.
pub open spec fn inner_of(tree: Seq<ClassView>, comp: ComponentView, path: Seq<PartView>) -> InnerView {
    InnerView {
        qualified_name: path,
        type_text: full_type(tree, comp),
        type_def_id: type_definition(tree, comp),
    }
}

/// After noting a component that is inner.
pub open spec fn noted_inner(
    tree: Seq<ClassView>,
    comp: ComponentView,
    path: Seq<PartView>,
    st: WalkState,
) -> WalkState {
    if !comp.inner {
        st
    } else {
        let inner = inner_of(tree, comp, path);
        let n = st.missing.len() as int;
        WalkState {
            scope: with_named(st.scope, comp.name, inner),
            missing: still_missing(tree, st.missing, comp.name, inner, n),
            overlay: led_to(tree, st.overlay, st.missing, comp.name, inner, n),
        }
    }
}

/// After leading a component that is outer to its inner one, or noting that it
/// has none. A component that is both looks outside the scope it is in.
pub open spec fn led_outer(
    tree: Seq<ClassView>,
    comp: ComponentView,
    path: Seq<PartView>,
    outer_scopes: Seq<ScopeView>,
    st: WalkState,
) -> Result<WalkState, InstantiateErrorView> {
    if !comp.outer {
        Ok(st)
    } else {
        match known_span(comp.span, "outer component"@) {
            Err(e) => Err(e),
            Ok(span) => {
                let found = if comp.inner {
                    inner_in(outer_scopes, comp.name)
                } else {
                    inner_in(outer_scopes.push(st.scope), comp.name)
                };
                let own = inner_of(tree, comp, path);
                match found {
                    None => Ok(
                        WalkState {
                            missing: with_missing(
                                st.missing,
                                MissingView {
                                    name: comp.name,
                                    type_text: own.type_text,
                                    type_def_id: own.type_def_id,
                                    span,
                                    outer_path: path,
                                    is_inner_outer: comp.inner,
                                },
                            ),
                            ..st
                        },
                    ),
                    Some(inner) => if types_fit(
                        tree,
                        own.type_text,
                        own.type_def_id,
                        inner.type_text,
                        inner.type_def_id,
                    ) {
                        Ok(
                            WalkState {
                                overlay: led(st.overlay, comp.inner, path, inner.qualified_name),
                                ..st
                            },
                        )
                    } else {
                        Err(
                            InstantiateErrorView::InnerOuterTypeMismatch {
                                name: comp.name,
                                outer_type: own.type_text,
                                inner_type: inner.type_text,
                                span,
                            },
                        )
                    },
                }
            },
        }
    }
}

/// After noting whether a component is inner or outer.
pub open spec fn inner_outer_handled(
    tree: Seq<ClassView>,
    comp: ComponentView,
    path: Seq<PartView>,
    outer_scopes: Seq<ScopeView>,
    st: WalkState,
) -> Result<WalkState, InstantiateErrorView> {
    led_outer(tree, comp, path, outer_scopes, noted_inner(tree, comp, path, st))
}

/// What a context and an overlay hold of what changes.
pub open spec fn walk_state(ctx: InstantiateContext, overlay: InstanceOverlay) -> WalkState {
    WalkState { scope: ctx.scopes().last(), missing: ctx.missing(), overlay: overlay@ }
}

/// Whether a context is the same but for its innermost scope and for what is
/// missing.
pub open spec fn same_place(a: InstantiateContext, b: InstantiateContext) -> bool {
    &&& a.path() == b.path()
    &&& a.mods() == b.mods()
    &&& a.scopes().len() == b.scopes().len()
    &&& a.scopes().drop_last() == b.scopes().drop_last()
    &&& a.frames() == b.frames()
    &&& a.active() == b.active()
    &&& a.allow_partial_instantiation == b.allow_partial_instantiation
    &&& a.depth_limit == b.depth_limit
}

/// Notes whether a component is inner or outer.
pub fn handle_inner_outer(
    tree: &ClassTree,
    comp: &Component,
    ctx: &mut InstantiateContext,
    overlay: &mut InstanceOverlay,
    path: &QualifiedName,
) -> (r: Result<(), InstantiateError>)
    requires
        old(ctx).wf(),
        old(overlay).wf(),
    ensures
        final(ctx).wf(),
        final(overlay).wf(),
        same_place(*final(ctx), *old(ctx)),
        match r {
            Ok(_) => inner_outer_handled(
                tree@,
                comp@,
                path@,
                old(ctx).scopes().drop_last(),
                walk_state(*old(ctx), *old(overlay)),
            ) == Ok::<_, InstantiateErrorView>(walk_state(*final(ctx), *final(overlay))),
            Err(e) => inner_outer_handled(
                tree@,
                comp@,
                path@,
                old(ctx).scopes().drop_last(),
                walk_state(*old(ctx), *old(overlay)),
            ) == Err::<WalkState, _>(e@),
        },
{
    let ghost outer_scopes = ctx.scopes().drop_last();
    let ghost start = walk_state(*ctx, *overlay);
    let full = resolve_inner_outer_type_name(tree, comp);
    let def_id = resolve_type_definition(tree, comp, full.as_str());
    let ghost own = inner_of(tree@, comp@, path@);
    if comp.inner {
        let decl = InnerDeclaration {
            qualified_name: path.clone(),
            type_text: full.clone(),
            type_def_id: def_id,
        };
        assert(decl@ == own);
        ctx.register_inner_decl(comp.name.as_str(), decl);
        let again = InnerDeclaration {
            qualified_name: path.clone(),
            type_text: full.clone(),
            type_def_id: def_id,
        };
        assert(again@ == own);
        resolve_pending_outer_refs_for_inner(tree, ctx, overlay, comp.name.as_str(), &again);
    }
    proof {
        assert(ctx.scopes().drop_last() =~= outer_scopes);
        assert(walk_state(*ctx, *overlay) =~= noted_inner(tree@, comp@, path@, start));
    }
    if !comp.outer {
        return Ok(());
    }
    let span = match location_to_span(comp.span, "outer component") {
        Ok(span) => span,
        Err(e) => {
            return Err(e);
        },
    };
    let ghost noted = walk_state(*ctx, *overlay);
    assert(ctx.scopes() =~= outer_scopes.push(noted.scope));
    let found = if comp.inner {
        ctx.find_parent_inner(comp.name.as_str())
    } else {
        ctx.find_inner(comp.name.as_str())
    };
    match found {
        Some(inner) => {
            if !is_type_compatible_with_def_id(
        tree,
                full.as_str(),
                def_id,
                inner.type_text.as_str(),
                inner.type_def_id,
            ) {
                return Err(
                    InstantiateError::InnerOuterTypeMismatch {
                        name: comp.name.clone(),
                        outer_type: full,
                        inner_type: inner.type_text.clone(),
                        span,
                    },
                );
            }
            record_inner_outer_mapping(overlay, comp.inner, path, &inner.qualified_name);
            Ok(())
        },
        None => {
            ctx.record_missing_inner(
                MissingInnerInfo {
                    name: comp.name.clone(),
                    type_text: full,
                    type_def_id: def_id,
                    span,
                    outer_path: path.clone(),
                    is_inner_outer: comp.inner,
                },
            );
            Ok(())
        },
    }
}

/// An inner component settles every outer component of its name and type that
/// was missing one.
pub proof fn law_inner_settles_what_it_fits(
    tree: Seq<ClassView>,
    list: Seq<MissingView>,
    name: Seq<char>,
    inner: InnerView,
    n: int,
    i: int,
)
    requires
        0 <= n <= list.len(),
        0 <= i < still_missing(tree, list, name, inner, n).len(),
    ensures
        !settles(tree, name, inner, still_missing(tree, list, name, inner, n)[i]),
        exists|k: int| 0 <= k < n && list[k] == still_missing(tree, list, name, inner, n)[i],
    decreases n,
{
    if n > 0 {
        let front = still_missing(tree, list, name, inner, n - 1);
        if settles(tree, name, inner, list[n - 1]) || i < front.len() {
            law_inner_settles_what_it_fits(tree, list, name, inner, n - 1, i);
        }
    }
}

} // verus!
