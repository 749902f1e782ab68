//! Instantiation of a whole model.
use crate::instantiate::context::{
    missing_names, missing_views, root_frame, ActiveView, InnerDeclaration, InnerView,
    InstantiateContext, InstantiateOptions, MissingInnerInfo, MissingView, ScopeView,
    DEFAULT_INSTANTIATION_DEPTH_LIMIT,
};
use crate::instantiate::error::{
    known_span, location_to_span, InstantiateError, InstantiateErrorView,
};
use crate::instantiate::outer::{walk_state, WalkState};
use crate::instantiate::tree::{
    class_named, find_class_in_tree, plain_component, ClassTree, ClassView, Component,
    ComponentView,
};
use crate::instantiate::walk::{
    class_walked, component_walked, instantiate_class, instantiate_component, place_before,
    place_of, rules_of, ClassResult, Place, WalkRules,
};
use crate::ir::instance::{empty_overlay, InstanceOverlay, OverlayView};
use crate::ir::modification::{with_modification, ModificationValue, ModificationView};
use crate::ir::name::{DefId, PartView, QualifiedName};
use crate::ir::name_map::{with_named, Named};
use crate::ir::path_map::Entry;
use crate::span::Span;
use crate::text::{
    copy_text, is_text_less, lemma_text_less_carries_on, lemma_text_less_decides, owned,
    same_text, text_less, views,
};
use vstd::prelude::*;

verus! {

/// A tree of classes and the instances of one of them.
pub struct InstancedTree {
    pub tree: ClassTree,
    pub overlay: InstanceOverlay,
}

impl InstancedTree {
    pub fn new(tree: ClassTree, overlay: InstanceOverlay) -> (r: InstancedTree)
        ensures
            r == (InstancedTree { tree, overlay }),
    {
        InstancedTree { tree, overlay }
    }

    /// The classes.
    pub fn inner(&self) -> (r: &ClassTree)
        ensures
            *r == self.tree,
    {
        &self.tree
    }

    /// The classes, without the instances.
    pub fn into_inner(self) -> (r: ClassTree)
        ensures
            r == self.tree,
    {
        self.tree
    }

    /// The instances.
    pub fn overlay(&self) -> (r: &InstanceOverlay)
        ensures
            *r == self.overlay,
    {
        &self.overlay
    }

    /// The instances, to be changed.
    pub fn overlay_mut(&mut self) -> (r: &mut InstanceOverlay)
        ensures
            *r == old(self).overlay,
            *final(self) == (InstancedTree { tree: old(self).tree, overlay: *final(r) }),
    {
        &mut self.overlay
    }
}

/// What came of an instantiation.
pub enum InstantiationOutcome {
    Success(InstanceOverlay),
    /// Outer components have no inner ones: the model needs a model around it.
    NeedsInner {
        missing_inners: Vec<String>,
        missing_spans: Vec<Span>,
        partial_overlay: InstanceOverlay,
    },
    Error(InstantiateError),
}

/// The mathematical content of an [`InstantiationOutcome`].
pub enum OutcomeView {
    Success(OverlayView),
    NeedsInner {
        missing_inners: Seq<Seq<char>>,
        missing_spans: Seq<Span>,
        partial_overlay: OverlayView,
    },
    Error(InstantiateErrorView),
}

impl View for InstantiationOutcome {
    type V = OutcomeView;

    open spec fn view(&self) -> OutcomeView {
        match *self {
            InstantiationOutcome::Success(overlay) => OutcomeView::Success(overlay@),
            InstantiationOutcome::NeedsInner { missing_inners, missing_spans, partial_overlay } =>
            OutcomeView::NeedsInner {
                missing_inners: views(missing_inners@),
                missing_spans: missing_spans@,
                partial_overlay: partial_overlay@,
            },
            InstantiationOutcome::Error(e) => OutcomeView::Error(e@),
        }
    }
}

impl OutcomeView {
    /// The outcome where missing inner components count as an error.
    pub open spec fn result(self) -> Result<OverlayView, InstantiateErrorView> {
        match self {
            OutcomeView::Success(overlay) => Ok(overlay),
            OutcomeView::NeedsInner { missing_inners, missing_spans, partial_overlay } => Err(
                InstantiateErrorView::MissingInners { names: missing_inners },
            ),
            OutcomeView::Error(e) => Err(e),
        }
    }
}

/// Whether an instantiation gives what is expected.
pub open spec fn instantiated(
    r: Result<InstanceOverlay, InstantiateError>,
    expected: Result<OverlayView, InstantiateErrorView>,
) -> bool {
    match r {
        Ok(overlay) => overlay.wf() && expected == Ok::<_, InstantiateErrorView>(overlay@),
        Err(e) => expected == Err::<OverlayView, _>(e@),
    }
}

impl InstantiationOutcome {
    pub open spec fn wf(self) -> bool {
        match self {
            InstantiationOutcome::Success(overlay) => overlay.wf(),
            InstantiationOutcome::NeedsInner { partial_overlay, .. } => partial_overlay.wf(),
            InstantiationOutcome::Error(_) => true,
        }
    }

    /// The outcome where missing inner components count as an error.
    pub fn into_result(self) -> (r: Result<InstanceOverlay, InstantiateError>)
        requires
            self.wf(),
        ensures
            instantiated(r, self@.result()),
    {
        match self {
            InstantiationOutcome::Success(overlay) => Ok(overlay),
            InstantiationOutcome::NeedsInner { missing_inners, .. } => Err(
                InstantiateError::MissingInners { names: missing_inners },
            ),
            InstantiationOutcome::Error(e) => Err(e),
        }
    }
}

/// The modifications of a root, the first `n` of a list. What is said first
/// stays.
pub open spec fn root_mods(list: Seq<(QualifiedName, ModificationValue)>, n: int) -> Seq<
    Entry<ModificationView>,
>
    decreases n,
{
    if n <= 0 {
        Seq::empty()
    } else {
        with_modification(root_mods(list, n - 1), list[n - 1].0@, list[n - 1].1@)
    }
}

/// The modifications of the root that the options give.
pub open spec fn seeded(options: InstantiateOptions) -> Seq<Entry<ModificationView>> {
    root_mods(options.root_modifications@, options.root_modifications@.len() as int)
}

/// The overlay of a root class before its components.
pub open spec fn root_overlay(class: ClassView) -> OverlayView {
    OverlayView {
        is_partial: class.partial,
        class_type: class.class_type,
        root_description: class.description,
        ..empty_overlay()
    }
}

/// The place of the root, with these inner components around it.
pub open spec fn root_place(scope: ScopeView, mods: Seq<Entry<ModificationView>>) -> Place {
    Place {
        path: Seq::empty(),
        mods,
        outer_scopes: seq![scope],
        frames: seq![root_frame()],
        active: Seq::empty(),
    }
}

/// The rules of a model.
pub open spec fn model_rules(
    tree: Seq<ClassView>,
    class: ClassView,
    depth_limit: usize,
) -> WalkRules {
    WalkRules { tree, depth_limit, allow_partial: class.partial }
}

/// The component made up for a missing inner one.
pub open spec fn synthetic_inner(
    missing: MissingView,
    class_def_id: Option<DefId>,
    span: Span,
) -> ComponentView {
    ComponentView {
        type_def_id: missing.type_def_id,
        def_id: class_def_id,
        inner: true,
        ..plain_component(missing.name, missing.type_text, span)
    }
}

/// Makes up an inner component. The position of the outer one has to be known.
fn create_synthetic_inner_component(missing: &MissingInnerInfo, class_def_id: Option<DefId>) -> (r:
    Result<Component, InstantiateError>)
    ensures
        match r {
            Ok(c) => known_span(missing@.span, "synthetic inner component"@) is Ok && c.wf() && c@
                == synthetic_inner(missing@, class_def_id, missing@.span),
            Err(e) => known_span(missing@.span, "synthetic inner component"@) == Err::<Span, _>(
                e@,
            ),
        },
{
    match location_to_span(missing.span, "synthetic inner component") {
        Ok(span) => {
            let mut c = Component::plain(missing.name.as_str(), missing.type_text.as_str(), span);
            c.type_def_id = missing.type_def_id;
            c.def_id = class_def_id;
            c.inner = true;
            Ok(c)
        },
        Err(e) => Err(e),
    }
}

/// Why a second attempt failed.
pub enum SyntheticInnerError {
    /// Outer components still have no inner ones.
    StillMissing { names: Vec<String> },
    /// The position of an outer component is not known.
    SourceContext(InstantiateError),
    InstantiationFailed,
}

pub enum RetryView {
    StillMissing { names: Seq<Seq<char>> },
    SourceContext(InstantiateErrorView),
    InstantiationFailed,
}

impl View for SyntheticInnerError {
    type V = RetryView;

    open spec fn view(&self) -> RetryView {
        match *self {
            SyntheticInnerError::StillMissing { names } => RetryView::StillMissing {
                names: views(names@),
            },
            SyntheticInnerError::SourceContext(e) => RetryView::SourceContext(e@),
            SyntheticInnerError::InstantiationFailed => RetryView::InstantiationFailed,
        }
    }
}

/// After making up inner components for the first `n` that were missing. Those
/// whose type is not known are passed over.
pub open spec fn made_up(
    rules: WalkRules,
    mods: Seq<Entry<ModificationView>>,
    missing: Seq<MissingView>,
    n: int,
    st: WalkState,
) -> Result<WalkState, RetryView>
    decreases n,
{
    if n <= 0 {
        Ok(st)
    } else {
        match made_up(rules, mods, missing, n - 1, st) {
            Err(e) => Err(e),
            Ok(before) => {
                let mi = missing[n - 1];
                match class_named(rules.tree, mi.type_text) {
                    None => Ok(before),
                    Some(class) => match known_span(mi.span, "synthetic inner component"@) {
                        Err(e) => Err(RetryView::SourceContext(e)),
                        Ok(span) => {
                            let path = seq![(mi.name, Seq::<i64>::empty())];
                            let noted = WalkState {
                                scope: with_named(
                                    before.scope,
                                    mi.name,
                                    InnerView {
                                        qualified_name: path,
                                        type_text: mi.type_text,
                                        type_def_id: mi.type_def_id,
                                    },
                                ),
                                ..before
                            };
                            let place = Place {
                                path,
                                mods,
                                outer_scopes: Seq::empty(),
                                frames: seq![root_frame()],
                                active: Seq::empty(),
                            };
                            match component_walked(
                                rules,
                                place,
                                synthetic_inner(mi, rules.tree[class].def_id, span),
                                noted,
                            ) {
                                Err(_) => Err(RetryView::InstantiationFailed),
                                Ok(after) => Ok(after),
                            }
                        },
                    },
                }
            },
        }
    }
}

/// A second attempt, with inner components made up around the model. The
/// modifications of the root hold in it as in the first.
pub open spec fn retried(
    tree: Seq<ClassView>,
    model: int,
    missing: Seq<MissingView>,
    depth_limit: usize,
    mods: Seq<Entry<ModificationView>>,
) -> Result<OverlayView, RetryView> {
    let rules = model_rules(tree, tree[model], depth_limit);
    let start = WalkState {
        scope: Seq::empty(),
        missing: Seq::empty(),
        overlay: root_overlay(tree[model]),
    };
    match made_up(rules, mods, missing, missing.len() as int, start) {
        Err(e) => Err(e),
        Ok(st) => match class_walked(
            rules,
            root_place(st.scope, mods),
            model,
            st.missing,
            st.overlay,
        ) {
            Err(_) => Err(RetryView::InstantiationFailed),
            Ok(r) => if r.missing.len() > 0 {
                Err(
                    RetryView::StillMissing {
                        names: missing_names(r.missing, r.missing.len() as int),
                    },
                )
            } else {
                Ok(r.overlay)
            },
        },
    }
}

proof fn lemma_made_up_fails(
    rules: WalkRules,
    mods: Seq<Entry<ModificationView>>,
    missing: Seq<MissingView>,
    k: int,
    n: int,
    st: WalkState,
)
    requires
        0 <= k <= n,
        made_up(rules, mods, missing, k, st) is Err,
    ensures
        made_up(rules, mods, missing, n, st) == made_up(rules, mods, missing, k, st),
    decreases n,
{
    if k < n {
        lemma_made_up_fails(rules, mods, missing, k, n - 1, st);
    }
}

fn start_overlay(tree: &ClassTree, model: usize) -> (overlay: InstanceOverlay)
    requires
        model < tree@.len(),
    ensures
        overlay.wf(),
        overlay@ == root_overlay(tree@[model as int]),
{
    assert(tree@[model as int] == tree.classes@[model as int]@);
    let mut overlay = InstanceOverlay::new();
    overlay.is_partial = tree.classes[model].partial;
    overlay.class_type = tree.classes[model].class_type;
    overlay.root_description = copy_text(&tree.classes[model].description);
    assert(overlay@ =~= root_overlay(tree@[model as int]));
    overlay
}

/// A context at the root with these modifications and one scope.
pub open spec fn at_root(
    ctx: InstantiateContext,
    rules: WalkRules,
    mods: Seq<Entry<ModificationView>>,
) -> bool {
    &&& ctx.wf()
    &&& ctx.path() == Seq::<PartView>::empty()
    &&& ctx.scopes().len() == 1
    &&& ctx.frames() == seq![root_frame()]
    &&& ctx.active() == Seq::<ActiveView>::empty()
    &&& ctx.mods() == mods
    &&& ctx.depth_limit == rules.depth_limit
    &&& ctx.allow_partial_instantiation == rules.allow_partial
}

fn make_up_inner(
    tree: &ClassTree,
    missing: &MissingInnerInfo,
    class: usize,
    ctx: &mut InstantiateContext,
    overlay: &mut InstanceOverlay,
    Ghost(rules): Ghost<WalkRules>,
    Ghost(mods): Ghost<Seq<Entry<ModificationView>>>,
) -> (r: Result<(), SyntheticInnerError>)
    requires
        tree.wf(),
        rules.tree == tree@,
        class < tree@.len(),
        class_named(tree@, missing@.type_text) == Some(class as int),
        at_root(*old(ctx), rules, mods),
        old(overlay).wf(),
    ensures
        ({
            let expected = made_up(rules, mods, seq![missing@], 1, walk_state(*old(ctx), *old(overlay)));
            match r {
                Ok(_) => at_root(*final(ctx), rules, mods) && final(overlay).wf() && expected == Ok::<
                    _,
                    RetryView,
                >(walk_state(*final(ctx), *final(overlay))),
                Err(e) => expected == Err::<WalkState, _>(e@),
            }
        }),
{
    let ghost before = walk_state(*ctx, *overlay);
    let ghost mi = missing@;
    let ghost path = seq![(mi.name, Seq::<i64>::empty())];
    proof {
        reveal_with_fuel(made_up, 2);
        assert(tree@[class as int] == tree.classes@[class as int]@);
    }
    let synthetic = match create_synthetic_inner_component(missing, tree.classes[class].def_id) {
        Ok(c) => c,
        Err(e) => {
            return Err(SyntheticInnerError::SourceContext(e));
        },
    };
    let decl = InnerDeclaration {
        qualified_name: QualifiedName::from_ident(missing.name.as_str()),
        type_text: missing.type_text.clone(),
        type_def_id: missing.type_def_id,
    };
    let ghost inner = decl@;
    assert(inner.qualified_name =~= path);
    ctx.register_inner_in_root(missing.name.as_str(), decl);
    ctx.push_path(missing.name.as_str());
    proof {
        assert(ctx.path() =~= path);
        assert(ctx.scopes().drop_last() =~= Seq::<ScopeView>::empty());
        assert(ctx.scopes().last() == with_named(before.scope, mi.name, inner));
        assert(walk_state(*ctx, *overlay) =~= (WalkState {
            scope: with_named(before.scope, mi.name, inner),
            ..before
        }));
        assert(place_of(*ctx) == (Place {
            path,
            mods,
            outer_scopes: Seq::empty(),
            frames: seq![root_frame()],
            active: Seq::empty(),
        }));
        assert(rules_of(*tree, *ctx) == rules);
    }
    match instantiate_component(tree, &synthetic, ctx, overlay) {
        Ok(_) => {},
        Err(_) => {
            return Err(SyntheticInnerError::InstantiationFailed);
        },
    }
    let ghost after = walk_state(*ctx, *overlay);
    ctx.pop_path();
    proof {
        assert(ctx.path() =~= Seq::<PartView>::empty());
        assert(walk_state(*ctx, *overlay) == after);
    }
    Ok(())
}

/// Tries again with inner components made up, under the same options.
fn retry_with_synthetic_inners(
    tree: &ClassTree,
    model: usize,
    missing: &Vec<MissingInnerInfo>,
    options: &InstantiateOptions,
) -> (r: Result<InstanceOverlay, SyntheticInnerError>)
    requires
        tree.wf(),
        model < tree@.len(),
    ensures
        match r {
            Ok(overlay) => overlay.wf() && retried(
                tree@,
                model as int,
                missing_views(missing@),
                options.depth_limit,
                seeded(*options),
            ) == Ok::<_, RetryView>(overlay@),
            Err(e) => retried(
                tree@,
                model as int,
                missing_views(missing@),
                options.depth_limit,
                seeded(*options),
            ) == Err::<OverlayView, _>(e@),
        },
{
    let ghost list = missing_views(missing@);
    let ghost mods = seeded(*options);
    let depth_limit: usize = options.depth_limit;
    let ghost rules = model_rules(tree@, tree@[model as int], depth_limit);
    let mut ctx = InstantiateContext::with_options(depth_limit);
    seed_modifications(&mut ctx, &options.root_modifications);
    let mut overlay = start_overlay(tree, model);
    assert(tree@[model as int] == tree.classes@[model as int]@);
    ctx.set_allow_partial_instantiation(tree.classes[model].partial);
    let ghost start = WalkState {
        scope: Seq::empty(),
        missing: Seq::empty(),
        overlay: root_overlay(tree@[model as int]),
    };
    assert(walk_state(ctx, overlay) =~= start);
    let mut i: usize = 0;
    while i < missing.len()
        invariant
            tree.wf(),
            model < tree@.len(),
            mods == seeded(*options),
            depth_limit == options.depth_limit,
            rules == model_rules(tree@, tree@[model as int], depth_limit),
            list == missing_views(missing@),
            start == (WalkState {
                scope: Seq::empty(),
                missing: Seq::empty(),
                overlay: root_overlay(tree@[model as int]),
            }),
            i <= missing@.len(),
            at_root(ctx, rules, mods),
            overlay.wf(),
            made_up(rules, mods, list, i as int, start) == Ok::<_, RetryView>(walk_state(ctx, overlay)),
        decreases missing.len() - i,
    {
        let mi = &missing[i];
        assert(list[i as int] == mi@);
        let ghost before = walk_state(ctx, overlay);
        match find_class_in_tree(tree, mi.type_text.as_str()) {
            None => {},
            Some(class) => {
                proof {
                    reveal_with_fuel(made_up, 2);
                    assert(seq![mi@][0] == mi@);
                    assert(made_up(rules, mods, list, i + 1, start) == made_up(
                        rules,
                        mods,
                        seq![mi@],
                        1,
                        before,
                    ));
                }
                match make_up_inner(
                    tree,
                    mi,
                    class,
                    &mut ctx,
                    &mut overlay,
                    Ghost(rules),
                    Ghost(mods),
                ) {
                    Ok(_) => {},
                    Err(e) => {
                        proof {
                            lemma_made_up_fails(rules, mods, list, i + 1, list.len() as int, start);
                        }
                        return Err(e);
                    },
                }
            },
        }
        i = i + 1;
    }
    let ghost st = walk_state(ctx, overlay);
    proof {
        assert(ctx.scopes() =~= seq![st.scope]);
        assert(place_before(ctx) == root_place(st.scope, mods));
        assert(rules_of(*tree, ctx) == rules);
    }
    match instantiate_class(tree, model, &mut ctx, &mut overlay) {
        Ok(_) => {},
        Err(_) => {
            return Err(SyntheticInnerError::InstantiationFailed);
        },
    }
    if ctx.has_missing_inners() {
        return Err(SyntheticInnerError::StillMissing { names: ctx.missing_inner_names() });
    }
    Ok(overlay)
}

/// A list in order with one more text in its place; a text that is there is not
/// put there again.
pub open spec fn put_in_order(list: Seq<Seq<char>>, text: Seq<char>) -> Seq<Seq<char>>
    decreases list.len(),
{
    if list.len() == 0 {
        seq![text]
    } else if list.last() == text {
        list
    } else if text_less(list.last(), text) {
        list.push(text)
    } else {
        put_in_order(list.drop_last(), text).push(list.last())
    }
}

/// The names of the first `n`, in order, each once.
pub open spec fn ordered_names(missing: Seq<MissingView>, n: int) -> Seq<Seq<char>>
    decreases n,
{
    if n <= 0 {
        Seq::empty()
    } else {
        put_in_order(ordered_names(missing, n - 1), missing[n - 1].name)
    }
}

/// Whether texts stand in order, each once.
pub open spec fn texts_in_order(list: Seq<Seq<char>>) -> bool {
    forall|i: int, j: int|
        0 <= i < j < list.len() ==> text_less(#[trigger] list[i], #[trigger] list[j])
}

proof fn lemma_put_contains(list: Seq<Seq<char>>, text: Seq<char>, t: Seq<char>)
    ensures
        put_in_order(list, text).contains(t) <==> (t == text || list.contains(t)),
    decreases list.len(),
{
    let r = put_in_order(list, text);
    if list.len() == 0 {
        assert(r[0] == text);
    } else if list.last() == text {
        assert(list[list.len() - 1] == text);
    } else if text_less(list.last(), text) {
        assert(r[list.len() as int] == text);
        if list.contains(t) {
            let k = choose|k: int| 0 <= k < list.len() && list[k] == t;
            assert(r[k] == t);
        }
    } else {
        let front = list.drop_last();
        let put = put_in_order(front, text);
        lemma_put_contains(front, text, t);
        assert(r[put.len() as int] == list.last());
        assert(list[list.len() - 1] == list.last());
        if put.contains(t) {
            let k = choose|k: int| 0 <= k < put.len() && put[k] == t;
            assert(r[k] == t);
        }
        if front.contains(t) {
            let k = choose|k: int| 0 <= k < front.len() && front[k] == t;
            assert(list[k] == t);
        }
        if list.contains(t) && t != list.last() {
            let k = choose|k: int| 0 <= k < list.len() && list[k] == t;
            assert(front[k] == t);
        }
        if r.contains(t) {
            let k = choose|k: int| 0 <= k < r.len() && r[k] == t;
            if k < put.len() {
                assert(put[k] == t);
            }
        }
    }
}

proof fn lemma_put_in_order(list: Seq<Seq<char>>, text: Seq<char>)
    requires
        texts_in_order(list),
    ensures
        texts_in_order(put_in_order(list, text)),
    decreases list.len(),
{
    let r = put_in_order(list, text);
    if list.len() > 0 && list.last() != text {
        if text_less(list.last(), text) {
            assert forall|i: int, j: int| 0 <= i < j < r.len() implies text_less(
                #[trigger] r[i],
                #[trigger] r[j],
            ) by {
                if j < list.len() {
                    assert(text_less(list[i], list[j]));
                } else if i < list.len() - 1 {
                    assert(text_less(list[i], list[list.len() - 1]));
                    lemma_text_less_carries_on(list[i], list.last(), text);
                }
            }
        } else {
            let front = list.drop_last();
            let put = put_in_order(front, text);
            lemma_text_less_decides(list.last(), text);
            assert forall|i: int, j: int| 0 <= i < j < front.len() implies text_less(
                #[trigger] front[i],
                #[trigger] front[j],
            ) by {
                assert(text_less(list[i], list[j]));
            }
            lemma_put_in_order(front, text);
            assert forall|i: int, j: int| 0 <= i < j < r.len() implies text_less(
                #[trigger] r[i],
                #[trigger] r[j],
            ) by {
                if j < put.len() {
                    assert(text_less(put[i], put[j]));
                } else {
                    assert(put.contains(put[i]));
                    lemma_put_contains(front, text, put[i]);
                    if put[i] != text {
                        let k = choose|k: int| 0 <= k < front.len() && front[k] == put[i];
                        assert(text_less(list[k], list[list.len() - 1]));
                    }
                }
            }
        }
    }
}

/// The names that were made up stand in order, each once.
pub proof fn law_made_up_names_in_order(missing: Seq<MissingView>, n: int)
    requires
        0 <= n <= missing.len(),
    ensures
        texts_in_order(ordered_names(missing, n)),
    decreases n,
{
    if n > 0 {
        law_made_up_names_in_order(missing, n - 1);
        lemma_put_in_order(ordered_names(missing, n - 1), missing[n - 1].name);
    }
}

/// The names that were made up are the names that were missing.
pub proof fn law_made_up_names_were_missing(missing: Seq<MissingView>, n: int, name: Seq<char>)
    requires
        0 <= n <= missing.len(),
    ensures
        ordered_names(missing, n).contains(name) <==> exists|k: int|
            0 <= k < n && (#[trigger] missing[k]).name == name,
    decreases n,
{
    if n > 0 {
        law_made_up_names_were_missing(missing, n - 1, name);
        lemma_put_contains(ordered_names(missing, n - 1), missing[n - 1].name, name);
        if exists|k: int| 0 <= k < n && (#[trigger] missing[k]).name == name {
            let k = choose|k: int| 0 <= k < n && (#[trigger] missing[k]).name == name;
            if k == n - 1 {
                assert(missing[n - 1].name == name);
            }
        }
    }
}

fn put_text_in_order(list: &mut Vec<String>, text: &str)
    ensures
        views(final(list)@) == put_in_order(views(old(list)@), text@),
    decreases old(list)@.len(),
{
    let ghost before = views(list@);
    if list.len() == 0 {
        list.push(owned(text));
        assert(views(list@) =~= seq![text@]);
        return;
    }
    let last: usize = list.len() - 1;
    assert(before.last() == list@[last as int]@);
    if same_text(list[last].as_str(), text) {
        return;
    }
    if is_text_less(list[last].as_str(), text) {
        list.push(owned(text));
        assert(views(list@) =~= before.push(text@));
        return;
    }
    let top = list.pop().unwrap();
    assert(views(list@) =~= before.drop_last());
    put_text_in_order(list, text);
    let ghost put = views(list@);
    list.push(top);
    assert(views(list@) =~= put.push(before.last()));
}

fn make_ordered_names(missing: &Vec<MissingInnerInfo>) -> (names: Vec<String>)
    ensures
        views(names@) == ordered_names(missing_views(missing@), missing@.len() as int),
{
    let ghost list = missing_views(missing@);
    let mut names: Vec<String> = Vec::new();
    let mut i: usize = 0;
    assert(views(names@) =~= Seq::<Seq<char>>::empty());
    while i < missing.len()
        invariant
            i <= missing@.len(),
            list == missing_views(missing@),
            views(names@) == ordered_names(list, i as int),
        decreases missing.len() - i,
    {
        assert(list[i as int] == missing@[i as int]@);
        put_text_in_order(&mut names, missing[i].name.as_str());
        i = i + 1;
    }
    names
}

/// The position that goes with a name: that of the last of the first `n` with
/// it.
pub open spec fn span_of_missing(missing: Seq<MissingView>, name: Seq<char>, n: int) -> Option<Span>
    decreases n,
{
    if n <= 0 {
        None
    } else if missing[n - 1].name == name {
        Some(missing[n - 1].span)
    } else {
        span_of_missing(missing, name, n - 1)
    }
}

/// The positions that go with the first `k` names, where they have one.
pub open spec fn spans_of_names(missing: Seq<MissingView>, names: Seq<Seq<char>>, k: int) -> Seq<Span>
    decreases k,
{
    if k <= 0 {
        Seq::empty()
    } else {
        match span_of_missing(missing, names[k - 1], missing.len() as int) {
            Some(span) => spans_of_names(missing, names, k - 1).push(span),
            None => spans_of_names(missing, names, k - 1),
        }
    }
}

fn find_missing_span(missing: &Vec<MissingInnerInfo>, name: &str) -> (r: Option<Span>)
    ensures
        r == span_of_missing(missing_views(missing@), name@, missing@.len() as int),
{
    let ghost list = missing_views(missing@);
    let mut i: usize = missing.len();
    while i > 0
        invariant
            i <= missing@.len(),
            list == missing_views(missing@),
            span_of_missing(list, name@, missing@.len() as int) == span_of_missing(
                list,
                name@,
                i as int,
            ),
        decreases i,
    {
        assert(list[i - 1] == missing@[i - 1]@);
        if same_text(missing[i - 1].name.as_str(), name) {
            return Some(missing[i - 1].span);
        }
        i = i - 1;
    }
    None
}

fn find_missing_spans(missing: &Vec<MissingInnerInfo>, names: &Vec<String>) -> (spans: Vec<Span>)
    ensures
        spans@ == spans_of_names(missing_views(missing@), views(names@), names@.len() as int),
{
    let mut spans: Vec<Span> = Vec::new();
    let mut k: usize = 0;
    while k < names.len()
        invariant
            k <= names@.len(),
            spans@ == spans_of_names(missing_views(missing@), views(names@), k as int),
        decreases names.len() - k,
    {
        assert(views(names@)[k as int] == names@[k as int]@);
        if let Some(span) = find_missing_span(missing, names[k].as_str()) {
            spans.push(span);
        }
        k = k + 1;
    }
    spans
}

/// What comes of a model whose first attempt left outer components without inner
/// ones.
pub open spec fn outcome_of_retry(
    tree: Seq<ClassView>,
    model: int,
    first: ClassResult,
    depth_limit: usize,
    mods: Seq<Entry<ModificationView>>,
) -> OutcomeView {
    let missing = first.missing;
    let n = missing.len() as int;
    match retried(tree, model, missing, depth_limit, mods) {
        Ok(overlay) => OutcomeView::Success(
            OverlayView { synthesized_inners: ordered_names(missing, n), ..overlay },
        ),
        Err(RetryView::StillMissing { names }) => OutcomeView::NeedsInner {
            missing_inners: names,
            missing_spans: spans_of_names(missing, names, names.len() as int),
            partial_overlay: first.overlay,
        },
        Err(RetryView::InstantiationFailed) => OutcomeView::NeedsInner {
            missing_inners: missing_names(missing, n),
            missing_spans: missing.map_values(|m: MissingView| m.span),
            partial_overlay: first.overlay,
        },
        Err(RetryView::SourceContext(e)) => OutcomeView::Error(e),
    }
}

/// What comes of a model.
pub open spec fn outcome_of(
    tree: Seq<ClassView>,
    model_name: Seq<char>,
    depth_limit: usize,
    mods: Seq<Entry<ModificationView>>,
) -> OutcomeView {
    match class_named(tree, model_name) {
        None => OutcomeView::Error(InstantiateErrorView::ModelNotFound { name: model_name }),
        Some(model) => match class_walked(
            model_rules(tree, tree[model], depth_limit),
            root_place(Seq::empty(), mods),
            model,
            Seq::empty(),
            root_overlay(tree[model]),
        ) {
            Err(e) => OutcomeView::Error(e),
            Ok(first) => if first.missing.len() > 0 {
                outcome_of_retry(tree, model, first, depth_limit, mods)
            } else {
                OutcomeView::Success(first.overlay)
            },
        },
    }
}

/// The outcome under some options.
pub open spec fn outcome_with(
    tree: Seq<ClassView>,
    model_name: Seq<char>,
    options: InstantiateOptions,
) -> OutcomeView {
    outcome_of(tree, model_name, options.depth_limit, seeded(options))
}

/// The outcome where nothing else is said.
pub open spec fn default_outcome(tree: Seq<ClassView>, model_name: Seq<char>) -> OutcomeView {
    outcome_of(
        tree,
        model_name,
        DEFAULT_INSTANTIATION_DEPTH_LIMIT,
        Seq::empty(),
    )
}

/// Seeds a context with the modifications of a root.
fn seed_modifications(ctx: &mut InstantiateContext, list: &Vec<(QualifiedName, ModificationValue)>)
    requires
        old(ctx).wf(),
        old(ctx).mods() == Seq::<Entry<ModificationView>>::empty(),
    ensures
        final(ctx).wf(),
        final(ctx).mods() == root_mods(list@, list@.len() as int),
        final(ctx).same_but_mods(*old(ctx)),
{
    let mut i: usize = 0;
    while i < list.len()
        invariant
            ctx.wf(),
            i <= list@.len(),
            ctx.mods() == root_mods(list@, i as int),
            ctx.same_but_mods(*old(ctx)),
        decreases list.len() - i,
    {
        ctx.add_modification(list[i].0.clone(), list[i].1.clone());
        i = i + 1;
    }
}

fn resolve_missing(
    tree: &ClassTree,
    model: usize,
    ctx: InstantiateContext,
    overlay: InstanceOverlay,
    options: &InstantiateOptions,
) -> (r: InstantiationOutcome)
    requires
        tree.wf(),
        model < tree@.len(),
        overlay.wf(),
    ensures
        r.wf(),
        r@ == outcome_of_retry(
            tree@,
            model as int,
            ClassResult { missing: ctx.missing(), overlay: overlay@ },
            options.depth_limit,
            seeded(*options),
        ),
{
    let missing = &ctx.missing_inners;
    match retry_with_synthetic_inners(tree, model, missing, options) {
        Ok(retry_overlay) => {
            let mut retry_overlay = retry_overlay;
            let ghost before = retry_overlay@;
            retry_overlay.synthesized_inners = make_ordered_names(missing);
            assert(retry_overlay@ =~= (OverlayView {
                synthesized_inners: ordered_names(
                    missing_views(missing@),
                    missing@.len() as int,
                ),
                ..before
            }));
            InstantiationOutcome::Success(retry_overlay)
        },
        Err(SyntheticInnerError::StillMissing { names }) => {
            let missing_spans = find_missing_spans(missing, &names);
            InstantiationOutcome::NeedsInner {
                missing_inners: names,
                missing_spans,
                partial_overlay: overlay,
            }
        },
        Err(SyntheticInnerError::InstantiationFailed) => InstantiationOutcome::NeedsInner {
            missing_inners: ctx.missing_inner_names(),
            missing_spans: ctx.missing_inner_spans(),
            partial_overlay: overlay,
        },
        Err(SyntheticInnerError::SourceContext(e)) => InstantiationOutcome::Error(e),
    }
}

/// Instantiates a model under some options and says what came of it. Where outer
/// components have no inner ones, inner ones are made up and the model is
/// instantiated again.
pub fn instantiate_model_with_outcome_options(
    tree: &ClassTree,
    model_name: &str,
    options: InstantiateOptions,
) -> (r: InstantiationOutcome)
    requires
        tree.wf(),
    ensures
        r.wf(),
        r@ == outcome_with(tree@, model_name@, options),
{
    let mut ctx = InstantiateContext::with_options(options.depth_limit);
    seed_modifications(&mut ctx, &options.root_modifications);
    let model: usize = match find_class_in_tree(tree, model_name) {
        Some(model) => model,
        None => {
            return InstantiationOutcome::Error(
                InstantiateError::ModelNotFound { name: owned(model_name) },
            );
        },
    };
    let mut overlay = start_overlay(tree, model);
    assert(tree@[model as int] == tree.classes@[model as int]@);
    ctx.set_allow_partial_instantiation(tree.classes[model].partial);
    proof {
        assert(ctx.scopes() =~= seq![Seq::<Named<InnerView>>::empty()]);
        assert(place_before(ctx) == root_place(Seq::empty(), ctx.mods()));
    }
    match instantiate_class(tree, model, &mut ctx, &mut overlay) {
        Ok(_) => {},
        Err(e) => {
            return InstantiationOutcome::Error(e);
        },
    }
    if ctx.has_missing_inners() {
        resolve_missing(tree, model, ctx, overlay, &options)
    } else {
        InstantiationOutcome::Success(overlay)
    }
}

/// Instantiates a model and says what came of it.
pub fn instantiate_model_with_outcome(tree: &ClassTree, model_name: &str) -> (r:
    InstantiationOutcome)
    requires
        tree.wf(),
    ensures
        r.wf(),
        r@ == default_outcome(tree@, model_name@),
{
    instantiate_model_with_outcome_options(tree, model_name, InstantiateOptions::default())
}

/// Instantiates a model under some options. Missing inner components are an
/// error.
pub fn instantiate_model_with_options(
    tree: &ClassTree,
    model_name: &str,
    options: InstantiateOptions,
) -> (r: Result<InstanceOverlay, InstantiateError>)
    requires
        tree.wf(),
    ensures
        instantiated(r, outcome_with(tree@, model_name@, options).result()),
{
    instantiate_model_with_outcome_options(tree, model_name, options).into_result()
}

/// Instantiates a model. Missing inner components are an error.
pub fn instantiate_model(tree: &ClassTree, model_name: &str) -> (r: Result<
    InstanceOverlay,
    InstantiateError,
>)
    requires
        tree.wf(),
    ensures
        instantiated(r, default_outcome(tree@, model_name@).result()),
{
    instantiate_model_with_outcome(tree, model_name).into_result()
}

/// Whether an instantiation gives the tree back with what is expected.
pub open spec fn instanced(
    r: Result<InstancedTree, InstantiateError>,
    tree: ClassTree,
    expected: Result<OverlayView, InstantiateErrorView>,
) -> bool {
    match r {
        Ok(t) => t.tree == tree && t.overlay.wf() && expected == Ok::<_, InstantiateErrorView>(t.overlay@),
        Err(e) => expected == Err::<OverlayView, _>(e@),
    }
}

/// A tree with the instances of one of its models, under some options.
pub fn instantiate_with_options(resolved: ClassTree, model_name: &str, options: InstantiateOptions) -> (r:
    Result<InstancedTree, InstantiateError>)
    requires
        resolved.wf(),
    ensures
        instanced(r, resolved, outcome_with(resolved@, model_name@, options).result()),
{
    match instantiate_model_with_options(&resolved, model_name, options) {
        Ok(overlay) => Ok(InstancedTree::new(resolved, overlay)),
        Err(e) => Err(e),
    }
}

/// A tree with the instances of one of its models.
pub fn instantiate(resolved: ClassTree, model_name: &str) -> (r: Result<
    InstancedTree,
    InstantiateError,
>)
    requires
        resolved.wf(),
    ensures
        instanced(r, resolved, default_outcome(resolved@, model_name@).result()),
{
    match instantiate_model(&resolved, model_name) {
        Ok(overlay) => Ok(InstancedTree::new(resolved, overlay)),
        Err(e) => Err(e),
    }
}

} // verus!
