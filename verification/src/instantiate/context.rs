//! What an instantiation keeps in mind while it walks through a model.
use crate::instantiate::error::{InstantiateError, InstantiateErrorView};
use crate::instantiate::tree::{ClassDef, ClassView};
use crate::ir::instance::{Causality, Variability};
use crate::ir::modification::{
    lemma_modification_views, modification_views, with_modification, ModificationEnvironment,
    ModificationValue, ModificationView,
};
use crate::ir::name::{copy_parts, path_text, path_view, DefId, NamePart, PartView, QualifiedName};
use crate::ir::name_map::{value_of_name, NameMap, Named};
use crate::ir::path_map::Entry;
use crate::span::Span;
use crate::text::{join, join_text, owned, views};
use vstd::prelude::*;

verus! {

/// How deep components may be nested unless something else is said.
pub const DEFAULT_INSTANTIATION_DEPTH_LIMIT: usize = 30;

/// How to instantiate.
pub struct InstantiateOptions {
    pub depth_limit: usize,
    /// Modifications of the root.
    pub root_modifications: Vec<(QualifiedName, ModificationValue)>,
}

impl Default for InstantiateOptions {
    fn default() -> (o: InstantiateOptions)
        ensures
            o.depth_limit == DEFAULT_INSTANTIATION_DEPTH_LIMIT,
            o.root_modifications@.len() == 0,
    {
        InstantiateOptions {
            depth_limit: DEFAULT_INSTANTIATION_DEPTH_LIMIT,
            root_modifications: Vec::new(),
        }
    }
}

/// An outer component without an inner one.
#[derive(Debug)]
pub struct MissingInnerInfo {
    pub name: String,
    pub type_text: String,
    pub type_def_id: Option<DefId>,
    pub span: Span,
    pub outer_path: QualifiedName,
    pub is_inner_outer: bool,
}

/// The mathematical content of a [`MissingInnerInfo`].
pub struct MissingView {
    pub name: Seq<char>,
    pub type_text: Seq<char>,
    pub type_def_id: Option<DefId>,
    pub span: Span,
    pub outer_path: Seq<PartView>,
    pub is_inner_outer: bool,
}

impl View for MissingInnerInfo {
    type V = MissingView;

    open spec fn view(&self) -> MissingView {
        MissingView {
            name: self.name@,
            type_text: self.type_text@,
            type_def_id: self.type_def_id,
            span: self.span,
            outer_path: self.outer_path@,
            is_inner_outer: self.is_inner_outer,
        }
    }
}

impl Clone for MissingInnerInfo {
    fn clone(&self) -> (r: Self)
        ensures
            r@ == self@,
    {
        MissingInnerInfo {
            name: self.name.clone(),
            type_text: self.type_text.clone(),
            type_def_id: self.type_def_id,
            span: self.span,
            outer_path: self.outer_path.clone(),
            is_inner_outer: self.is_inner_outer,
        }
    }
}

/// The contents of a list of missing inner declarations.
pub open spec fn missing_views(list: Seq<MissingInnerInfo>) -> Seq<MissingView> {
    Seq::new(list.len(), |i: int| list[i]@)
}

/// An inner component.
#[derive(Debug)]
pub struct InnerDeclaration {
    pub qualified_name: QualifiedName,
    pub type_text: String,
    pub type_def_id: Option<DefId>,
}

/// The mathematical content of an [`InnerDeclaration`].
pub struct InnerView {
    pub qualified_name: Seq<PartView>,
    pub type_text: Seq<char>,
    pub type_def_id: Option<DefId>,
}

impl View for InnerDeclaration {
    type V = InnerView;

    open spec fn view(&self) -> InnerView {
        InnerView {
            qualified_name: self.qualified_name@,
            type_text: self.type_text@,
            type_def_id: self.type_def_id,
        }
    }
}

/// The inner components of one scope.
pub type ScopeView = Seq<Named<InnerView>>;

/// A class that is being instantiated.
#[derive(Debug)]
pub struct InstantiationFrame {
    pub key: DefId,
    pub class_name: String,
    pub instance_path: String,
}

/// The mathematical content of an [`InstantiationFrame`].
pub struct ActiveView {
    pub key: DefId,
    pub class_name: Seq<char>,
    pub instance_path: Seq<char>,
}

impl View for InstantiationFrame {
    type V = ActiveView;

    open spec fn view(&self) -> ActiveView {
        ActiveView {
            key: self.key,
            class_name: self.class_name@,
            instance_path: self.instance_path@,
        }
    }
}

/// The contents of a list of classes that are being instantiated.
pub open spec fn active_views(list: Seq<InstantiationFrame>) -> Seq<ActiveView> {
    Seq::new(list.len(), |i: int| list[i]@)
}

/// What a component hands on to the components inside it.
#[derive(Debug)]
pub struct ScopeFrame {
    pub variability: Option<Variability>,
    pub causality: Option<Causality>,
    pub flow: bool,
    pub stream: bool,
    pub expandable: bool,
    /// The size of an equality constraint and the path of its record.
    pub overconstrained: Option<(usize, String)>,
    pub protected: bool,
    /// Replaced classes and what stands in their place.
    pub overrides: Vec<(DefId, DefId)>,
}

/// The mathematical content of a [`ScopeFrame`].
pub struct FrameView {
    pub variability: Option<Variability>,
    pub causality: Option<Causality>,
    pub flow: bool,
    pub stream: bool,
    pub expandable: bool,
    pub overconstrained: Option<(usize, Seq<char>)>,
    pub protected: bool,
    pub overrides: Seq<(DefId, DefId)>,
}

impl View for ScopeFrame {
    type V = FrameView;

    open spec fn view(&self) -> FrameView {
        FrameView {
            variability: self.variability,
            causality: self.causality,
            flow: self.flow,
            stream: self.stream,
            expandable: self.expandable,
            overconstrained: match self.overconstrained {
                Some(pair) => Some((pair.0, pair.1@)),
                None => None,
            },
            protected: self.protected,
            overrides: self.overrides@,
        }
    }
}

/// The contents of a list of frames.
pub open spec fn frame_views(list: Seq<ScopeFrame>) -> Seq<FrameView> {
    Seq::new(list.len(), |i: int| list[i]@)
}

/// The frame of the root.
pub open spec fn root_frame() -> FrameView {
    FrameView {
        variability: None,
        causality: None,
        flow: false,
        stream: false,
        expandable: false,
        overconstrained: None,
        protected: false,
        overrides: Seq::empty(),
    }
}

/// What a frame is made of.
#[derive(Clone, Copy, Debug, PartialEq, Eq, Structural)]
pub struct ScopeFrameInput {
    pub variability: Variability,
    pub causality: Causality,
    pub flow: bool,
    pub stream: bool,
    pub expandable: bool,
    pub overconstrained_eq_size: Option<usize>,
    pub protected: bool,
}

/// The frame of a component at a path: parameters and constants hand on their
/// variability, inputs and outputs their causality.
pub open spec fn frame_of(
    input: ScopeFrameInput,
    path: Seq<PartView>,
    overrides: Seq<(DefId, DefId)>,
) -> FrameView {
    FrameView {
        variability: if input.variability is Parameter || input.variability is Constant {
            Some(input.variability)
        } else {
            None
        },
        causality: if input.causality is Empty {
            None
        } else {
            Some(input.causality)
        },
        flow: input.flow,
        stream: input.stream,
        expandable: input.expandable,
        overconstrained: match input.overconstrained_eq_size {
            Some(size) => Some((size, path_text(path))),
            None => None,
        },
        protected: input.protected,
        overrides,
    }
}

impl ScopeFrame {
    /// The frame of a component at a path.
    pub fn inherited_from_component(
        input: ScopeFrameInput,
        context_path: &QualifiedName,
        overrides: Vec<(DefId, DefId)>,
    ) -> (f: ScopeFrame)
        ensures
            f@ == frame_of(input, context_path@, overrides@),
    {
        let variability: Option<Variability> = match input.variability {
            Variability::Parameter => Some(input.variability),
            Variability::Constant => Some(input.variability),
            _ => None,
        };
        let causality: Option<Causality> = match input.causality {
            Causality::Empty => None,
            _ => Some(input.causality),
        };
        let overconstrained: Option<(usize, String)> = match input.overconstrained_eq_size {
            Some(size) => Some((size, context_path.to_flat_string())),
            None => None,
        };
        ScopeFrame {
            variability,
            causality,
            flow: input.flow,
            stream: input.stream,
            expandable: input.expandable,
            overconstrained,
            protected: input.protected,
            overrides,
        }
    }
}

/// Whether a frame has the flow prefix.
pub open spec fn any_flow(frames: Seq<FrameView>) -> bool {
    exists|i: int| 0 <= i < frames.len() && (#[trigger] frames[i]).flow
}

/// Whether a frame has the stream prefix.
pub open spec fn any_stream(frames: Seq<FrameView>) -> bool {
    exists|i: int| 0 <= i < frames.len() && (#[trigger] frames[i]).stream
}

/// Whether a frame is of an expandable connector.
pub open spec fn any_expandable(frames: Seq<FrameView>) -> bool {
    exists|i: int| 0 <= i < frames.len() && (#[trigger] frames[i]).expandable
}

/// Whether a frame is protected.
pub open spec fn any_protected(frames: Seq<FrameView>) -> bool {
    exists|i: int| 0 <= i < frames.len() && (#[trigger] frames[i]).protected
}

/// The variability that the innermost of the frames with one hands on.
pub open spec fn last_variability(frames: Seq<FrameView>) -> Option<Variability>
    decreases frames.len(),
{
    if frames.len() == 0 {
        None
    } else if frames.last().variability is Some {
        frames.last().variability
    } else {
        last_variability(frames.drop_last())
    }
}

/// The causality that the innermost of the frames with one hands on.
pub open spec fn last_causality(frames: Seq<FrameView>) -> Option<Causality>
    decreases frames.len(),
{
    if frames.len() == 0 {
        None
    } else if frames.last().causality is Some {
        frames.last().causality
    } else {
        last_causality(frames.drop_last())
    }
}

/// The constraint of the innermost overconstrained frame.
pub open spec fn last_overconstrained(frames: Seq<FrameView>) -> Option<(usize, Seq<char>)>
    decreases frames.len(),
{
    if frames.len() == 0 {
        None
    } else if frames.last().overconstrained is Some {
        frames.last().overconstrained
    } else {
        last_overconstrained(frames.drop_last())
    }
}

/// What the first of the first `n` replacements of a class puts in its place.
pub open spec fn replaced_in(list: Seq<(DefId, DefId)>, alias: DefId, n: int) -> Option<DefId>
    decreases n,
{
    if n <= 0 {
        None
    } else {
        match replaced_in(list, alias, n - 1) {
            Some(target) => Some(target),
            None => if list[n - 1].0 == alias {
                Some(list[n - 1].1)
            } else {
                None
            },
        }
    }
}

/// What stands in place of a class: what the outermost of the frames that replace it
/// says.
pub open spec fn replacement(frames: Seq<FrameView>, alias: DefId) -> Option<DefId>
    decreases frames.len(),
{
    if frames.len() == 0 {
        None
    } else {
        match replacement(frames.drop_last(), alias) {
            Some(target) => Some(target),
            None => {
                let list = frames.last().overrides;
                replaced_in(list, alias, list.len() as int)
            },
        }
    }
}

/// The inner component with a name in the innermost scope that has one.
pub open spec fn inner_in(scopes: Seq<ScopeView>, name: Seq<char>) -> Option<InnerView>
    decreases scopes.len(),
{
    if scopes.len() == 0 {
        None
    } else {
        match value_of_name(scopes.last(), name) {
            Some(inner) => Some(inner),
            None => inner_in(scopes.drop_last(), name),
        }
    }
}

/// Missing inner declarations and one more, unless the same outer component is
/// among them.
pub open spec fn with_missing(list: Seq<MissingView>, missing: MissingView) -> Seq<MissingView> {
    if exists|i: int|
        0 <= i < list.len() && (#[trigger] list[i]).name == missing.name && list[i].outer_path
            == missing.outer_path {
        list
    } else {
        list.push(missing)
    }
}

/// The names among the first `n`, each once.
pub open spec fn missing_names(list: Seq<MissingView>, n: int) -> Seq<Seq<char>>
    decreases n,
{
    if n <= 0 {
        Seq::empty()
    } else {
        let front = missing_names(list, n - 1);
        if front.contains(list[n - 1].name) {
            front
        } else {
            front.push(list[n - 1].name)
        }
    }
}

/// The scopes of a list of maps.
pub open spec fn scope_views(list: Seq<NameMap<InnerDeclaration>>) -> Seq<ScopeView> {
    Seq::new(list.len(), |i: int| list[i].views())
}

/// The entry of a class in the list of those that are being instantiated.
pub open spec fn cycle_entry(a: ActiveView) -> Seq<char> {
    a.class_name + " ("@ + a.instance_path + ")"@
}

/// The first of the first `n` classes with a definition.
pub open spec fn active_at(list: Seq<ActiveView>, key: DefId, n: int) -> Option<int>
    decreases n,
{
    if n <= 0 {
        None
    } else if active_at(list, key, n - 1) is Some {
        active_at(list, key, n - 1)
    } else if list[n - 1].key == key {
        Some(n - 1)
    } else {
        None
    }
}

/// The classes that are being instantiated after entering one more, or the cycle
/// that it closes. Classes without a definition are not followed.
pub open spec fn entered(active: Seq<ActiveView>, class: ClassView, path: Seq<PartView>) -> Result<
    Seq<ActiveView>,
    InstantiateErrorView,
> {
    match class.def_id {
        None => Ok(active),
        Some(key) => {
            let new = ActiveView { key, class_name: class.name, instance_path: path_text(path) };
            match active_at(active, key, active.len() as int) {
                Some(start) => Err(
                    InstantiateErrorView::Cycle {
                        cycle: join_text(
                            Seq::new(
                                (active.len() - start + 1) as nat,
                                |i: int|
                                    if start + i < active.len() {
                                        cycle_entry(active[start + i])
                                    } else {
                                        cycle_entry(new)
                                    },
                            ),
                            " -> "@,
                        ),
                        span: class.span,
                    },
                ),
                None => Ok(active.push(new)),
            }
        },
    }
}

/// What an instantiation keeps in mind.
pub struct InstantiateContext {
    /// Where in the model the instantiation is.
    pub context_path: Vec<NamePart>,
    pub next_instance_id: u32,
    pub mod_env: ModificationEnvironment,
    /// Inner components, scope by scope.
    pub inner_scopes: Vec<NameMap<InnerDeclaration>>,
    pub missing_inners: Vec<MissingInnerInfo>,
    /// What the components around hand on.
    pub scope_frames: Vec<ScopeFrame>,
    pub allow_partial_instantiation: bool,
    pub depth_limit: usize,
    /// Classes that are being instantiated.
    pub active_instantiations: Vec<InstantiationFrame>,
}

impl InstantiateContext {
    pub open spec fn path(self) -> Seq<PartView> {
        path_view(self.context_path@)
    }

    pub open spec fn scopes(self) -> Seq<ScopeView> {
        scope_views(self.inner_scopes@)
    }

    pub open spec fn missing(self) -> Seq<MissingView> {
        missing_views(self.missing_inners@)
    }

    pub open spec fn frames(self) -> Seq<FrameView> {
        frame_views(self.scope_frames@)
    }

    pub open spec fn active(self) -> Seq<ActiveView> {
        active_views(self.active_instantiations@)
    }

    pub open spec fn mods(self) -> Seq<Entry<ModificationView>> {
        modification_views(self.mod_env.entries())
    }

    pub open spec fn wf(self) -> bool {
        &&& self.mod_env.wf()
        &&& self.inner_scopes@.len() > 0
        &&& self.scope_frames@.len() > 0
        &&& forall|i: int| 0 <= i < self.inner_scopes@.len() ==> (#[trigger] self.inner_scopes@[i]).wf()
    }

    /// Everything but the path is the same.
    pub open spec fn same_but_path(self, other: InstantiateContext) -> bool {
        &&& self.mods() == other.mods()
        &&& self.scopes() == other.scopes()
        &&& self.missing() == other.missing()
        &&& self.frames() == other.frames()
        &&& self.active() == other.active()
        &&& self.allow_partial_instantiation == other.allow_partial_instantiation
        &&& self.depth_limit == other.depth_limit
    }

    /// Everything but the modifications is the same.
    pub open spec fn same_but_mods(self, other: InstantiateContext) -> bool {
        &&& self.path() == other.path()
        &&& self.scopes() == other.scopes()
        &&& self.missing() == other.missing()
        &&& self.frames() == other.frames()
        &&& self.active() == other.active()
        &&& self.allow_partial_instantiation == other.allow_partial_instantiation
        &&& self.depth_limit == other.depth_limit
    }

    /// A context at the root of a model.
    pub fn new() -> (c: InstantiateContext)
        ensures
            c.is_fresh(DEFAULT_INSTANTIATION_DEPTH_LIMIT),
    {
        InstantiateContext::with_options(DEFAULT_INSTANTIATION_DEPTH_LIMIT)
    }

    /// At the root, with nothing in mind.
    pub open spec fn is_fresh(self, depth_limit: usize) -> bool {
        &&& self.wf()
        &&& self.path() == Seq::<PartView>::empty()
        &&& self.mods() == Seq::<Entry<ModificationView>>::empty()
        &&& self.scopes() == seq![Seq::<Named<InnerView>>::empty()]
        &&& self.missing() == Seq::<MissingView>::empty()
        &&& self.frames() == seq![root_frame()]
        &&& self.active() == Seq::<ActiveView>::empty()
        &&& !self.allow_partial_instantiation
        &&& self.depth_limit == depth_limit
        &&& self.next_instance_id == 0
    }

    /// A context at the root of a model.
    pub fn with_options(depth_limit: usize) -> (c: InstantiateContext)
        ensures
            c.is_fresh(depth_limit),
    {
        let mut inner_scopes: Vec<NameMap<InnerDeclaration>> = Vec::new();
        inner_scopes.push(NameMap::new());
        let mut scope_frames: Vec<ScopeFrame> = Vec::new();
        scope_frames.push(
            ScopeFrame {
                variability: None,
                causality: None,
                flow: false,
                stream: false,
                expandable: false,
                overconstrained: None,
                protected: false,
                overrides: Vec::new(),
            },
        );
        let c = InstantiateContext {
            context_path: Vec::new(),
            next_instance_id: 0,
            mod_env: ModificationEnvironment::new(),
            inner_scopes,
            missing_inners: Vec::new(),
            scope_frames,
            allow_partial_instantiation: false,
            depth_limit,
            active_instantiations: Vec::new(),
        };
        proof {
            assert(c.path() =~= Seq::<PartView>::empty());
            assert(c.mods() =~= Seq::<Entry<ModificationView>>::empty());
            assert(c.scopes()[0] =~= Seq::<Named<InnerView>>::empty());
            assert(c.scopes() =~= seq![Seq::<Named<InnerView>>::empty()]);
            assert(c.missing() =~= Seq::<MissingView>::empty());
            assert(c.frames() =~= seq![root_frame()]);
            assert(c.active() =~= Seq::<ActiveView>::empty());
        }
        c
    }

    /// Where in the model the instantiation is.
    pub fn current_path(&self) -> (r: QualifiedName)
        ensures
            r@ == self.path(),
    {
        let r = QualifiedName {
            parts: copy_parts(&self.context_path, 0, self.context_path.len()),
        };
        assert(r@ =~= self.path());
        r
    }

    /// Goes into a component.
    pub fn push_path(&mut self, name: &str)
        ensures
            final(self).path() == old(self).path().push((name@, Seq::<i64>::empty())),
            final(self).same_but_path(*old(self)),
            old(self).wf() ==> final(self).wf(),
            final(self).next_instance_id == old(self).next_instance_id,
    {
        self.push_path_part(name, Vec::new());
        assert(self.path() =~= old(self).path().push((name@, Seq::<i64>::empty())));
    }

    /// Goes into an element of a component.
    pub fn push_path_part(&mut self, name: &str, subscripts: Vec<i64>)
        ensures
            final(self).path() == old(self).path().push((name@, subscripts@)),
            final(self).same_but_path(*old(self)),
            old(self).wf() ==> final(self).wf(),
            final(self).next_instance_id == old(self).next_instance_id,
    {
        self.context_path.push((owned(name), subscripts));
        assert(self.path() =~= old(self).path().push((name@, subscripts@)));
    }

    /// Goes out of a component; nothing happens at the root.
    pub fn pop_path(&mut self)
        ensures
            final(self).path() == if old(self).path().len() == 0 {
                old(self).path()
            } else {
                old(self).path().drop_last()
            },
            final(self).same_but_path(*old(self)),
            old(self).wf() ==> final(self).wf(),
            final(self).next_instance_id == old(self).next_instance_id,
    {
        let _ = self.context_path.pop();
        assert(old(self).path().len() > 0 ==> self.path() =~= old(self).path().drop_last());
    }

    /// The next free number.
    pub fn alloc_id(&mut self) -> (id: u32)
        requires
            old(self).next_instance_id < u32::MAX,
        ensures
            id == old(self).next_instance_id,
            final(self).next_instance_id == old(self).next_instance_id + 1,
            final(self).path() == old(self).path(),
            final(self).same_but_path(*old(self)),
            old(self).wf() ==> final(self).wf(),
    {
        let id: u32 = self.next_instance_id;
        self.next_instance_id = self.next_instance_id + 1;
        id
    }

    /// Modifications.
    pub fn mod_env(&self) -> (r: &ModificationEnvironment)
        ensures
            *r == self.mod_env,
    {
        &self.mod_env
    }

    /// Modifications, to be changed.
    pub fn mod_env_mut(&mut self) -> (r: &mut ModificationEnvironment)
        ensures
            *r == old(self).mod_env,
            *final(self) == (InstantiateContext { mod_env: *final(r), ..*old(self) }),
    {
        &mut self.mod_env
    }

    /// Adds a modification unless its target has one.
    pub fn add_modification(&mut self, target: QualifiedName, value: ModificationValue)
        requires
            old(self).wf(),
        ensures
            final(self).wf(),
            final(self).mods() == with_modification(old(self).mods(), target@, value@),
            final(self).same_but_mods(*old(self)),
    {
        let ghost entries = self.mod_env.entries();
        let ghost path = target@;
        let ghost content = value@;
        proof {
            self.mod_env.active.lemma_distinct();
            lemma_modification_views(entries, path);
        }
        self.mod_env.add(target, value);
        assert(self.mods() =~= with_modification(old(self).mods(), path, content));
    }

    /// Number of modifications.
    pub fn modification_count(&self) -> (n: usize)
        ensures
            n == self.mods().len(),
    {
        self.mod_env.active.len()
    }

    /// Forgets the modifications that were added after the first `n`.
    pub fn forget_modifications(&mut self, n: usize)
        requires
            old(self).wf(),
            n <= old(self).mods().len(),
        ensures
            final(self).wf(),
            final(self).mods() == old(self).mods().take(n as int),
            final(self).same_but_mods(*old(self)),
    {
        self.mod_env.active.truncate(n);
        assert(self.mods() =~= old(self).mods().take(n as int));
    }

    /// Whether the path is longer than allowed.
    pub fn validate_depth_limit(&self, class_span: Span) -> (r: Result<(), InstantiateError>)
        ensures
            match r {
                Ok(_) => self.path().len() <= self.depth_limit,
                Err(e) => self.path().len() > self.depth_limit && e@ == (
                InstantiateErrorView::DepthLimit {
                    path: path_text(self.path()),
                    depth: self.path().len(),
                    limit: self.depth_limit,
                    span: class_span,
                }),
            },
    {
        let depth: usize = self.context_path.len();
        if depth <= self.depth_limit {
            return Ok(());
        }
        Err(
            InstantiateError::DepthLimit {
                path: self.current_path().to_flat_string(),
                depth,
                limit: self.depth_limit,
                span: class_span,
            },
        )
    }

    fn position_of_active(&self, key: DefId) -> (r: Option<usize>)
        ensures
            match r {
                Some(i) => active_at(self.active(), key, self.active().len() as int) == Some(
                    i as int,
                ) && i < self.active().len(),
                None => active_at(self.active(), key, self.active().len() as int) is None,
            },
    {
        let mut i: usize = 0;
        while i < self.active_instantiations.len()
            invariant
                i <= self.active_instantiations@.len(),
                active_at(self.active(), key, i as int) is None,
            decreases self.active_instantiations.len() - i,
        {
            assert(self.active()[i as int] == self.active_instantiations@[i as int]@);
            if self.active_instantiations[i].key.0 == key.0 {
                proof {
                    lemma_first_active_stays(
                        self.active(),
                        key,
                        i + 1,
                        self.active().len() as int,
                    );
                }
                return Some(i);
            }
            i = i + 1;
        }
        None
    }

    fn make_cycle(&self, start: usize, class_name: &str, path: &str) -> (s: String)
        requires
            start < self.active().len(),
        ensures
            s@ == join_text(
                Seq::new(
                    (self.active().len() - start + 1) as nat,
                    |i: int|
                        if start + i < self.active().len() {
                            cycle_entry(self.active()[start + i])
                        } else {
                            class_name@ + " ("@ + path@ + ")"@
                        },
                ),
                " -> "@,
            ),
    {
        let ghost expected = Seq::new(
            (self.active().len() - start + 1) as nat,
            |i: int|
                if start + i < self.active().len() {
                    cycle_entry(self.active()[start + i])
                } else {
                    class_name@ + " ("@ + path@ + ")"@
                },
        );
        let mut entries: Vec<String> = Vec::new();
        let mut i: usize = start;
        assert(views(entries@) =~= expected.take(0));
        while i < self.active_instantiations.len()
            invariant
                start <= i <= self.active_instantiations@.len(),
                expected.len() == self.active().len() - start + 1,
                forall|k: int|
                    0 <= k < self.active().len() - start ==> (#[trigger] expected[k])
                        == cycle_entry(self.active()[start + k]),
                views(entries@) == expected.take(i - start),
            decreases self.active_instantiations.len() - i,
        {
            let ghost before = views(entries@);
            let frame = &self.active_instantiations[i];
            assert(self.active()[i as int] == frame@);
            let mut entry = frame.class_name.clone();
            entry.append(" (");
            entry.append(frame.instance_path.as_str());
            entry.append(")");
            assert(entry@ == expected[i - start]);
            entries.push(entry);
            assert(views(entries@) =~= before.push(expected[i - start]));
            i = i + 1;
            assert(views(entries@) =~= expected.take(i - start));
        }
        let ghost before = views(entries@);
        let mut entry = owned(class_name);
        entry.append(" (");
        entry.append(path);
        entry.append(")");
        let ghost last = entry@;
        entries.push(entry);
        assert(views(entries@) =~= before.push(last));
        assert(expected[i - start] == last);
        assert(views(entries@) =~= expected);
        join(&entries, " -> ")
    }

    /// Notes that a class is being instantiated, unless it is already.
    pub fn enter_instantiation_class(&mut self, class: &ClassDef) -> (r: Result<
        (),
        InstantiateError,
    >)
        requires
            old(self).wf(),
        ensures
            final(self).wf(),
            final(self).path() == old(self).path(),
            final(self).mods() == old(self).mods(),
            final(self).scopes() == old(self).scopes(),
            final(self).missing() == old(self).missing(),
            final(self).frames() == old(self).frames(),
            final(self).allow_partial_instantiation == old(self).allow_partial_instantiation,
            final(self).depth_limit == old(self).depth_limit,
            match r {
                Ok(_) => entered(old(self).active(), class@, old(self).path()) == Ok::<
                    _,
                    InstantiateErrorView,
                >(final(self).active()),
                Err(e) => entered(old(self).active(), class@, old(self).path()) == Err::<
                    Seq<ActiveView>,
                    _,
                >(e@) && final(self).active() == old(self).active(),
            },
    {
        let key = match class.def_id {
            Some(key) => key,
            None => {
                return Ok(());
            },
        };
        let path = self.current_path().to_flat_string();
        match self.position_of_active(key) {
            Some(start) => {
                let cycle = self.make_cycle(start, class.name.as_str(), path.as_str());
                proof {
                    let new = ActiveView {
                        key,
                        class_name: class@.name,
                        instance_path: path_text(self.path()),
                    };
                    let active = self.active();
                    assert(Seq::new(
                        (active.len() - start + 1) as nat,
                        |i: int|
                            if start + i < active.len() {
                                cycle_entry(active[start + i])
                            } else {
                                class.name@ + " ("@ + path@ + ")"@
                            },
                    ) =~= Seq::new(
                        (active.len() - start + 1) as nat,
                        |i: int|
                            if start + i < active.len() {
                                cycle_entry(active[start + i])
                            } else {
                                cycle_entry(new)
                            },
                    ));
                }
                Err(InstantiateError::Cycle { cycle, span: class.span })
            },
            None => {
                let frame = InstantiationFrame {
                    key,
                    class_name: class.name.clone(),
                    instance_path: path,
                };
                let ghost new = frame@;
                self.active_instantiations.push(frame);
                assert(self.active() =~= old(self).active().push(new));
                Ok(())
            },
        }
    }

    /// Notes that a class is no longer being instantiated.
    pub fn exit_instantiation_class(&mut self, class: &ClassDef)
        requires
            old(self).wf(),
        ensures
            final(self).wf(),
            final(self).path() == old(self).path(),
            final(self).mods() == old(self).mods(),
            final(self).scopes() == old(self).scopes(),
            final(self).missing() == old(self).missing(),
            final(self).frames() == old(self).frames(),
            final(self).allow_partial_instantiation == old(self).allow_partial_instantiation,
            final(self).depth_limit == old(self).depth_limit,
            final(self).active() == if class.def_id is Some && old(self).active().len() > 0 {
                old(self).active().drop_last()
            } else {
                old(self).active()
            },
    {
        if class.def_id.is_some() {
            let _ = self.active_instantiations.pop();
            assert(old(self).active().len() > 0 ==> self.active() =~= old(self).active().drop_last());
        }
    }
}

proof fn lemma_first_active_stays(list: Seq<ActiveView>, key: DefId, k: int, n: int)
    requires
        0 <= k <= n,
        active_at(list, key, k) is Some,
    ensures
        active_at(list, key, n) == active_at(list, key, k),
    decreases n,
{
    if k < n {
        lemma_first_active_stays(list, key, k, n - 1);
    }
}

impl Default for InstantiateContext {
    fn default() -> (c: InstantiateContext)
        ensures
            c.is_fresh(DEFAULT_INSTANTIATION_DEPTH_LIMIT),
    {
        InstantiateContext::new()
    }
}

} // verus!
