//! Scopes, inherited prefixes and missing inner declarations of a context.
use crate::instantiate::context::{
    any_expandable, any_flow, any_protected, any_stream, frame_of, inner_in, last_causality,
    last_overconstrained, last_variability, missing_names, missing_views, replaced_in, replacement,
    with_missing, FrameView, InnerDeclaration, InnerView, InstantiateContext, MissingInnerInfo,
    MissingView, ScopeFrame, ScopeFrameInput, ScopeView,
};
use crate::ir::instance::{Causality, Variability};
use crate::ir::name::DefId;
use crate::ir::name_map::{distinct_names, lemma_with_named_values, with_named, NameMap, Named};
use crate::span::Span;
use crate::text::{same_text, views};
use vstd::prelude::*;

verus! {

/// The scopes after giving the innermost one an inner component.
pub open spec fn with_inner(scopes: Seq<ScopeView>, name: Seq<char>, inner: InnerView) -> Seq<
    ScopeView,
> {
    scopes.update(scopes.len() - 1, with_named(scopes.last(), name, inner))
}

impl InstantiateContext {
    /// Everything but the scopes is the same.
    pub open spec fn same_but_scopes(self, other: InstantiateContext) -> bool {
        &&& self.path() == other.path()
        &&& self.mods() == other.mods()
        &&& self.missing() == other.missing()
        &&& self.frames() == other.frames()
        &&& self.active() == other.active()
        &&& self.allow_partial_instantiation == other.allow_partial_instantiation
        &&& self.depth_limit == other.depth_limit
    }

    /// Everything but the frames is the same.
    pub open spec fn same_but_frames(self, other: InstantiateContext) -> bool {
        &&& self.path() == other.path()
        &&& self.mods() == other.mods()
        &&& self.scopes() == other.scopes()
        &&& self.missing() == other.missing()
        &&& self.active() == other.active()
        &&& self.allow_partial_instantiation == other.allow_partial_instantiation
        &&& self.depth_limit == other.depth_limit
    }

    /// Everything but the missing inner declarations is the same.
    pub open spec fn same_but_missing(self, other: InstantiateContext) -> bool {
        &&& self.path() == other.path()
        &&& self.mods() == other.mods()
        &&& self.scopes() == other.scopes()
        &&& self.frames() == other.frames()
        &&& self.active() == other.active()
        &&& self.allow_partial_instantiation == other.allow_partial_instantiation
        &&& self.depth_limit == other.depth_limit
    }

    /// Opens a scope.
    pub fn push_inner_scope(&mut self)
        requires
            old(self).wf(),
        ensures
            final(self).wf(),
            final(self).same_but_scopes(*old(self)),
            final(self).scopes() == old(self).scopes().push(Seq::<Named<InnerView>>::empty()),
    {
        self.inner_scopes.push(NameMap::new());
        proof {
            assert(self.inner_scopes@.last().views() =~= Seq::<Named<InnerView>>::empty());
            assert(self.scopes() =~= old(self).scopes().push(Seq::<Named<InnerView>>::empty()));
            assert forall|i: int| 0 <= i < self.inner_scopes@.len() implies (
            #[trigger] self.inner_scopes@[i]).wf() by {
                if i < old(self).inner_scopes@.len() {
                    assert(self.inner_scopes@[i] == old(self).inner_scopes@[i]);
                }
            }
        }
    }

    /// Closes the innermost scope, which is not the one of the root.
    pub fn pop_inner_scope(&mut self)
        requires
            old(self).wf(),
            old(self).scopes().len() > 1,
        ensures
            final(self).wf(),
            final(self).same_but_scopes(*old(self)),
            final(self).scopes() == old(self).scopes().drop_last(),
    {
        let _ = self.inner_scopes.pop();
        proof {
            assert(self.scopes() =~= old(self).scopes().drop_last());
            assert forall|i: int| 0 <= i < self.inner_scopes@.len() implies (
            #[trigger] self.inner_scopes@[i]).wf() by {
                assert(self.inner_scopes@[i] == old(self).inner_scopes@[i]);
            }
        }
    }

    fn register_in(&mut self, at: usize, name: &str, decl: InnerDeclaration)
        requires
            old(self).wf(),
            at < old(self).scopes().len(),
        ensures
            final(self).wf(),
            final(self).same_but_scopes(*old(self)),
            final(self).scopes() == old(self).scopes().update(
                at as int,
                with_named(old(self).scopes()[at as int], name@, decl@),
            ),
    {
        let ghost scope = self.inner_scopes@[at as int];
        proof {
            assert(scope.wf());
            scope.lemma_with_named(name@, decl);
        }
        self.inner_scopes[at].insert(name, decl);
        proof {
            assert(self.scopes() =~= old(self).scopes().update(
                at as int,
                with_named(old(self).scopes()[at as int], name@, decl@),
            ));
            assert forall|i: int| 0 <= i < self.inner_scopes@.len() implies (
            #[trigger] self.inner_scopes@[i]).wf() by {
                if i != at {
                    assert(self.inner_scopes@[i] == old(self).inner_scopes@[i]);
                }
            }
        }
    }

    /// Notes an inner component in the innermost scope.
    pub fn register_inner_decl(&mut self, name: &str, decl: InnerDeclaration)
        requires
            old(self).wf(),
        ensures
            final(self).wf(),
            final(self).same_but_scopes(*old(self)),
            final(self).scopes() == with_inner(old(self).scopes(), name@, decl@),
    {
        let at: usize = self.inner_scopes.len() - 1;
        self.register_in(at, name, decl);
    }

    /// Notes an inner component in the scope of the root.
    pub fn register_inner_in_root(&mut self, name: &str, decl: InnerDeclaration)
        requires
            old(self).wf(),
        ensures
            final(self).wf(),
            final(self).same_but_scopes(*old(self)),
            final(self).scopes() == old(self).scopes().update(
                0,
                with_named(old(self).scopes()[0], name@, decl@),
            ),
    {
        self.register_in(0, name, decl);
    }

    fn find_inner_in(&self, n: usize, name: &str) -> (r: Option<&InnerDeclaration>)
        requires
            self.wf(),
            n <= self.scopes().len(),
        ensures
            match r {
                Some(inner) => inner_in(self.scopes().take(n as int), name@) == Some(inner@),
                None => inner_in(self.scopes().take(n as int), name@) is None,
            },
    {
        let ghost whole = inner_in(self.scopes().take(n as int), name@);
        let mut i: usize = n;
        while i > 0
            invariant
                self.wf(),
                i <= n <= self.scopes().len(),
                whole == inner_in(self.scopes().take(n as int), name@),
                whole == inner_in(self.scopes().take(i as int), name@),
            decreases i,
        {
            let ghost scopes = self.scopes().take(i as int);
            proof {
                assert(scopes.last() == self.inner_scopes@[i - 1].views());
                assert(scopes.drop_last() =~= self.scopes().take(i - 1));
                self.inner_scopes@[i - 1].lemma_views(name@);
            }
            if let Some(inner) = self.inner_scopes[i - 1].get(name) {
                return Some(inner);
            }
            i = i - 1;
        }
        None
    }

    /// The nearest inner component with a name.
    pub fn find_inner(&self, name: &str) -> (r: Option<&InnerDeclaration>)
        requires
            self.wf(),
        ensures
            match r {
                Some(inner) => inner_in(self.scopes(), name@) == Some(inner@),
                None => inner_in(self.scopes(), name@) is None,
            },
    {
        assert(self.scopes().take(self.scopes().len() as int) =~= self.scopes());
        self.find_inner_in(self.inner_scopes.len(), name)
    }

    /// The nearest inner component with a name outside the innermost scope.
    pub fn find_parent_inner(&self, name: &str) -> (r: Option<&InnerDeclaration>)
        requires
            self.wf(),
        ensures
            match r {
                Some(inner) => inner_in(self.scopes().drop_last(), name@) == Some(inner@),
                None => inner_in(self.scopes().drop_last(), name@) is None,
            },
    {
        assert(self.scopes().take(self.scopes().len() - 1) =~= self.scopes().drop_last());
        self.find_inner_in(self.inner_scopes.len() - 1, name)
    }

    /// Goes into a component that hands on its prefixes.
    pub fn push_scope_frame(&mut self, input: ScopeFrameInput, overrides: Vec<(DefId, DefId)>)
        requires
            old(self).wf(),
        ensures
            final(self).wf(),
            final(self).same_but_frames(*old(self)),
            final(self).frames() == old(self).frames().push(
                frame_of(input, old(self).path(), overrides@),
            ),
    {
        let path = self.current_path();
        let frame = ScopeFrame::inherited_from_component(input, &path, overrides);
        let ghost new = frame@;
        self.scope_frames.push(frame);
        assert(self.frames() =~= old(self).frames().push(new));
    }

    /// Goes out of a component; the frame of the root stays.
    pub fn pop_scope_frame(&mut self)
        requires
            old(self).wf(),
        ensures
            final(self).wf(),
            final(self).same_but_frames(*old(self)),
            final(self).frames() == if old(self).frames().len() > 1 {
                old(self).frames().drop_last()
            } else {
                old(self).frames()
            },
    {
        if self.scope_frames.len() > 1 {
            let _ = self.scope_frames.pop();
            assert(self.frames() =~= old(self).frames().drop_last());
        }
    }

    /// Whether a component around has the flow prefix.
    pub fn inherited_flow(&self) -> (r: bool)
        ensures
            r == any_flow(self.frames()),
    {
        let mut i: usize = 0;
        while i < self.scope_frames.len()
            invariant
                i <= self.scope_frames@.len(),
                forall|k: int| 0 <= k < i ==> !(#[trigger] self.frames()[k]).flow,
            decreases self.scope_frames.len() - i,
        {
            assert(self.frames()[i as int] == self.scope_frames@[i as int]@);
            if self.scope_frames[i].flow {
                return true;
            }
            i = i + 1;
        }
        false
    }

    /// Whether a component around has the stream prefix.
    pub fn inherited_stream(&self) -> (r: bool)
        ensures
            r == any_stream(self.frames()),
    {
        let mut i: usize = 0;
        while i < self.scope_frames.len()
            invariant
                i <= self.scope_frames@.len(),
                forall|k: int| 0 <= k < i ==> !(#[trigger] self.frames()[k]).stream,
            decreases self.scope_frames.len() - i,
        {
            assert(self.frames()[i as int] == self.scope_frames@[i as int]@);
            if self.scope_frames[i].stream {
                return true;
            }
            i = i + 1;
        }
        false
    }

    /// Whether a component around is an expandable connector.
    pub fn is_in_expandable_connector(&self) -> (r: bool)
        ensures
            r == any_expandable(self.frames()),
    {
        let mut i: usize = 0;
        while i < self.scope_frames.len()
            invariant
                i <= self.scope_frames@.len(),
                forall|k: int| 0 <= k < i ==> !(#[trigger] self.frames()[k]).expandable,
            decreases self.scope_frames.len() - i,
        {
            assert(self.frames()[i as int] == self.scope_frames@[i as int]@);
            if self.scope_frames[i].expandable {
                return true;
            }
            i = i + 1;
        }
        false
    }

    /// Whether a component around is protected.
    pub fn is_in_protected(&self) -> (r: bool)
        ensures
            r == any_protected(self.frames()),
    {
        let mut i: usize = 0;
        while i < self.scope_frames.len()
            invariant
                i <= self.scope_frames@.len(),
                forall|k: int| 0 <= k < i ==> !(#[trigger] self.frames()[k]).protected,
            decreases self.scope_frames.len() - i,
        {
            assert(self.frames()[i as int] == self.scope_frames@[i as int]@);
            if self.scope_frames[i].protected {
                return true;
            }
            i = i + 1;
        }
        false
    }

    /// The variability that a component around hands on.
    pub fn inherited_variability(&self) -> (r: Option<Variability>)
        ensures
            r == last_variability(self.frames()),
    {
        let mut i: usize = self.scope_frames.len();
        assert(self.frames().take(i as int) =~= self.frames());
        while i > 0
            invariant
                i <= self.scope_frames@.len(),
                last_variability(self.frames()) == last_variability(self.frames().take(i as int)),
            decreases i,
        {
            let ghost frames = self.frames().take(i as int);
            assert(frames.last() == self.scope_frames@[i - 1]@);
            assert(frames.drop_last() =~= self.frames().take(i - 1));
            if self.scope_frames[i - 1].variability.is_some() {
                return self.scope_frames[i - 1].variability;
            }
            i = i - 1;
        }
        None
    }

    /// The causality that a component around hands on.
    pub fn inherited_causality(&self) -> (r: Option<Causality>)
        ensures
            r == last_causality(self.frames()),
    {
        let mut i: usize = self.scope_frames.len();
        assert(self.frames().take(i as int) =~= self.frames());
        while i > 0
            invariant
                i <= self.scope_frames@.len(),
                last_causality(self.frames()) == last_causality(self.frames().take(i as int)),
            decreases i,
        {
            let ghost frames = self.frames().take(i as int);
            assert(frames.last() == self.scope_frames@[i - 1]@);
            assert(frames.drop_last() =~= self.frames().take(i - 1));
            if self.scope_frames[i - 1].causality.is_some() {
                return self.scope_frames[i - 1].causality;
            }
            i = i - 1;
        }
        None
    }

    /// What stands in place of a class.
    pub fn active_replacement(&self, alias: DefId) -> (r: Option<DefId>)
        ensures
            r == replacement(self.frames(), alias),
    {
        let mut i: usize = 0;
        while i < self.scope_frames.len()
            invariant
                i <= self.scope_frames@.len(),
                replacement(self.frames().take(i as int), alias) is None,
            decreases self.scope_frames.len() - i,
        {
            let ghost frames = self.frames().take(i as int + 1);
            assert(frames.last() == self.scope_frames@[i as int]@);
            assert(frames.drop_last() =~= self.frames().take(i as int));
            let found = find_replaced(&self.scope_frames[i].overrides, alias);
            if found.is_some() {
                proof {
                    lemma_replacement_stays(
                        self.frames(),
                        alias,
                        i + 1,
                        self.frames().len() as int,
                    );
                    assert(self.frames().take(self.frames().len() as int) =~= self.frames());
                }
                return found;
            }
            i = i + 1;
        }
        assert(self.frames().take(i as int) =~= self.frames());
        None
    }

    /// The size and the record of the nearest equality constraint around.
    pub fn overconstrained(&self) -> (r: Option<(usize, String)>)
        ensures
            match r {
                Some(pair) => last_overconstrained(self.frames()) == Some((pair.0, pair.1@)),
                None => last_overconstrained(self.frames()) is None,
            },
    {
        let mut i: usize = self.scope_frames.len();
        assert(self.frames().take(i as int) =~= self.frames());
        while i > 0
            invariant
                i <= self.scope_frames@.len(),
                last_overconstrained(self.frames()) == last_overconstrained(
                    self.frames().take(i as int),
                ),
            decreases i,
        {
            let ghost frames = self.frames().take(i as int);
            assert(frames.last() == self.scope_frames@[i - 1]@);
            assert(frames.drop_last() =~= self.frames().take(i - 1));
            match &self.scope_frames[i - 1].overconstrained {
                Some(pair) => {
                    return Some((pair.0, pair.1.clone()));
                },
                None => {},
            }
            i = i - 1;
        }
        None
    }

    /// Whether a component around is overconstrained.
    pub fn is_in_overconstrained(&self) -> (r: bool)
        ensures
            r == (last_overconstrained(self.frames()) is Some),
    {
        self.overconstrained().is_some()
    }

    /// The size of the nearest equality constraint around.
    pub fn overconstrained_eq_size(&self) -> (r: Option<usize>)
        ensures
            r == match last_overconstrained(self.frames()) {
                Some(pair) => Some(pair.0),
                None => None,
            },
    {
        match self.overconstrained() {
            Some(pair) => Some(pair.0),
            None => None,
        }
    }

    /// The record of the nearest equality constraint around.
    pub fn overconstrained_record_path(&self) -> (r: Option<String>)
        ensures
            match last_overconstrained(self.frames()) {
                Some(pair) => r is Some && r->0@ == pair.1,
                None => r is None,
            },
    {
        match self.overconstrained() {
            Some(pair) => Some(pair.1),
            None => None,
        }
    }

    /// Notes an outer component without an inner one, once.
    pub fn record_missing_inner(&mut self, missing: MissingInnerInfo)
        requires
            old(self).wf(),
        ensures
            final(self).wf(),
            final(self).same_but_missing(*old(self)),
            final(self).missing() == with_missing(old(self).missing(), missing@),
    {
        let mut i: usize = 0;
        while i < self.missing_inners.len()
            invariant
                *self == *old(self),
                self.wf(),
                i <= self.missing_inners@.len(),
                forall|k: int|
                    0 <= k < i ==> !((#[trigger] self.missing()[k]).name == missing@.name
                        && self.missing()[k].outer_path == missing@.outer_path),
            decreases self.missing_inners.len() - i,
        {
            assert(self.missing()[i as int] == self.missing_inners@[i as int]@);
            if same_text(self.missing_inners[i].name.as_str(), missing.name.as_str())
                && self.missing_inners[i].outer_path.same_path(&missing.outer_path) {
                return;
            }
            i = i + 1;
        }
        let ghost new = missing@;
        self.missing_inners.push(missing);
        assert(self.missing() =~= old(self).missing().push(new));
    }

    /// Whether an outer component has no inner one.
    pub fn has_missing_inners(&self) -> (r: bool)
        ensures
            r == (self.missing().len() > 0),
    {
        self.missing_inners.len() > 0
    }

    /// The names of outer components without inner ones, each once.
    pub fn missing_inner_names(&self) -> (names: Vec<String>)
        ensures
            views(names@) == missing_names(self.missing(), self.missing().len() as int),
    {
        names_of_missing(&self.missing_inners)
    }

    /// The positions of outer components without inner ones.
    pub fn missing_inner_spans(&self) -> (spans: Vec<Span>)
        ensures
            spans@ == self.missing().map_values(|m: MissingView| m.span),
    {
        let mut spans: Vec<Span> = Vec::new();
        let mut i: usize = 0;
        while i < self.missing_inners.len()
            invariant
                i <= self.missing_inners@.len(),
                spans@ == self.missing().map_values(|m: MissingView| m.span).take(i as int),
            decreases self.missing_inners.len() - i,
        {
            assert(self.missing()[i as int] == self.missing_inners@[i as int]@);
            spans.push(self.missing_inners[i].span);
            i = i + 1;
            assert(spans@ =~= self.missing().map_values(|m: MissingView| m.span).take(i as int));
        }
        assert(spans@ =~= self.missing().map_values(|m: MissingView| m.span));
        spans
    }

    /// Says whether components of partial classes are allowed.
    pub fn set_allow_partial_instantiation(&mut self, allow: bool)
        requires
            old(self).wf(),
        ensures
            final(self).wf(),
            final(self).allow_partial_instantiation == allow,
            final(self).path() == old(self).path(),
            final(self).mods() == old(self).mods(),
            final(self).scopes() == old(self).scopes(),
            final(self).missing() == old(self).missing(),
            final(self).frames() == old(self).frames(),
            final(self).active() == old(self).active(),
            final(self).depth_limit == old(self).depth_limit,
    {
        self.allow_partial_instantiation = allow;
    }
}

proof fn lemma_replacement_stays(frames: Seq<FrameView>, alias: DefId, k: int, n: int)
    requires
        0 <= k <= n <= frames.len(),
        replacement(frames.take(k), alias) is Some,
    ensures
        replacement(frames.take(n), alias) == replacement(frames.take(k), alias),
    decreases n,
{
    if k < n {
        lemma_replacement_stays(frames, alias, k, n - 1);
        assert(frames.take(n).drop_last() =~= frames.take(n - 1));
    }
}

fn find_replaced(list: &Vec<(DefId, DefId)>, alias: DefId) -> (r: Option<DefId>)
    ensures
        r == replaced_in(list@, alias, list@.len() as int),
{
    let mut i: usize = 0;
    while i < list.len()
        invariant
            i <= list@.len(),
            replaced_in(list@, alias, i as int) is None,
        decreases list.len() - i,
    {
        if list[i].0.0 == alias.0 {
            proof {
                lemma_replaced_stays(list@, alias, i + 1, list@.len() as int);
            }
            return Some(list[i].1);
        }
        i = i + 1;
    }
    None
}

proof fn lemma_replaced_stays(list: Seq<(DefId, DefId)>, alias: DefId, k: int, n: int)
    requires
        0 <= k <= n,
        replaced_in(list, alias, k) is Some,
    ensures
        replaced_in(list, alias, n) == replaced_in(list, alias, k),
    decreases n,
{
    if k < n {
        lemma_replaced_stays(list, alias, k, n - 1);
    }
}

/// The names of some missing inner declarations, each once.
pub fn names_of_missing(list: &Vec<MissingInnerInfo>) -> (names: Vec<String>)
    ensures
        views(names@) == missing_names(missing_views(list@), list@.len() as int),
{
    let ghost missing = missing_views(list@);
    let mut names: Vec<String> = Vec::new();
    let mut i: usize = 0;
    assert(views(names@) =~= Seq::<Seq<char>>::empty());
    while i < list.len()
        invariant
            i <= list@.len(),
            missing == missing_views(list@),
            views(names@) == missing_names(missing, i as int),
        decreases list.len() - i,
    {
        assert(missing[i as int] == list@[i as int]@);
        let ghost before = views(names@);
        if !has_text(&names, list[i].name.as_str()) {
            names.push(list[i].name.clone());
            assert(views(names@) =~= before.push(missing[i as int].name));
        }
        i = i + 1;
    }
    names
}

fn has_text(list: &Vec<String>, text: &str) -> (r: bool)
    ensures
        r == views(list@).contains(text@),
{
    let mut i: usize = 0;
    while i < list.len()
        invariant
            i <= list@.len(),
            forall|k: int| 0 <= k < i ==> (#[trigger] views(list@)[k]) != text@,
        decreases list.len() - i,
    {
        assert(views(list@)[i as int] == list@[i as int]@);
        if same_text(list[i].as_str(), text) {
            return true;
        }
        i = i + 1;
    }
    false
}

/// An inner component in the innermost scope hides those of the same name
/// further out, and no other.
pub proof fn law_nearest_inner_wins(
    scopes: Seq<ScopeView>,
    name: Seq<char>,
    inner: InnerView,
    other: Seq<char>,
)
    requires
        scopes.len() > 0,
        distinct_names(scopes.last()),
    ensures
        inner_in(with_inner(scopes, name, inner), name) == Some(inner),
        other != name ==> inner_in(with_inner(scopes, name, inner), other) == inner_in(
            scopes,
            other,
        ),
        inner_in(with_inner(scopes, name, inner).drop_last(), other) == inner_in(
            scopes.drop_last(),
            other,
        ),
{
    let after = with_inner(scopes, name, inner);
    let scope = scopes.last();
    let new = with_named(scope, name, inner);
    assert(after.last() == new);
    assert(after.drop_last() =~= scopes.drop_last());
    lemma_with_named_values(scope, name, inner, other);
    lemma_with_named_values(scope, name, inner, name);
}

} // verus!
