//! Qualified names: paths with resolved subscripts.
use crate::span::Span;
use crate::text::{chars_of, int_text, join_text, owned, push_int, same_text, views};
use vstd::prelude::*;

verus! {

/// Unique identifier of an instance in the instance tree.
#[derive(Clone, Copy, Debug, PartialEq, Eq, Hash, Structural)]
pub struct InstanceId(pub u32);

impl InstanceId {
    /// The id with this index.
    pub fn new(index: u32) -> (id: InstanceId)
        ensures
            id == InstanceId(index),
    {
        InstanceId(index)
    }

    /// The index of this id.
    pub fn index(&self) -> (i: u32)
        ensures
            i == self.0,
    {
        self.0
    }

    /// The text `InstanceId(..)` with the index in decimal.
    pub fn to_text(&self) -> (s: String)
        ensures
            s@ == "InstanceId("@ + int_text(self.0 as int) + ")"@,
    {
        let mut s = owned("InstanceId(");
        push_int(&mut s, self.0 as i64);
        s.append(")");
        s
    }
}

impl Default for InstanceId {
    fn default() -> (id: Self)
        ensures
            id == InstanceId(0),
    {
        InstanceId(0)
    }
}

/// Identity of a declaration.
#[derive(Clone, Copy, Debug, PartialEq, Eq, Hash, Structural)]
pub struct DefId(pub u32);

impl DefId {
    pub fn new(index: u32) -> (id: DefId)
        ensures
            id == DefId(index),
    {
        DefId(index)
    }
}

/// One segment of a path: a name and its subscripts.
pub type NamePart = (String, Vec<i64>);

/// The mathematical content of a path segment.
pub type PartView = (Seq<char>, Seq<i64>);

pub open spec fn part_view(part: NamePart) -> PartView {
    (part.0@, part.1@)
}

/// The mathematical content of a path.
pub open spec fn path_view(parts: Seq<NamePart>) -> Seq<PartView> {
    parts.map_values(|p: NamePart| part_view(p))
}

/// Subscripts in square brackets, separated by commas.
pub open spec fn subscripts_text(subs: Seq<i64>) -> Seq<char> {
    "["@ + join_text(subs.map_values(|i: i64| int_text(i as int)), ","@) + "]"@
}

/// Text of a path segment; a segment without subscripts is its bare name.
pub open spec fn part_text(part: PartView) -> Seq<char> {
    if part.1.len() == 0 {
        part.0
    } else {
        part.0 + subscripts_text(part.1)
    }
}

/// Text of a path: its segments separated by dots.
pub open spec fn path_text(path: Seq<PartView>) -> Seq<char> {
    join_text(path.map_values(|p: PartView| part_text(p)), "."@)
}

/// A fully qualified path with resolved subscripts.
///
/// `body.position[1].x` is `[("body", []), ("position", [1]), ("x", [])]`.
#[derive(Debug)]
pub struct QualifiedName {
    pub parts: Vec<NamePart>,
}

impl View for QualifiedName {
    type V = Seq<PartView>;

    open spec fn view(&self) -> Seq<PartView> {
        path_view(self.parts@)
    }
}

impl Clone for QualifiedName {
    fn clone(&self) -> (r: Self)
        ensures
            r@ == self@,
    {
        QualifiedName { parts: copy_parts(&self.parts, 0, self.parts.len()) }
    }
}

impl Default for QualifiedName {
    fn default() -> (r: Self)
        ensures
            r@ == Seq::<PartView>::empty(),
    {
        QualifiedName::new()
    }
}

/// A copy of a list of subscripts.
pub fn copy_subscripts(subs: &Vec<i64>) -> (r: Vec<i64>)
    ensures
        r@ == subs@,
{
    let mut r: Vec<i64> = Vec::new();
    let mut i: usize = 0;
    while i < subs.len()
        invariant
            i <= subs.len(),
            r@ == subs@.take(i as int),
        decreases subs.len() - i,
    {
        r.push(subs[i]);
        i = i + 1;
        assert(r@ =~= subs@.take(i as int));
    }
    assert(subs@.take(i as int) =~= subs@);
    r
}

/// A copy of the segments `from..to`.
pub fn copy_parts(parts: &Vec<NamePart>, from: usize, to: usize) -> (r: Vec<NamePart>)
    requires
        from <= to <= parts@.len(),
    ensures
        path_view(r@) == path_view(parts@).subrange(from as int, to as int),
{
    let mut r: Vec<NamePart> = Vec::new();
    let mut i: usize = from;
    assert(path_view(r@) =~= path_view(parts@).subrange(from as int, from as int));
    while i < to
        invariant
            from <= i <= to <= parts@.len(),
            path_view(r@) == path_view(parts@).subrange(from as int, i as int),
        decreases to - i,
    {
        let part: NamePart = (parts[i].0.clone(), copy_subscripts(&parts[i].1));
        let ghost before = path_view(r@);
        r.push(part);
        assert(path_view(r@) =~= before.push(path_view(parts@)[i as int]));
        i = i + 1;
        assert(path_view(r@) =~= path_view(parts@).subrange(from as int, i as int));
    }
    r
}

/// Appends subscripts in square brackets.
fn write_subscripts(out: &mut String, subs: &Vec<i64>)
    ensures
        final(out)@ == old(out)@ + subscripts_text(subs@),
{
    let ghost texts = subs@.map_values(|i: i64| int_text(i as int));
    out.append("[");
    let ghost head = out@;
    let mut i: usize = 0;
    assert(out@ =~= head + join_text(texts.take(0), ","@));
    while i < subs.len()
        invariant
            i <= subs.len(),
            texts == subs@.map_values(|i: i64| int_text(i as int)),
            out@ == head + join_text(texts.take(i as int), ","@),
        decreases subs.len() - i,
    {
        assert(texts.take(i as int + 1).drop_last() =~= texts.take(i as int));
        if i > 0 {
            out.append(",");
        }
        push_int(out, subs[i]);
        i = i + 1;
        assert(out@ =~= head + join_text(texts.take(i as int), ","@));
    }
    assert(texts.take(i as int) =~= texts);
    out.append("]");
    assert(out@ =~= old(out)@ + subscripts_text(subs@));
}

/// Text of one path segment.
pub fn render_part(name: &str, subs: &Vec<i64>) -> (s: String)
    ensures
        s@ == part_text((name@, subs@)),
{
    let mut s = owned(name);
    if subs.len() > 0 {
        write_subscripts(&mut s, subs);
    }
    s
}

/// Whether `rendered` is the canonical text of a subscripted segment: the
/// name, then its subscripts in brackets, each in plain decimal.
pub fn subscripted_part_matches_rendered(name: &str, subs: &Vec<i64>, rendered: &str) -> (r: bool)
    ensures
        r == (subs@.len() > 0 && rendered@ == part_text((name@, subs@))),
{
    if subs.len() == 0 {
        return false;
    }
    let canonical = render_part(name, subs);
    same_text(rendered, canonical.as_str())
}

fn same_subscripts(a: &Vec<i64>, b: &Vec<i64>) -> (r: bool)
    ensures
        r == (a@ == b@),
{
    if a.len() != b.len() {
        return false;
    }
    let mut i: usize = 0;
    while i < a.len()
        invariant
            i <= a.len(),
            a@.len() == b@.len(),
            a@.take(i as int) == b@.take(i as int),
        decreases a.len() - i,
    {
        if a[i] != b[i] {
            assert(a@[i as int] != b@[i as int]);
            return false;
        }
        i = i + 1;
        assert(a@.take(i as int) =~= a@.take(i - 1).push(a@[i - 1]));
        assert(b@.take(i as int) =~= b@.take(i - 1).push(b@[i - 1]));
    }
    assert(a@.take(i as int) =~= a@);
    assert(b@.take(i as int) =~= b@);
    true
}

fn same_part(a: &NamePart, b: &NamePart) -> (r: bool)
    ensures
        r == (part_view(*a) == part_view(*b)),
{
    same_text(a.0.as_str(), b.0.as_str()) && same_subscripts(&a.1, &b.1)
}

/// A segmented path whose segments are already rendered.
#[derive(Debug)]
pub struct ComponentPath {
    pub parts: Vec<String>,
}

/// State of splitting a text at dots outside square brackets: the segments
/// found so far, where the open one starts, and the bracket depth.
pub struct SplitState {
    pub done: Seq<Seq<char>>,
    pub start: int,
    pub depth: nat,
}

pub open spec fn close_segment(s: Seq<char>, st: SplitState, end: int) -> Seq<Seq<char>> {
    if st.start < end {
        st.done.push(s.subrange(st.start, end))
    } else {
        st.done
    }
}

/// Splitting the first `n` characters of `s`.
pub open spec fn split_prefix(s: Seq<char>, n: int) -> SplitState
    decreases n,
{
    if n <= 0 {
        SplitState { done: Seq::empty(), start: 0, depth: 0 }
    } else {
        let st = split_prefix(s, n - 1);
        let c = s[n - 1];
        if c == '.' && st.depth == 0 {
            SplitState { done: close_segment(s, st, n - 1), start: n, depth: 0 }
        } else if c == '[' {
            SplitState { done: st.done, start: st.start, depth: st.depth + 1 }
        } else if c == ']' && st.depth > 0 {
            SplitState { done: st.done, start: st.start, depth: (st.depth - 1) as nat }
        } else {
            st
        }
    }
}

/// The non-empty segments of a text between dots that stand outside brackets.
pub open spec fn path_segments(s: Seq<char>) -> Seq<Seq<char>> {
    close_segment(s, split_prefix(s, s.len() as int), s.len() as int)
}

fn split_path(s: &str) -> (parts: Vec<String>)
    ensures
        views(parts@) == path_segments(s@),
{
    let chars: Vec<char> = chars_of(s);
    let n: usize = chars.len();
    let mut parts: Vec<String> = Vec::new();
    let mut start: usize = 0;
    let mut depth: usize = 0;
    let mut i: usize = 0;
    assert(views(parts@) =~= Seq::<Seq<char>>::empty());
    while i < n
        invariant
            i <= n,
            n == s@.len(),
            chars@ == s@,
            start <= i,
            depth <= i,
            split_prefix(s@, i as int) == (SplitState {
                done: views(parts@),
                start: start as int,
                depth: depth as nat,
            }),
        decreases n - i,
    {
        let c: char = chars[i];
        if c == '.' && depth == 0 {
            if start < i {
                let ghost before = views(parts@);
                parts.push(owned(s.substring_char(start, i)));
                assert(views(parts@) =~= before.push(s@.subrange(start as int, i as int)));
            }
            start = i + 1;
        } else if c == '[' {
            depth = depth + 1;
        } else if c == ']' && depth > 0 {
            depth = depth - 1;
        }
        i = i + 1;
    }
    if start < n {
        let ghost before = views(parts@);
        parts.push(owned(s.substring_char(start, n)));
        assert(views(parts@) =~= before.push(s@.subrange(start as int, n as int)));
    }
    parts
}

impl ComponentPath {
    /// Splits a text at the dots outside brackets; empty segments are left out.
    pub fn from_flat_path(s: &str) -> (p: ComponentPath)
        ensures
            views(p.parts@) == path_segments(s@),
    {
        ComponentPath { parts: split_path(s) }
    }

    /// The text of the path.
    pub fn to_flat_string(&self) -> (s: String)
        ensures
            s@ == join_text(views(self.parts@), "."@),
    {
        crate::text::join(&self.parts, ".")
    }
}

/// A reference to a component, segment by segment.
#[derive(Debug)]
pub struct ComponentReference {
    pub local: bool,
    pub parts: Vec<ComponentRefPart>,
    pub def_id: Option<DefId>,
    pub span: Span,
}

/// One segment of a component reference.
#[derive(Debug)]
pub struct ComponentRefPart {
    pub ident: String,
    pub subs: Vec<i64>,
    pub span: Span,
}

/// The mathematical content of a [`ComponentReference`].
#[verifier::ext_equal]
pub struct ReferenceView {
    pub local: bool,
    pub parts: Seq<ReferencePartView>,
    pub def_id: Option<DefId>,
    pub span: Span,
}

/// The mathematical content of a [`ComponentRefPart`].
pub struct ReferencePartView {
    pub ident: Seq<char>,
    pub subs: Seq<i64>,
    pub span: Span,
}

impl View for ComponentRefPart {
    type V = ReferencePartView;

    open spec fn view(&self) -> ReferencePartView {
        ReferencePartView { ident: self.ident@, subs: self.subs@, span: self.span }
    }
}

impl View for ComponentReference {
    type V = ReferenceView;

    open spec fn view(&self) -> ReferenceView {
        ReferenceView {
            local: self.local,
            parts: self.parts@.map_values(|p: ComponentRefPart| p@),
            def_id: self.def_id,
            span: self.span,
        }
    }
}

impl Clone for ComponentRefPart {
    fn clone(&self) -> (r: Self)
        ensures
            r@ == self@,
    {
        ComponentRefPart {
            ident: self.ident.clone(),
            subs: copy_subscripts(&self.subs),
            span: self.span,
        }
    }
}

impl Clone for ComponentReference {
    fn clone(&self) -> (r: Self)
        ensures
            r@ == self@,
    {
        let mut parts: Vec<ComponentRefPart> = Vec::new();
        let mut i: usize = 0;
        assert(parts@.map_values(|p: ComponentRefPart| p@) =~= self@.parts.take(0));
        while i < self.parts.len()
            invariant
                i <= self.parts.len(),
                parts@.map_values(|p: ComponentRefPart| p@) == self@.parts.take(i as int),
            decreases self.parts.len() - i,
        {
            let ghost before = parts@.map_values(|p: ComponentRefPart| p@);
            parts.push(self.parts[i].clone());
            assert(parts@.map_values(|p: ComponentRefPart| p@) =~= before.push(
                self@.parts[i as int],
            ));
            i = i + 1;
            assert(parts@.map_values(|p: ComponentRefPart| p@) =~= self@.parts.take(i as int));
        }
        assert(self@.parts.take(i as int) =~= self@.parts);
        ComponentReference { local: self.local, parts, def_id: self.def_id, span: self.span }
    }
}

impl ComponentReference {
    /// The segments as a path.
    pub open spec fn path(self) -> Seq<PartView> {
        self.parts@.map_values(|p: ComponentRefPart| (p.ident@, p.subs@))
    }
}

impl QualifiedName {
    /// The empty name.
    pub fn new() -> (r: QualifiedName)
        ensures
            r@ == Seq::<PartView>::empty(),
    {
        let r = QualifiedName { parts: Vec::new() };
        assert(r@ =~= Seq::<PartView>::empty());
        r
    }

    /// A name of one segment without subscripts.
    pub fn from_ident(name: &str) -> (r: QualifiedName)
        ensures
            r@ == seq![(name@, Seq::<i64>::empty())],
    {
        let mut parts: Vec<NamePart> = Vec::new();
        parts.push((owned(name), Vec::new()));
        let r = QualifiedName { parts };
        assert(r@ =~= seq![(name@, Seq::<i64>::empty())]);
        r
    }

    /// The name whose segments are the rendered segments of a reference.
    pub fn from_component_reference(reference: &ComponentReference) -> (r: QualifiedName)
        ensures
            r@ == reference.path().map_values(
                |p: PartView| (part_text(p), Seq::<i64>::empty()),
            ),
    {
        let mut parts: Vec<NamePart> = Vec::new();
        let mut i: usize = 0;
        let ghost expected = reference.path().map_values(
            |p: PartView| (part_text(p), Seq::<i64>::empty()),
        );
        assert(path_view(parts@) =~= expected.take(0));
        while i < reference.parts.len()
            invariant
                i <= reference.parts.len(),
                expected == reference.path().map_values(
                    |p: PartView| (part_text(p), Seq::<i64>::empty()),
                ),
                path_view(parts@) == expected.take(i as int),
            decreases reference.parts.len() - i,
        {
            let part = &reference.parts[i];
            let ghost before = path_view(parts@);
            parts.push((render_part(part.ident.as_str(), &part.subs), Vec::new()));
            assert(reference.path()[i as int] == (part.ident@, part.subs@));
            assert(path_view(parts@) =~= before.push(expected[i as int]));
            i = i + 1;
            assert(path_view(parts@) =~= expected.take(i as int));
        }
        assert(expected.take(i as int) =~= expected);
        QualifiedName { parts }
    }

    /// The name of the non-empty segments between dots; nothing inside square
    /// brackets separates.
    pub fn from_dotted(s: &str) -> (r: QualifiedName)
        ensures
            r@ == path_segments(s@).map_values(|p: Seq<char>| (p, Seq::<i64>::empty())),
    {
        let segments = split_path(s);
        let ghost expected = path_segments(s@).map_values(
            |p: Seq<char>| (p, Seq::<i64>::empty()),
        );
        let mut parts: Vec<NamePart> = Vec::new();
        let mut i: usize = 0;
        assert(path_view(parts@) =~= expected.take(0));
        while i < segments.len()
            invariant
                i <= segments.len(),
                views(segments@) == path_segments(s@),
                expected == path_segments(s@).map_values(
                    |p: Seq<char>| (p, Seq::<i64>::empty()),
                ),
                path_view(parts@) == expected.take(i as int),
            decreases segments.len() - i,
        {
            assert(views(segments@)[i as int] == segments@[i as int]@);
            let ghost before = path_view(parts@);
            parts.push((segments[i].clone(), Vec::new()));
            assert(path_view(parts@) =~= before.push(expected[i as int]));
            i = i + 1;
            assert(path_view(parts@) =~= expected.take(i as int));
        }
        assert(expected.len() == segments@.len());
        assert(expected.take(i as int) =~= expected);
        QualifiedName { parts }
    }

    /// Whether the first segment has this name, whatever its subscripts.
    pub open spec fn starts_with_spec(path: Seq<PartView>, name: Seq<char>) -> bool {
        path.len() > 0 && path[0].0 == name
    }

    /// Whether the first segment has this name, whatever its subscripts.
    pub fn starts_with(&self, prefix_name: &str) -> (r: bool)
        ensures
            r == QualifiedName::starts_with_spec(self@, prefix_name@),
    {
        if self.parts.len() == 0 {
            return false;
        }
        assert(self@[0].0 == self.parts@[0].0@);
        same_text(self.parts[0].0.as_str(), prefix_name)
    }

    /// The name without its first segment, where that segment has this name and
    /// something is left.
    pub fn strip_prefix(&self, prefix_name: &str) -> (r: Option<QualifiedName>)
        ensures
            match r {
                Some(rest) => QualifiedName::starts_with_spec(self@, prefix_name@) && self@.len()
                    > 1 && rest@ == self@.subrange(1, self@.len() as int),
                None => !(QualifiedName::starts_with_spec(self@, prefix_name@) && self@.len() > 1),
            },
    {
        if self.starts_with(prefix_name) && self.parts.len() > 1 {
            Some(QualifiedName { parts: copy_parts(&self.parts, 1, self.parts.len()) })
        } else {
            None
        }
    }

    /// The name of the first segment.
    pub fn first_name(&self) -> (r: Option<&str>)
        ensures
            match r {
                Some(name) => self@.len() > 0 && name@ == self@[0].0,
                None => self@.len() == 0,
            },
    {
        if self.parts.len() == 0 {
            return None;
        }
        assert(self@[0].0 == self.parts@[0].0@);
        Some(self.parts[0].0.as_str())
    }

    /// The name of the last segment.
    pub fn last_name(&self) -> (r: Option<&str>)
        ensures
            match r {
                Some(name) => self@.len() > 0 && name@ == self@.last().0,
                None => self@.len() == 0,
            },
    {
        let n: usize = self.parts.len();
        if n == 0 {
            return None;
        }
        assert(self@.last().0 == self.parts@[n - 1].0@);
        Some(self.parts[n - 1].0.as_str())
    }

    /// The name without its last segment.
    pub fn parent(&self) -> (r: Option<QualifiedName>)
        ensures
            match r {
                Some(parent) => self@.len() > 0 && parent@ == self@.drop_last(),
                None => self@.len() == 0,
            },
    {
        let n: usize = self.parts.len();
        if n == 0 {
            return None;
        }
        Some(QualifiedName { parts: copy_parts(&self.parts, 0, n - 1) })
    }

    /// Whether the name has more than one segment.
    pub fn is_dotted(&self) -> (r: bool)
        ensures
            r == (self@.len() > 1),
    {
        self.parts.len() > 1
    }

    /// This name followed by a relative one.
    pub fn join(&self, relative: &QualifiedName) -> (r: QualifiedName)
        ensures
            r@ == self@ + relative@,
    {
        let mut parts = copy_parts(&self.parts, 0, self.parts.len());
        let mut i: usize = 0;
        assert(path_view(parts@) =~= self@ + relative@.take(0));
        while i < relative.parts.len()
            invariant
                i <= relative.parts.len(),
                path_view(parts@) == self@ + relative@.take(i as int),
            decreases relative.parts.len() - i,
        {
            let part: NamePart = (
                relative.parts[i].0.clone(),
                copy_subscripts(&relative.parts[i].1),
            );
            let ghost before = path_view(parts@);
            parts.push(part);
            assert(path_view(parts@) =~= before.push(relative@[i as int]));
            i = i + 1;
            assert(path_view(parts@) =~= self@ + relative@.take(i as int));
        }
        assert(relative@.take(i as int) =~= relative@);
        QualifiedName { parts }
    }

    /// Whether a path ends with another, non-empty one.
    pub open spec fn ends_with_spec(path: Seq<PartView>, suffix: Seq<PartView>) -> bool {
        0 < suffix.len() <= path.len() && path.subrange(
            path.len() - suffix.len(),
            path.len() as int,
        ) == suffix
    }

    /// Whether the name ends with another, non-empty one.
    pub fn ends_with_path(&self, suffix: &QualifiedName) -> (r: bool)
        ensures
            r == QualifiedName::ends_with_spec(self@, suffix@),
    {
        let m: usize = suffix.parts.len();
        let n: usize = self.parts.len();
        if m == 0 || m > n {
            return false;
        }
        let ghost tail = self@.subrange(n - m, n as int);
        let mut i: usize = 0;
        while i < m
            invariant
                i <= m <= n,
                m == suffix.parts.len(),
                n == self.parts.len(),
                tail == self@.subrange(n - m, n as int),
                forall|k: int| 0 <= k < i ==> tail[k] == suffix@[k],
            decreases m - i,
        {
            assert(tail[i as int] == part_view(self.parts@[n - m + i]));
            assert(suffix@[i as int] == part_view(suffix.parts@[i as int]));
            if !same_part(&self.parts[n - m + i], &suffix.parts[i]) {
                return false;
            }
            i = i + 1;
        }
        assert(tail =~= suffix@);
        true
    }

    /// Whether two paths are the same.
    pub fn same_path(&self, other: &QualifiedName) -> (r: bool)
        ensures
            r == (self@ == other@),
    {
        if self.parts.len() != other.parts.len() {
            return false;
        }
        let mut i: usize = 0;
        while i < self.parts.len()
            invariant
                i <= self.parts@.len(),
                self.parts@.len() == other.parts@.len(),
                forall|k: int| 0 <= k < i ==> self@[k] == #[trigger] other@[k],
            decreases self.parts.len() - i,
        {
            assert(self@[i as int] == part_view(self.parts@[i as int]));
            assert(other@[i as int] == part_view(other.parts@[i as int]));
            if !same_part(&self.parts[i], &other.parts[i]) {
                return false;
            }
            i = i + 1;
        }
        assert(self@ =~= other@);
        true
    }

    /// Whether the leading segments of a path, rendered, are the segments of
    /// another, non-empty one.
    pub open spec fn starts_with_path_spec(path: Seq<PartView>, prefix: Seq<Seq<char>>) -> bool {
        &&& 0 < prefix.len() <= path.len()
        &&& forall|i: int| 0 <= i < prefix.len() ==> part_text(#[trigger] path[i]) == prefix[i]
    }

    /// Whether the leading segments, rendered, are the segments of a path.
    pub fn starts_with_component_path(&self, prefix: &ComponentPath) -> (r: bool)
        ensures
            r == QualifiedName::starts_with_path_spec(self@, views(prefix.parts@)),
    {
        let m: usize = prefix.parts.len();
        if m == 0 || m > self.parts.len() {
            return false;
        }
        let mut i: usize = 0;
        while i < m
            invariant
                i <= m <= self.parts.len(),
                m == prefix.parts.len(),
                forall|k: int|
                    0 <= k < i ==> part_text(#[trigger] self@[k]) == views(prefix.parts@)[k],
            decreases m - i,
        {
            let part = &self.parts[i];
            assert(self@[i as int] == part_view(self.parts@[i as int]));
            assert(views(prefix.parts@)[i as int] == prefix.parts@[i as int]@);
            let matches: bool = if part.1.len() == 0 {
                same_text(part.0.as_str(), prefix.parts[i].as_str())
            } else {
                subscripted_part_matches_rendered(
                    part.0.as_str(),
                    &part.1,
                    prefix.parts[i].as_str(),
                )
            };
            if !matches {
                assert(part_text(self@[i as int]) != views(prefix.parts@)[i as int]);
                return false;
            }
            i = i + 1;
        }
        true
    }

    /// Appends a segment.
    pub fn push(&mut self, name: String, subscripts: Vec<i64>)
        ensures
            final(self)@ == old(self)@.push((name@, subscripts@)),
    {
        self.parts.push((name, subscripts));
        assert(self@ =~= old(self)@.push((name@, subscripts@)));
    }

    /// This name with one more segment.
    pub fn child(&self, name: &str) -> (r: QualifiedName)
        ensures
            r@ == self@.push((name@, Seq::<i64>::empty())),
    {
        let mut r = self.clone();
        r.push(owned(name), Vec::new());
        r
    }

    /// Whether the name has no segments.
    pub fn is_empty(&self) -> (r: bool)
        ensures
            r == (self@.len() == 0),
    {
        self.parts.len() == 0
    }

    /// The rendered segments.
    pub fn to_component_path(&self) -> (p: ComponentPath)
        ensures
            views(p.parts@) == self@.map_values(|p: PartView| part_text(p)),
    {
        let ghost expected = self@.map_values(|p: PartView| part_text(p));
        let mut parts: Vec<String> = Vec::new();
        let mut i: usize = 0;
        assert(views(parts@) =~= expected.take(0));
        while i < self.parts.len()
            invariant
                i <= self.parts.len(),
                expected == self@.map_values(|p: PartView| part_text(p)),
                views(parts@) == expected.take(i as int),
            decreases self.parts.len() - i,
        {
            let ghost before = views(parts@);
            parts.push(render_part(self.parts[i].0.as_str(), &self.parts[i].1));
            assert(self@[i as int] == part_view(self.parts@[i as int]));
            assert(views(parts@) =~= before.push(expected[i as int]));
            i = i + 1;
            assert(views(parts@) =~= expected.take(i as int));
        }
        assert(expected.take(i as int) =~= expected);
        ComponentPath { parts }
    }

    /// The text of the name, such as `body.position[1].x`.
    pub fn to_flat_string(&self) -> (s: String)
        ensures
            s@ == path_text(self@),
    {
        self.to_component_path().to_flat_string()
    }
}

} // verus!
