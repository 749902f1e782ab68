//! Texts of paths and their segments.
use crate::ir::name::{
    close_segment, part_text, path_segments, path_text, split_prefix, PartView,
    QualifiedName, SplitState,
};
use crate::text::{digit_text, int_text, join_text, nat_text};
use vstd::prelude::*;

verus! {

/// Bracket depth after the first `n` characters of a text.
pub open spec fn depth_after(t: Seq<char>, n: int) -> nat
    decreases n,
{
    if n <= 0 {
        0
    } else {
        let depth = depth_after(t, n - 1);
        if t[n - 1] == '[' {
            depth + 1
        } else if t[n - 1] == ']' && depth > 0 {
            (depth - 1) as nat
        } else {
            depth
        }
    }
}

/// Whether a text can be a segment: it is not empty, closes its brackets, and has
/// no dot outside them.
pub open spec fn is_segment(t: Seq<char>) -> bool {
    &&& t.len() > 0
    &&& depth_after(t, t.len() as int) == 0
    &&& forall|i: int| 0 <= i < t.len() && #[trigger] t[i] == '.' ==> depth_after(t, i) > 0
}

/// Splitting looks only at the characters before where it stands.
proof fn lemma_split_prefix_of(s: Seq<char>, front: Seq<char>, n: int)
    requires
        0 <= n <= front.len() <= s.len(),
        front == s.take(front.len() as int),
    ensures
        split_prefix(s, n) == split_prefix(front, n),
        0 <= split_prefix(s, n).start <= n,
    decreases n,
{
    if n > 0 {
        lemma_split_prefix_of(s, front, n - 1);
        let st = split_prefix(s, n - 1);
        assert(s[n - 1] == front[n - 1]);
        assert(s.subrange(st.start, n - 1) =~= front.subrange(st.start, n - 1));
    }
}

/// Splitting goes through a segment without ending it.
proof fn lemma_split_through(s: Seq<char>, done: Seq<Seq<char>>, a: int, t: Seq<char>, i: int)
    requires
        0 <= a,
        a + t.len() == s.len(),
        s.subrange(a, s.len() as int) == t,
        is_segment(t),
        split_prefix(s, a) == (SplitState { done, start: a, depth: 0 }),
        0 <= i <= t.len(),
    ensures
        split_prefix(s, a + i) == (SplitState { done, start: a, depth: depth_after(t, i) }),
    decreases i,
{
    if i > 0 {
        lemma_split_through(s, done, a, t, i - 1);
        assert(s[a + i - 1] == t[i - 1]);
    }
}

/// Segments joined with dots split into the same segments.
pub proof fn law_joined_segments_split_back(segments: Seq<Seq<char>>)
    requires
        forall|i: int| 0 <= i < segments.len() ==> is_segment(#[trigger] segments[i]),
    ensures
        path_segments(join_text(segments, "."@)) == segments,
{
    lemma_joined(segments);
    assert(path_segments(join_text(segments, "."@)) =~= segments);
}

proof fn lemma_joined(segments: Seq<Seq<char>>)
    requires
        forall|i: int| 0 <= i < segments.len() ==> is_segment(#[trigger] segments[i]),
    ensures
        ({
            let s = join_text(segments, "."@);
            &&& path_segments(s) == segments
            &&& split_prefix(s, s.len() as int).depth == 0
        }),
    decreases segments.len(),
{
    let s = join_text(segments, "."@);
    if segments.len() == 0 {
        assert(path_segments(s) =~= segments);
    } else if segments.len() == 1 {
        let t = segments[0];
        assert(s.subrange(0, s.len() as int) =~= t);
        lemma_split_through(s, Seq::empty(), 0, t, t.len() as int);
        assert(path_segments(s) =~= segments);
    } else {
        let rest = segments.drop_last();
        let t = segments.last();
        let front = join_text(rest, "."@);
        assert forall|i: int| 0 <= i < rest.len() implies is_segment(#[trigger] rest[i]) by {
            assert(rest[i] == segments[i]);
        }
        lemma_joined(rest);
        reveal_strlit(".");
        let a = front.len() as int;
        assert(s == front + "."@ + t);
        assert(s.take(a) =~= front);
        assert(s[a] == '.');
        lemma_split_prefix_of(s, front, a);
        let st = split_prefix(s, a);
        assert(s.subrange(st.start, a) =~= front.subrange(st.start, a));
        assert(close_segment(s, st, a) == rest);
        assert(split_prefix(s, a + 1) == (SplitState { done: rest, start: a + 1, depth: 0 }));
        assert(s.subrange(a + 1, s.len() as int) =~= t);
        assert(is_segment(segments[segments.len() - 1]));
        lemma_split_through(s, rest, a + 1, t, t.len() as int);
        assert(path_segments(s) == rest.push(t));
        assert(rest.push(t) =~= segments);
    }
}

/// Whether a text has neither dots nor brackets.
pub open spec fn is_bare(t: Seq<char>) -> bool {
    forall|i: int|
        0 <= i < t.len() ==> (#[trigger] t[i]) != '.' && t[i] != '[' && t[i] != ']'
}

proof fn lemma_bare_both(a: Seq<char>, b: Seq<char>)
    requires
        is_bare(a),
        is_bare(b),
    ensures
        is_bare(a + b),
{
    let c = a + b;
    assert forall|i: int| 0 <= i < c.len() implies (#[trigger] c[i]) != '.' && c[i] != '[' && c[i]
        != ']' by {
        if i < a.len() {
            assert(c[i] == a[i]);
        } else {
            assert(c[i] == b[i - a.len()]);
        }
    }
}

proof fn lemma_digit_is_bare(d: nat)
    requires
        d < 10,
    ensures
        is_bare(digit_text(d)),
{
    reveal_strlit("0");
    reveal_strlit("1");
    reveal_strlit("2");
    reveal_strlit("3");
    reveal_strlit("4");
    reveal_strlit("5");
    reveal_strlit("6");
    reveal_strlit("7");
    reveal_strlit("8");
    reveal_strlit("9");
}

proof fn lemma_number_is_bare(n: nat)
    ensures
        is_bare(nat_text(n)),
    decreases n,
{
    if n < 10 {
        lemma_digit_is_bare(n);
    } else {
        lemma_number_is_bare(n / 10);
        lemma_digit_is_bare(n % 10);
        lemma_bare_both(nat_text(n / 10), digit_text(n % 10));
    }
}

proof fn lemma_integer_is_bare(i: int)
    ensures
        is_bare(int_text(i)),
{
    if i < 0 {
        reveal_strlit("-");
        lemma_number_is_bare((-i) as nat);
        lemma_bare_both("-"@, nat_text((-i) as nat));
    } else {
        lemma_number_is_bare(i as nat);
    }
}

proof fn lemma_listed_integers_are_bare(subs: Seq<i64>)
    ensures
        is_bare(join_text(subs.map_values(|i: i64| int_text(i as int)), ","@)),
    decreases subs.len(),
{
    let texts = subs.map_values(|i: i64| int_text(i as int));
    if subs.len() == 1 {
        lemma_integer_is_bare(subs[0] as int);
    } else if subs.len() > 1 {
        lemma_listed_integers_are_bare(subs.drop_last());
        lemma_integer_is_bare(subs.last() as int);
        assert(texts.drop_last() =~= subs.drop_last().map_values(|i: i64| int_text(i as int)));
        reveal_strlit(",");
        let front = join_text(texts.drop_last(), ","@);
        lemma_bare_both(front, ","@);
        lemma_bare_both(front + ","@, texts.last());
    }
}

proof fn lemma_depth_in_bare(t: Seq<char>, from: int, n: int, depth: nat)
    requires
        0 <= from <= n <= t.len(),
        depth_after(t, from) == depth,
        forall|i: int| from <= i < n ==> (#[trigger] t[i]) != '[' && t[i] != ']',
    ensures
        depth_after(t, n) == depth,
    decreases n - from,
{
    if from < n {
        lemma_depth_in_bare(t, from, n - 1, depth);
        assert(t[n - 1] != '[' && t[n - 1] != ']');
    }
}

/// A bare name with its subscripts is a segment.
pub proof fn lemma_part_is_segment(part: PartView)
    requires
        part.0.len() > 0,
        is_bare(part.0),
    ensures
        is_segment(part_text(part)),
{
    let t = part_text(part);
    if part.1.len() == 0 {
        lemma_depth_in_bare(t, 0, t.len() as int, 0);
    } else {
        let inner = join_text(part.1.map_values(|i: i64| int_text(i as int)), ","@);
        lemma_listed_integers_are_bare(part.1);
        reveal_strlit("[");
        reveal_strlit("]");
        let a = part.0.len() as int;
        let b = a + 1 + inner.len();
        assert(t =~= part.0 + ("["@ + inner + "]"@));
        assert(t.len() == b + 1);
        assert forall|i: int| 0 <= i < a implies t[i] == part.0[i] by {}
        assert(t[a] == '[');
        assert forall|i: int| a < i < b implies t[i] == inner[i - a - 1] by {}
        assert(t[b] == ']');
        lemma_depth_in_bare(t, 0, a, 0);
        assert(depth_after(t, a + 1) == 1);
        lemma_depth_in_bare(t, a + 1, b, 1);
        assert(depth_after(t, b + 1) == 0);
    }
}

/// The text of a path of bare names, with whatever subscripts, splits into the
/// texts of its segments.
pub proof fn law_flat_path_splits_back(path: Seq<PartView>)
    requires
        forall|i: int| 0 <= i < path.len() ==> (#[trigger] path[i]).0.len() > 0 && is_bare(
            path[i].0,
        ),
    ensures
        path_segments(path_text(path)) == path.map_values(|p: PartView| part_text(p)),
{
    let segments = path.map_values(|p: PartView| part_text(p));
    assert forall|i: int| 0 <= i < segments.len() implies is_segment(#[trigger] segments[i]) by {
        lemma_part_is_segment(path[i]);
    }
    law_joined_segments_split_back(segments);
}

/// A path of bare names without subscripts is read back from its text.
pub proof fn law_plain_path_is_read_back(path: Seq<PartView>)
    requires
        forall|i: int| 0 <= i < path.len() ==> (#[trigger] path[i]).0.len() > 0 && is_bare(
            path[i].0,
        ) && path[i].1.len() == 0,
    ensures
        path_segments(path_text(path)).map_values(|p: Seq<char>| (p, Seq::<i64>::empty()))
            == path,
{
    law_flat_path_splits_back(path);
    let read = path_segments(path_text(path)).map_values(
        |p: Seq<char>| (p, Seq::<i64>::empty()),
    );
    assert forall|i: int| 0 <= i < path.len() implies #[trigger] read[i] == path[i] by {
        assert(path[i].1 =~= Seq::<i64>::empty());
    }
    assert(read =~= path);
}

/// A name starts with the name of its first segment, and with the texts of its first
/// segments; it ends with its last segments. Of a name that is put together both can be told.
pub proof fn law_names_start_and_end_with_their_parts(front: Seq<PartView>, back: Seq<PartView>)
    requires
        front.len() > 0,
        back.len() > 0,
    ensures
        QualifiedName::starts_with_spec(front + back, front.first().0),
        QualifiedName::starts_with_path_spec(
            front + back,
            front.map_values(|p: PartView| part_text(p)),
        ),
        QualifiedName::ends_with_spec(front + back, back),
{
    let all = front + back;
    let texts = front.map_values(|p: PartView| part_text(p));
    assert forall|i: int| 0 <= i < texts.len() implies part_text(#[trigger] all[i]) == texts[i] by {
        assert(all[i] == front[i]);
    }
    assert(all.subrange(all.len() - back.len(), all.len() as int) =~= back);
}

/// A name that starts or ends with something is that and something more.
pub proof fn law_beginnings_and_ends_are_parts(
    path: Seq<PartView>,
    name: Seq<char>,
    prefix: Seq<Seq<char>>,
    suffix: Seq<PartView>,
)
    ensures
        QualifiedName::starts_with_spec(path, name) ==> path.len() > 0 && path.first().0 == name,
        QualifiedName::starts_with_path_spec(path, prefix) ==> prefix.len() > 0 && exists|n: int|
            0 <= n <= path.len() && path.take(n).map_values(|p: PartView| part_text(p)) == prefix,
        QualifiedName::ends_with_spec(path, suffix) ==> suffix.len() > 0 && exists|n: int|
            0 <= n <= path.len() && #[trigger] path.take(n) + suffix == path,
{
    if QualifiedName::starts_with_path_spec(path, prefix) {
        let n = prefix.len() as int;
        assert(path.take(n).map_values(|p: PartView| part_text(p)) =~= prefix);
    }
    if QualifiedName::ends_with_spec(path, suffix) {
        let n = path.len() - suffix.len();
        assert(path.take(n) + suffix =~= path);
    }
}

} // verus!
