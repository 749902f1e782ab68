//! What holds of every change of a session.
use crate::ir::name::PartView;
use crate::ir::name_map::name_key;
use crate::ir::path_map::{has_key, with_entry, Entry};
use crate::session::session::StepView;
use crate::session::store::{
    externally_listed, lists_externally, value_of, without_uri, DocumentView, RevisionId,
    SessionView,
};
use vstd::prelude::*;

verus! {

/// Whether every key stays where it is.
pub open spec fn keeps_places<V>(before: Seq<Entry<V>>, after: Seq<Entry<V>>) -> bool {
    &&& before.len() <= after.len()
    &&& forall|i: int| 0 <= i < before.len() ==> (#[trigger] after[i]).0 == before[i].0
}

/// Giving a key a value moves no key.
pub proof fn lemma_with_entry_keeps_places<V>(entries: Seq<Entry<V>>, key: Seq<PartView>, value: V)
    ensures
        keeps_places(entries, with_entry(entries, key, value)),
{
}

/// A value that is given to a key is found under it.
pub proof fn lemma_entry_is_found<V>(entries: Seq<Entry<V>>, key: Seq<PartView>, value: V)
    ensures
        value_of(with_entry(entries, key, value), key) == Some(value),
{
    let after = with_entry(entries, key, value);
    if has_key(entries, key) {
        let i = choose|i: int| 0 <= i < entries.len() && (#[trigger] entries[i]).0 == key;
        assert(after[i] == (key, value));
        let j = choose|j: int| 0 <= j < after.len() && (#[trigger] after[j]).0 == key;
        assert(entries[j].0 == key);
    } else {
        assert(after[entries.len() as int].0 == key);
        let j = choose|j: int| 0 <= j < after.len() && (#[trigger] after[j]).0 == key;
        if j < entries.len() {
            assert(entries[j].0 == key);
        }
    }
}

proof fn lemma_steps_keep_places(s: SessionView, steps: Seq<StepView>, n: int, at: RevisionId)
    requires
        0 <= n <= steps.len(),
    ensures
        keeps_places(s.files, s.with_steps(steps, n, at).files),
        keeps_places(s.roots, s.with_steps(steps, n, at).roots),
        s.with_steps(steps, n, at).revision == s.revision,
    decreases n,
{
    if n > 0 {
        lemma_steps_keep_places(s, steps, n - 1, at);
        let before = s.with_steps(steps, n - 1, at);
        let after = s.with_steps(steps, n, at);
        assert(keeps_places(before.files, after.files));
        assert(keeps_places(before.roots, after.roots));
        assert forall|i: int| 0 <= i < s.files.len() implies (#[trigger] after.files[i]).0
            == s.files[i].0 by {
            assert(before.files[i].0 == s.files[i].0);
        }
        assert forall|i: int| 0 <= i < s.roots.len() implies (#[trigger] after.roots[i]).0
            == s.roots[i].0 by {
            assert(before.roots[i].0 == s.roots[i].0);
        }
    }
}

/// No change moves a file or a source root: each keeps its place, and so its
/// identity, for as long as the session lives.
pub proof fn law_files_keep_their_identity(s: SessionView, steps: Seq<StepView>)
    ensures
        keeps_places(s.files, s.after_change(steps).files),
        keeps_places(s.roots, s.after_change(steps).roots),
{
    lemma_steps_keep_places(s, steps, steps.len() as int, s.next_revision());
}

/// A file whose document is removed keeps its identity, and the removal counts
/// as its last change.
pub proof fn law_removed_files_keep_their_identity(s: SessionView, uri: Seq<char>, at: RevisionId)
    ensures
        keeps_places(s.files, s.without_document(uri, at).files),
        has_key(s.documents, name_key(uri)) ==> value_of(
            s.without_document(uri, at).files,
            name_key(uri),
        ) == Some(at),
{
    lemma_with_entry_keeps_places(s.files, name_key(uri), at);
    lemma_entry_is_found(s.files, name_key(uri), at);
}

/// A change that changes something takes the session to the next revision; any
/// other leaves it as it is.
pub proof fn law_revision_counts_changes(s: SessionView, steps: Seq<StepView>)
    requires
        s.revision.0 < u64::MAX,
    ensures
        s.steps_change(steps, steps.len() as int, s.next_revision()) ==> s.after_change(
            steps,
        ).revision.0 == s.revision.0 + 1,
        !s.steps_change(steps, steps.len() as int, s.next_revision()) ==> s.after_change(steps)
            == s,
{
}

/// A change without steps changes nothing, and neither does one that gives a
/// file the text it has, unless an editor takes it over by that from an external
/// root.
pub proof fn law_same_text_changes_nothing(s: SessionView, uri: Seq<char>, text: Seq<char>)
    requires
        !externally_listed(s.roots, uri),
        value_of(s.documents, name_key(uri)) is Some,
        value_of(s.documents, name_key(uri))->0.content == text,
    ensures
        s.after_change(Seq::empty()) == s,
        s.after_change(seq![StepView::SetFileText { uri, text }]) == s,
{
    let steps = seq![StepView::SetFileText { uri, text }];
    let at = s.next_revision();
    assert(s.with_steps(steps, 0, at) == s);
    assert(!s.steps_change(steps, 0, at));
    assert(!s.steps_change(steps, 1, at));
}

/// A text that is given to a file is read back from it, whatever was there
/// before.
pub proof fn law_text_is_read_back(s: SessionView, uri: Seq<char>, text: Seq<char>)
    ensures
        ({
            let after = s.after_change(seq![StepView::SetFileText { uri, text }]);
            let document = value_of(after.documents, name_key(uri));
            document is Some && document->0.content == text
        }),
        s.text_changes(uri, text) ==> value_of(
            s.after_change(seq![StepView::SetFileText { uri, text }]).files,
            name_key(uri),
        ) == Some(s.next_revision()),
{
    let steps = seq![StepView::SetFileText { uri, text }];
    let at = s.next_revision();
    assert(s.with_steps(steps, 0, at) == s);
    assert(s.with_steps(steps, 1, at) == s.with_text(uri, text, at));
    assert(!s.steps_change(steps, 0, at));
    assert(s.steps_change(steps, 1, at) == s.text_changes(uri, text));
    if s.text_changes(uri, text) {
        lemma_entry_is_found(
            s.documents,
            name_key(uri),
            DocumentView { content: text, outline: s.next_outline(uri, text) },
        );
        lemma_entry_is_found(s.files, name_key(uri), at);
    }
}

/// After a text is given to a file, no external root lists the file.
pub proof fn law_edited_files_are_taken_over(
    s: SessionView,
    uri: Seq<char>,
    text: Seq<char>,
)
    ensures
        !externally_listed(s.after_change(seq![StepView::SetFileText { uri, text }]).roots, uri),
{
    let steps = seq![StepView::SetFileText { uri, text }];
    let at = s.next_revision();
    assert(s.with_steps(steps, 0, at) == s);
    assert(s.with_steps(steps, 1, at) == s.with_text(uri, text, at));
    assert(!s.steps_change(steps, 0, at));
    let after = s.after_change(steps);
    if s.text_changes(uri, text) {
        assert forall|i: int| 0 <= i < after.roots.len() implies !(
        lists_externally((#[trigger] after.roots[i]).1, uri)) by {
            lemma_without_uri(s.roots[i].1.uris, uri);
        }
    }
}

proof fn lemma_without_uri(uris: Seq<Seq<char>>, uri: Seq<char>)
    ensures
        !without_uri(uris, uri).contains(uri),
    decreases uris.len(),
{
    if uris.len() > 0 {
        lemma_without_uri(uris.drop_last(), uri);
        let rest = without_uri(uris.drop_last(), uri);
        if uris.last() != uri {
            let all = rest.push(uris.last());
            if all.contains(uri) {
                let i = choose|i: int| 0 <= i < all.len() && all[i] == uri;
                assert(rest[i] == uri);
            }
        }
    }
}

} // verus!
