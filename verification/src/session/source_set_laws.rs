//! What holds of loading and removing source sets.
use crate::ir::name::PartView;
use crate::ir::name_map::name_key;
use crate::ir::path_map::{distinct_keys, has_key, with_entry, Entry};
use crate::session::laws::{
    keeps_places, lemma_entry_is_found, lemma_with_entry_keeps_places,
};
use crate::session::lru::{lemma_without_absent_key, lemma_without_key_at, without_key};
use crate::session::session::lemma_value_at;
use crate::session::source_sets::{file_uris, lemma_loading_keeps_roots, FileView};
use crate::session::store::{
    value_of, DocumentView, RecordView, RevisionId, SessionView, SourceRootKind,
};
use vstd::prelude::*;

verus! {

/// Whether no file occurs twice.
pub open spec fn distinct_files(files: Seq<FileView>) -> bool {
    forall|i: int, j: int|
        0 <= i < j < files.len() ==> (#[trigger] files[i]).0 != (#[trigger] files[j]).0
}

/// Whether a file's document has its text.
pub open spec fn holds_file(documents: Seq<Entry<DocumentView>>, file: FileView) -> bool {
    value_of(documents, name_key(file.0)) matches Some(d) && d.content == file.1
}

proof fn lemma_name_keys_differ(a: Seq<char>, b: Seq<char>)
    requires
        a != b,
    ensures
        name_key(a) != name_key(b),
{
    assert(name_key(a)[0].0 == a && name_key(b)[0].0 == b);
}

proof fn lemma_with_entry_distinct<V>(entries: Seq<Entry<V>>, key: Seq<PartView>, value: V)
    requires
        distinct_keys(entries),
    ensures
        distinct_keys(with_entry(entries, key, value)),
{
    let after = with_entry(entries, key, value);
    assert forall|i: int, j: int| 0 <= i < j < after.len() implies (#[trigger] after[i]).0 != (
    #[trigger] after[j]).0 by {
        assert(entries[i].0 == after[i].0);
        if j < entries.len() {
            assert(entries[j].0 == after[j].0);
        }
    }
}

proof fn lemma_other_entry<V>(
    entries: Seq<Entry<V>>,
    key: Seq<PartView>,
    value: V,
    other: Seq<PartView>,
)
    requires
        distinct_keys(entries),
        other != key,
    ensures
        value_of(with_entry(entries, key, value), other) == value_of(entries, other),
{
    let after = with_entry(entries, key, value);
    lemma_with_entry_distinct(entries, key, value);
    if has_key(entries, other) {
        let i = choose|i: int| 0 <= i < entries.len() && (#[trigger] entries[i]).0 == other;
        assert(after[i] == entries[i]);
        lemma_value_at(entries, other, i);
        lemma_value_at(after, other, i);
    } else if has_key(after, other) {
        let i = choose|i: int| 0 <= i < after.len() && (#[trigger] after[i]).0 == other;
        assert(i < entries.len());
        assert(entries[i].0 == other);
    }
}

proof fn lemma_without_key_distinct<V>(entries: Seq<Entry<V>>, key: Seq<PartView>)
    requires
        distinct_keys(entries),
    ensures
        distinct_keys(without_key(entries, key)),
        !has_key(without_key(entries, key), key),
        forall|k: Seq<PartView>| #[trigger]
            has_key(without_key(entries, key), k) ==> has_key(entries, k),
{
    if has_key(entries, key) {
        let i = choose|i: int| 0 <= i < entries.len() && (#[trigger] entries[i]).0 == key;
        lemma_without_key_at(entries, key, i);
        let after = entries.remove(i);
        assert forall|a: int, b: int| 0 <= a < b < after.len() implies (#[trigger] after[a]).0 != (
        #[trigger] after[b]).0 by {
            let x = if a < i { a } else { a + 1 };
            let y = if b < i { b } else { b + 1 };
            assert(entries[x].0 != entries[y].0);
        }
        if has_key(after, key) {
            let a = choose|a: int| 0 <= a < after.len() && (#[trigger] after[a]).0 == key;
            let x = if a < i { a } else { a + 1 };
            assert(entries[x].0 == entries[i].0);
            if x < i {
                assert(entries[x].0 != entries[i].0);
            } else {
                assert(entries[i].0 != entries[x].0);
            }
        }
        assert forall|k: Seq<PartView>| #[trigger] has_key(after, k) implies has_key(entries, k) by {
            let a = choose|a: int| 0 <= a < after.len() && (#[trigger] after[a]).0 == k;
            let x = if a < i { a } else { a + 1 };
            assert(entries[x].0 == k);
        }
    } else {
        lemma_without_absent_key(entries, key);
    }
}

proof fn lemma_dropping(
    s: SessionView,
    uris: Seq<Seq<char>>,
    n: int,
    kept: Seq<Seq<char>>,
    at: RevisionId,
)
    requires
        0 <= n <= uris.len(),
        distinct_keys(s.documents),
    ensures
        distinct_keys(s.without_stale(uris, n, kept, at).documents),
        keeps_places(s.files, s.without_stale(uris, n, kept, at).files),
        forall|i: int|
            0 <= i < n && !kept.contains(uris[i]) ==> !has_key(
                s.without_stale(uris, n, kept, at).documents,
                name_key(#[trigger] uris[i]),
            ),
    decreases n,
{
    if n > 0 {
        lemma_dropping(s, uris, n - 1, kept, at);
        let before = s.without_stale(uris, n - 1, kept, at);
        let after = s.without_stale(uris, n, kept, at);
        lemma_without_key_distinct(before.documents, name_key(uris[n - 1]));
        lemma_with_entry_keeps_places(before.files, name_key(uris[n - 1]), at);
        assert(keeps_places(before.files, after.files));
        assert forall|i: int| 0 <= i < s.files.len() implies (#[trigger] after.files[i]).0
            == s.files[i].0 by {
            assert(before.files[i].0 == s.files[i].0);
        }
        assert forall|i: int| 0 <= i < n && !kept.contains(uris[i]) implies !has_key(
            after.documents,
            name_key(#[trigger] uris[i]),
        ) by {
            if i < n - 1 {
                assert(!has_key(before.documents, name_key(uris[i])));
            }
        }
    }
}

proof fn lemma_loading(s: SessionView, files: Seq<FileView>, n: int, at: RevisionId)
    requires
        0 <= n <= files.len(),
        distinct_keys(s.documents),
        distinct_files(files),
    ensures
        distinct_keys(s.with_files(files, n, at).documents),
        keeps_places(s.files, s.with_files(files, n, at).files),
        forall|i: int|
            0 <= i < n ==> holds_file(s.with_files(files, n, at).documents, #[trigger] files[i]),
    decreases n,
{
    if n > 0 {
        lemma_loading(s, files, n - 1, at);
        let before = s.with_files(files, n - 1, at);
        let after = s.with_files(files, n, at);
        let file = files[n - 1];
        let document = DocumentView {
            content: file.1,
            outline: before.next_outline(file.0, file.1),
        };
        lemma_with_entry_distinct(before.documents, name_key(file.0), document);
        lemma_entry_is_found(before.documents, name_key(file.0), document);
        lemma_with_entry_keeps_places(before.files, name_key(file.0), at);
        assert(keeps_places(before.files, after.files));
        assert forall|i: int| 0 <= i < s.files.len() implies (#[trigger] after.files[i]).0
            == s.files[i].0 by {
            assert(before.files[i].0 == s.files[i].0);
        }
        assert forall|i: int| 0 <= i < n implies holds_file(
            after.documents,
            #[trigger] files[i],
        ) by {
            if i < n - 1 {
                assert(files[i].0 != files[n - 1].0);
                lemma_name_keys_differ(files[i].0, file.0);
                lemma_other_entry(
                    before.documents,
                    name_key(file.0),
                    document,
                    name_key(files[i].0),
                );
                assert(holds_file(before.documents, files[i]));
            }
        }
    }
}

proof fn lemma_held_files_do_not_change(
    s: SessionView,
    files: Seq<FileView>,
    n: int,
    at: RevisionId,
)
    requires
        0 <= n <= files.len(),
        forall|i: int| 0 <= i < n ==> holds_file(s.documents, #[trigger] files[i]),
    ensures
        !s.files_change(files, n, at),
        s.with_files(files, n, at) == s,
    decreases n,
{
    if n > 0 {
        lemma_held_files_do_not_change(s, files, n - 1, at);
        assert(holds_file(s.documents, files[n - 1]));
    }
}

proof fn lemma_unchanged_files_are_held(
    s: SessionView,
    files: Seq<FileView>,
    n: int,
    at: RevisionId,
)
    requires
        0 <= n <= files.len(),
        !s.files_change(files, n, at),
    ensures
        s.with_files(files, n, at) == s,
        forall|i: int| 0 <= i < n ==> holds_file(s.documents, #[trigger] files[i]),
    decreases n,
{
    if n > 0 {
        lemma_unchanged_files_are_held(s, files, n - 1, at);
    }
}

proof fn lemma_loaded(
    s: SessionView,
    key: Seq<char>,
    kind: SourceRootKind,
    files: Seq<FileView>,
)
    requires
        distinct_keys(s.documents),
        distinct_files(files),
    ensures
        forall|i: int|
            0 <= i < files.len() ==> holds_file(
                s.after_source_set(key, kind, files).documents,
                #[trigger] files[i],
            ),
        keeps_places(s.files, s.after_source_set(key, kind, files).files),
        keeps_places(s.roots, s.after_source_set(key, kind, files).roots),
        !s.after_source_set(key, kind, files).root_changes(key, kind, file_uris(files)),
{
    let at = s.next_revision();
    let n = files.len() as int;
    if s.source_set_changes(key, kind, files) {
        let uris = s.listed(key);
        let kept = file_uris(files);
        let stripped = s.without_stale(uris, uris.len() as int, kept, at);
        lemma_dropping(s, uris, uris.len() as int, kept, at);
        lemma_loading(stripped, files, n, at);
        let loaded = s.with_loaded(key, files, at);
        assert(loaded == stripped.with_files(files, n, at));
        lemma_loading_keeps_roots(s, uris, kept, files, uris.len() as int, at);
        lemma_loading_keeps_roots(stripped, uris, kept, files, n, at);
        let record = RecordView {
            id: match value_of(s.roots, name_key(key)) {
                Some(r) => r.id,
                None => s.roots.len() as usize,
            },
            kind,
            durability: kind.durability_spec(),
            uris: kept,
            detached: Seq::empty(),
            revision: at,
        };
        lemma_entry_is_found(s.roots, name_key(key), record);
        lemma_with_entry_keeps_places(s.roots, name_key(key), record);
        let after = s.after_source_set(key, kind, files);
        assert forall|i: int| 0 <= i < s.files.len() implies (#[trigger] after.files[i]).0
            == s.files[i].0 by {
            assert(stripped.files[i].0 == s.files[i].0);
        }
    } else {
        lemma_unchanged_files_are_held(s, files, n, at);
    }
}

/// After a source set is loaded, each of its files has the text that was loaded
/// for it, and the set lists just these files.
pub proof fn law_source_set_is_read_back(
    s: SessionView,
    key: Seq<char>,
    kind: SourceRootKind,
    files: Seq<FileView>,
    i: int,
)
    requires
        distinct_keys(s.documents),
        distinct_files(files),
        0 <= i < files.len(),
    ensures
        holds_file(s.after_source_set(key, kind, files).documents, files[i]),
        s.after_source_set(key, kind, files).listed(key) == file_uris(files),
{
    lemma_loaded(s, key, kind, files);
}

/// Loading the same source set again changes nothing.
pub proof fn law_reloading_changes_nothing(
    s: SessionView,
    key: Seq<char>,
    kind: SourceRootKind,
    files: Seq<FileView>,
)
    requires
        distinct_keys(s.documents),
        distinct_files(files),
    ensures
        s.after_source_set(key, kind, files).after_source_set(key, kind, files)
            == s.after_source_set(key, kind, files),
{
    lemma_loaded(s, key, kind, files);
    let after = s.after_source_set(key, kind, files);
    lemma_held_files_do_not_change(after, files, files.len() as int, after.next_revision());
}

/// Loading a source set that changes something takes the session, and the set,
/// to the next revision; the set keeps its id, and every file and every set keeps
/// its place.
pub proof fn law_source_sets_keep_their_identity(
    s: SessionView,
    key: Seq<char>,
    kind: SourceRootKind,
    files: Seq<FileView>,
)
    requires
        distinct_keys(s.documents),
        distinct_files(files),
    ensures
        keeps_places(s.files, s.after_source_set(key, kind, files).files),
        keeps_places(s.roots, s.after_source_set(key, kind, files).roots),
        value_of(s.roots, name_key(key)) matches Some(r) ==> value_of(
            s.after_source_set(key, kind, files).roots,
            name_key(key),
        ) matches Some(q) && q.id == r.id && q.revision == if s.source_set_changes(
            key,
            kind,
            files,
        ) {
            s.next_revision()
        } else {
            r.revision
        },
{
    lemma_loaded(s, key, kind, files);
    let at = s.next_revision();
    let kept = file_uris(files);
    let uris = s.listed(key);
    let stripped = s.without_stale(uris, uris.len() as int, kept, at);
    lemma_loading_keeps_roots(s, uris, kept, files, uris.len() as int, at);
    lemma_loading_keeps_roots(stripped, uris, kept, files, files.len() as int, at);
    if value_of(s.roots, name_key(key)) is Some {
        let r = value_of(s.roots, name_key(key))->0;
        lemma_entry_is_found(
            s.roots,
            name_key(key),
            RecordView {
                id: r.id,
                kind,
                durability: kind.durability_spec(),
                uris: kept,
                detached: Seq::empty(),
                revision: at,
            },
        );
    }
}

/// A removed source set lists no files, and none of the files it listed has a
/// document; its id and every place stay.
pub proof fn law_removed_source_sets_are_empty(s: SessionView, key: Seq<char>, i: int)
    requires
        distinct_keys(s.documents),
        0 <= i < s.listed(key).len(),
    ensures
        s.after_removed_source_set(key).listed(key) == Seq::<Seq<char>>::empty(),
        !has_key(s.after_removed_source_set(key).documents, name_key(s.listed(key)[i])),
        keeps_places(s.files, s.after_removed_source_set(key).files),
        keeps_places(s.roots, s.after_removed_source_set(key).roots),
        value_of(s.roots, name_key(key)) matches Some(r) && (value_of(
            s.after_removed_source_set(key).roots,
            name_key(key),
        ) matches Some(q) && q.id == r.id),
{
    let at = s.next_revision();
    let uris = s.listed(key);
    let none = Seq::<Seq<char>>::empty();
    let r = value_of(s.roots, name_key(key))->0;
    lemma_dropping(s, uris, uris.len() as int, none, at);
    lemma_loading_keeps_roots(s, uris, none, Seq::empty(), uris.len() as int, at);
    assert(!none.contains(uris[i]));
    let record = RecordView {
        id: r.id,
        kind: r.kind,
        durability: r.kind.durability_spec(),
        uris: none,
        detached: Seq::empty(),
        revision: at,
    };
    lemma_entry_is_found(s.roots, name_key(key), record);
    lemma_with_entry_keeps_places(s.roots, name_key(key), record);
}

} // verus!
