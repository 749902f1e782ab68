//! What changed since a revision, and which files belong to which source set.
use crate::ir::name::{path_view, PartView};
use crate::ir::name_map::{make_name_key, name_key};
use crate::ir::path_map::{has_key, Entry, PathKey, PathMap};
use crate::session::session::{list_contains, record_views, Session};
use crate::session::store::{
    externally_rooted, value_of, FileId, RecordView, RevisionId, SourceRootKind, SourceSetRecord,
};
use crate::text::{copy_strings, views};
use vstd::prelude::*;

verus! {

/// The name that a key of one segment stands for.
pub open spec fn key_name(key: Seq<PartView>) -> Seq<char> {
    if key.len() > 0 {
        key[0].0
    } else {
        Seq::empty()
    }
}

fn make_key_name(key: &PathKey) -> (s: String)
    ensures
        s@ == key_name(path_view(key@)),
{
    if key.len() > 0 {
        assert(path_view(key@)[0].0 == key@[0].0@);
        key[0].0.clone()
    } else {
        let s = String::new();
        assert(s@ =~= Seq::empty());
        s
    }
}

/// The names of entries, in order.
pub open spec fn entry_names<V>(entries: Seq<Entry<V>>) -> Seq<Seq<char>> {
    entries.map_values(|e: Entry<V>| key_name(e.0))
}

/// The names under which a map has values, in order.
pub fn map_names<V>(map: &PathMap<V>) -> (r: Vec<String>)
    requires
        map.wf(),
    ensures
        views(r@) == entry_names(map.entries()),
{
    let ghost all = entry_names(map.entries());
    let mut r: Vec<String> = Vec::new();
    let mut i: usize = 0;
    assert(views(r@) =~= all.take(0));
    while i < map.len()
        invariant
            map.wf(),
            i <= map.entries().len(),
            all == entry_names(map.entries()),
            views(r@) == all.take(i as int),
        decreases map.entries().len() - i,
    {
        let ghost before = views(r@);
        let name = make_key_name(map.key_at(i));
        r.push(name);
        assert(views(r@) =~= before.push(name@));
        i = i + 1;
        assert(views(r@) =~= all.take(i as int));
    }
    assert(all.take(i as int) =~= all);
    r
}

/// The ids, among the first `n` files, of those that changed after a revision.
pub open spec fn changed_ids(files: Seq<Entry<RevisionId>>, n: int, since: RevisionId) -> Seq<FileId>
    decreases n,
{
    if n <= 0 {
        Seq::empty()
    } else if files[n - 1].1.0 > since.0 {
        changed_ids(files, n - 1, since).push(FileId((n - 1) as usize))
    } else {
        changed_ids(files, n - 1, since)
    }
}

proof fn lemma_changed_ids(files: Seq<Entry<RevisionId>>, n: int, since: RevisionId, i: int)
    requires
        0 <= i < files.len() <= usize::MAX,
        0 <= n <= files.len(),
    ensures
        changed_ids(files, n, since).contains(FileId(i as usize)) <==> i < n && files[i].1.0
            > since.0,
    decreases n,
{
    if n > 0 {
        lemma_changed_ids(files, n - 1, since, i);
        let front = changed_ids(files, n - 1, since);
        let id = FileId(i as usize);
        if files[n - 1].1.0 > since.0 {
            let all = front.push(FileId((n - 1) as usize));
            if front.contains(id) {
                let k = choose|k: int| 0 <= k < front.len() && front[k] == id;
                assert(all[k] == id);
            }
            if i == n - 1 {
                assert(all[front.len() as int] == id);
            }
            if all.contains(id) && i != n - 1 {
                let k = choose|k: int| 0 <= k < all.len() && all[k] == id;
                assert(front[k] == id);
            }
        }
    }
}

/// A file is reported as changed since a revision just when its last change came
/// after that revision.
pub proof fn law_changed_files_are_reported(
    files: Seq<Entry<RevisionId>>,
    since: RevisionId,
    i: int,
)
    requires
        0 <= i < files.len() <= usize::MAX,
    ensures
        changed_ids(files, files.len() as int, since).contains(FileId(i as usize))
            <==> files[i].1.0 > since.0,
{
    lemma_changed_ids(files, files.len() as int, since, i);
}

/// The ids of the files, among the first `n` of some, that a session has seen.
pub open spec fn known_ids(files: Seq<Entry<RevisionId>>, uris: Seq<Seq<char>>, n: int) -> Seq<FileId>
    decreases n,
{
    if n <= 0 {
        Seq::empty()
    } else if has_key(files, name_key(uris[n - 1])) {
        known_ids(files, uris, n - 1).push(FileId(place_of(files, name_key(uris[n - 1])) as usize))
    } else {
        known_ids(files, uris, n - 1)
    }
}

/// The position of a key.
pub open spec fn place_of<V>(entries: Seq<Entry<V>>, key: Seq<PartView>) -> int {
    choose|i: int| 0 <= i < entries.len() && (#[trigger] entries[i]).0 == key
}

/// Whether a root outside the workspace has files.
pub open spec fn has_external_files(roots: Seq<Entry<RecordView>>) -> bool {
    exists|i: int|
        0 <= i < roots.len() && (#[trigger] roots[i]).1.kind != SourceRootKind::Workspace && (
        roots[i].1.uris.len() > 0 || roots[i].1.detached.len() > 0)
}

/// Whether a root outside the workspace has files.
pub fn have_external_files(sets: &PathMap<SourceSetRecord>) -> (r: bool)
    ensures
        r == has_external_files(record_views(sets.entries())),
{
    let ghost roots = record_views(sets.entries());
    let mut i: usize = 0;
    while i < sets.len()
        invariant
            i <= sets.entries().len(),
            roots == record_views(sets.entries()),
            forall|k: int|
                0 <= k < i ==> !((#[trigger] roots[k]).1.kind != SourceRootKind::Workspace && (
                roots[k].1.uris.len() > 0 || roots[k].1.detached.len() > 0)),
        decreases sets.entries().len() - i,
    {
        let record = sets.value_at(i);
        assert(roots[i as int].1 == record@);
        assert(record@.uris.len() == record.uris@.len());
        assert(record@.detached.len() == record.detached@.len());
        let external: bool = match record.kind {
            SourceRootKind::Workspace => false,
            _ => true,
        };
        if external && (record.uris.len() > 0 || record.detached.len() > 0) {
            assert(roots[i as int].1.kind != SourceRootKind::Workspace);
            return true;
        }
        i = i + 1;
    }
    false
}

/// Whether an external root lists the file or has handed it over.
pub fn is_externally_rooted(sets: &PathMap<SourceSetRecord>, uri: &str) -> (r: bool)
    ensures
        r == externally_rooted(record_views(sets.entries()), uri@),
{
    let ghost roots = record_views(sets.entries());
    let mut i: usize = 0;
    while i < sets.len()
        invariant
            i <= sets.entries().len(),
            roots == record_views(sets.entries()),
            forall|k: int|
                0 <= k < i ==> !((#[trigger] roots[k]).1.kind != SourceRootKind::Workspace && (
                roots[k].1.uris.contains(uri@) || roots[k].1.detached.contains(uri@))),
        decreases sets.entries().len() - i,
    {
        let record = sets.value_at(i);
        assert(roots[i as int].1 == record@);
        let external: bool = match record.kind {
            SourceRootKind::Workspace => false,
            _ => true,
        };
        if external && (list_contains(&record.uris, uri) || list_contains(&record.detached, uri)) {
            assert(roots[i as int].1.kind != SourceRootKind::Workspace);
            return true;
        }
        i = i + 1;
    }
    false
}

/// A file of an external root makes that root one with files.
pub proof fn law_external_files_have_a_root(roots: Seq<Entry<RecordView>>, uri: Seq<char>)
    requires
        externally_rooted(roots, uri),
    ensures
        has_external_files(roots),
{
    let i = choose|i: int|
        0 <= i < roots.len() && (#[trigger] roots[i]).1.kind != SourceRootKind::Workspace && (
        roots[i].1.uris.contains(uri) || roots[i].1.detached.contains(uri));
    assert(roots[i].1.uris.len() > 0 || roots[i].1.detached.len() > 0);
}

impl Session {
    /// The ids of the files that changed after a revision.
    pub fn changed_file_ids_since(&self, since: RevisionId) -> (r: Vec<FileId>)
        requires
            self.wf(),
        ensures
            r@ == changed_ids(
                self.content().files,
                self.content().files.len() as int,
                since,
            ),
    {
        let ghost files = self.content().files;
        let mut r: Vec<FileId> = Vec::new();
        let mut i: usize = 0;
        while i < self.files.len()
            invariant
                i <= files.len(),
                files == self.content().files,
                r@ == changed_ids(files, i as int, since),
            decreases files.len() - i,
        {
            if self.files.value_at(i).0 > since.0 {
                r.push(FileId(i));
            }
            i = i + 1;
        }
        r
    }

    /// The names of the files that changed after a revision.
    pub fn changed_file_uris_since(&self, since: RevisionId) -> (r: Vec<String>)
        requires
            self.wf(),
        ensures
            views(r@) == changed_ids(
                self.content().files,
                self.content().files.len() as int,
                since,
            ).map_values(|id: FileId| key_name(self.content().files[id.0 as int].0)),
    {
        let ghost files = self.content().files;
        let ghost f = |id: FileId| key_name(files[id.0 as int].0);
        let mut r: Vec<String> = Vec::new();
        let mut i: usize = 0;
        assert(views(r@) =~= changed_ids(files, 0, since).map_values(f));
        while i < self.files.len()
            invariant
                self.wf(),
                i <= files.len(),
                files == self.content().files,
                f == (|id: FileId| key_name(files[id.0 as int].0)),
                views(r@) == changed_ids(files, i as int, since).map_values(f),
            decreases files.len() - i,
        {
            if self.files.value_at(i).0 > since.0 {
                let ghost before = views(r@);
                let name = make_key_name(self.files.key_at(i));
                r.push(name);
                assert(views(r@) =~= before.push(name@));
                assert(f(FileId(i)) == name@);
                assert(views(r@) =~= changed_ids(files, i as int + 1, since).map_values(f));
            }
            i = i + 1;
        }
        assert(f =~= (|id: FileId| key_name(self.content().files[id.0 as int].0)));
        r
    }

    /// The name of a file.
    pub fn file_uri(&self, id: FileId) -> (r: Option<String>)
        requires
            self.wf(),
        ensures
            match r {
                Some(s) => id.0 < self.content().files.len() && s@ == key_name(
                    self.content().files[id.0 as int].0,
                ),
                None => id.0 >= self.content().files.len(),
            },
    {
        if id.0 < self.files.len() {
            Some(make_key_name(self.files.key_at(id.0)))
        } else {
            None
        }
    }

    /// The id of a source set, which it keeps even after its removal.
    pub fn source_set_id(&self, key: &str) -> (r: Option<usize>)
        requires
            self.wf(),
        ensures
            r == match value_of(self.content().roots, name_key(key@)) {
                Some(record) => Some(record.id),
                None => None,
            },
    {
        match self.source_set(key) {
            Some(record) => Some(record.id),
            None => None,
        }
    }

    /// The revision at which a source set last changed.
    pub fn source_set_revision(&self, key: &str) -> (r: Option<RevisionId>)
        requires
            self.wf(),
        ensures
            r == match value_of(self.content().roots, name_key(key@)) {
                Some(record) => Some(record.revision),
                None => None,
            },
    {
        match self.source_set(key) {
            Some(record) => Some(record.revision),
            None => None,
        }
    }

    /// The ids of the files of a source set, as far as the session has seen them.
    pub fn source_set_file_ids(&self, key: &str) -> (r: Vec<FileId>)
        requires
            self.wf(),
        ensures
            r@ == known_ids(
                self.content().files,
                self.content().listed(key@),
                self.content().listed(key@).len() as int,
            ),
    {
        let ghost files = self.content().files;
        let uris: Vec<String> = match self.source_set(key) {
            Some(record) => copy_strings(&record.uris),
            None => Vec::new(),
        };
        let ghost all = self.content().listed(key@);
        assert(views(uris@) =~= all);
        let mut r: Vec<FileId> = Vec::new();
        let mut i: usize = 0;
        while i < uris.len()
            invariant
                self.wf(),
                i <= uris.len(),
                files == self.content().files,
                all == views(uris@),
                r@ == known_ids(files, all, i as int),
            decreases uris.len() - i,
        {
            assert(all[i as int] == uris@[i as int]@);
            let path = make_name_key(uris[i].as_str());
            match self.files.position(&path) {
                Some(at) => {
                    proof {
                        self.files.lemma_distinct();
                        let place = place_of(files, name_key(all[i as int]));
                        assert(files[place].0 == files[at as int].0);
                    }
                    r.push(FileId(at));
                },
                None => {},
            }
            i = i + 1;
        }
        r
    }

    /// Whether an external root lists the file or has handed it over.
    pub fn is_non_workspace_source_root_document(&self, uri: &str) -> (r: bool)
        requires
            self.wf(),
        ensures
            r == externally_rooted(self.content().roots, uri@),
    {
        is_externally_rooted(&self.source_sets, uri)
    }

    /// Whether documents outside the workspace are worth reading ahead.
    pub fn needs_source_root_read_prewarm(&self) -> (r: bool)
        requires
            self.wf(),
        ensures
            r == has_external_files(self.content().roots),
    {
        have_external_files(&self.source_sets)
    }

    /// Whether a document is one of those outside the workspace.
    pub fn document_needs_source_root_read_prewarm(&self, uri: &str) -> (r: bool)
        requires
            self.wf(),
        ensures
            r == externally_rooted(self.content().roots, uri@),
    {
        is_externally_rooted(&self.source_sets, uri)
    }
}

} // verus!
