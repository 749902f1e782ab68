//! Source sets: files that are loaded and dropped together.
use crate::ir::name_map::{make_name_key, name_key};
use crate::ir::path_map::{lemma_map_with_entry, with_entry};
use crate::session::outline::{class_views, scan_outline, ClassOutline};
use crate::session::session::{list_contains, Session};
use crate::session::store::{
    copy_outline, value_of, Document, DocumentView, RecordView, RevisionId, SessionView,
    SourceRootKind, SourceSetRecord,
};
use crate::text::{copy_strings, owned, same_strings, same_text, views};
use vstd::prelude::*;

verus! {

/// A file and its text.
pub type FileView = (Seq<char>, Seq<char>);

pub open spec fn file_views(files: Seq<(String, String)>) -> Seq<FileView> {
    files.map_values(|f: (String, String)| (f.0@, f.1@))
}

/// The names of files, in order.
pub open spec fn file_uris(files: Seq<FileView>) -> Seq<Seq<char>> {
    files.map_values(|f: FileView| f.0)
}

impl SessionView {
    /// Whether loading a file changes anything.
    pub open spec fn file_changes(self, file: FileView) -> bool {
        match value_of(self.documents, name_key(file.0)) {
            Some(d) => d.content != file.1,
            None => true,
        }
    }

    /// Loading a file at a revision. The roots stay as they are.
    pub open spec fn with_file(self, file: FileView, at: RevisionId) -> SessionView {
        if self.file_changes(file) {
            SessionView {
                documents: with_entry(
                    self.documents,
                    name_key(file.0),
                    DocumentView { content: file.1, outline: self.next_outline(file.0, file.1) },
                ),
                files: with_entry(self.files, name_key(file.0), at),
                roots: self.roots,
                revision: self.revision,
            }
        } else {
            self
        }
    }

    /// Loading the first `n` files.
    pub open spec fn with_files(self, files: Seq<FileView>, n: int, at: RevisionId) -> SessionView
        decreases n,
    {
        if n <= 0 {
            self
        } else {
            self.with_files(files, n - 1, at).with_file(files[n - 1], at)
        }
    }

    /// Whether loading one of the first `n` files changes anything.
    pub open spec fn files_change(self, files: Seq<FileView>, n: int, at: RevisionId) -> bool
        decreases n,
    {
        if n <= 0 {
            false
        } else {
            self.files_change(files, n - 1, at) || self.with_files(files, n - 1, at).file_changes(
                files[n - 1],
            )
        }
    }

    /// Dropping the documents of the first `n` of some files, but for those that
    /// are kept.
    pub open spec fn without_stale(
        self,
        uris: Seq<Seq<char>>,
        n: int,
        kept: Seq<Seq<char>>,
        at: RevisionId,
    ) -> SessionView
        decreases n,
    {
        if n <= 0 {
            self
        } else if kept.contains(uris[n - 1]) {
            self.without_stale(uris, n - 1, kept, at)
        } else {
            self.without_stale(uris, n - 1, kept, at).without_document(uris[n - 1], at)
        }
    }

    /// The files that a source set lists.
    pub open spec fn listed(self, key: Seq<char>) -> Seq<Seq<char>> {
        match value_of(self.roots, name_key(key)) {
            Some(r) => r.uris,
            None => Seq::empty(),
        }
    }

    /// A source set with new members at a revision; it keeps its id.
    pub open spec fn with_members(
        self,
        key: Seq<char>,
        kind: SourceRootKind,
        uris: Seq<Seq<char>>,
        at: RevisionId,
    ) -> SessionView {
        SessionView {
            documents: self.documents,
            files: self.files,
            roots: with_entry(
                self.roots,
                name_key(key),
                RecordView {
                    id: match value_of(self.roots, name_key(key)) {
                        Some(r) => r.id,
                        None => self.roots.len() as usize,
                    },
                    kind,
                    durability: kind.durability_spec(),
                    uris,
                    detached: Seq::empty(),
                    revision: at,
                },
            ),
            revision: self.revision,
        }
    }

    /// The session with the files of a source set loaded and those that the set
    /// no longer lists dropped.
    pub open spec fn with_loaded(
        self,
        key: Seq<char>,
        files: Seq<FileView>,
        at: RevisionId,
    ) -> SessionView {
        self.without_stale(
            self.listed(key),
            self.listed(key).len() as int,
            file_uris(files),
            at,
        ).with_files(files, files.len() as int, at)
    }

    /// Whether replacing a source set changes anything: its kind, its members or
    /// the text of one of them.
    pub open spec fn source_set_changes(
        self,
        key: Seq<char>,
        kind: SourceRootKind,
        files: Seq<FileView>,
    ) -> bool {
        self.root_changes(key, kind, file_uris(files)) || self.files_change(
            files,
            files.len() as int,
            self.next_revision(),
        )
    }

    /// Replacing a source set: its files are loaded, the documents of members
    /// that left are dropped, and all of that happens at the next revision.
    pub open spec fn after_source_set(
        self,
        key: Seq<char>,
        kind: SourceRootKind,
        files: Seq<FileView>,
    ) -> SessionView {
        let at = self.next_revision();
        if self.source_set_changes(key, kind, files) {
            self.with_loaded(key, files, at).with_members(key, kind, file_uris(files), at)
                .at_revision(at)
        } else {
            self
        }
    }

    /// Removing a source set: its documents are dropped and it lists no files;
    /// its record, with its id, stays.
    pub open spec fn after_removed_source_set(self, key: Seq<char>) -> SessionView {
        let at = self.next_revision();
        match value_of(self.roots, name_key(key)) {
            Some(r) => if r.uris.len() == 0 && r.detached.len() == 0 {
                self
            } else {
                self.without_stale(r.uris, r.uris.len() as int, Seq::empty(), at).with_members(
                    key,
                    r.kind,
                    Seq::empty(),
                    at,
                ).at_revision(at)
            },
            None => self,
        }
    }
}

/// Loading files and dropping documents leave the roots and the revision alone.
pub proof fn lemma_loading_keeps_roots(
    s: SessionView,
    uris: Seq<Seq<char>>,
    kept: Seq<Seq<char>>,
    files: Seq<FileView>,
    n: int,
    at: RevisionId,
)
    ensures
        s.with_files(files, n, at).roots == s.roots,
        s.with_files(files, n, at).revision == s.revision,
        s.without_stale(uris, n, kept, at).roots == s.roots,
        s.without_stale(uris, n, kept, at).revision == s.revision,
    decreases n,
{
    if n > 0 {
        lemma_loading_keeps_roots(s, uris, kept, files, n - 1, at);
    }
}

proof fn lemma_unchanged_files(s: SessionView, files: Seq<FileView>, n: int, at: RevisionId)
    requires
        !s.files_change(files, n, at),
    ensures
        s.with_files(files, n, at) == s,
    decreases n,
{
    if n > 0 {
        lemma_unchanged_files(s, files, n - 1, at);
    }
}

proof fn lemma_nothing_stale(
    s: SessionView,
    uris: Seq<Seq<char>>,
    n: int,
    kept: Seq<Seq<char>>,
    at: RevisionId,
)
    requires
        0 <= n <= uris.len(),
        forall|i: int| 0 <= i < n ==> kept.contains(#[trigger] uris[i]),
    ensures
        s.without_stale(uris, n, kept, at) == s,
    decreases n,
{
    if n > 0 {
        lemma_nothing_stale(s, uris, n - 1, kept, at);
    }
}

fn uris_of(files: &Vec<(String, String)>) -> (r: Vec<String>)
    ensures
        views(r@) == file_uris(file_views(files@)),
{
    let ghost all = file_uris(file_views(files@));
    let mut r: Vec<String> = Vec::new();
    let mut i: usize = 0;
    assert(views(r@) =~= all.take(0));
    while i < files.len()
        invariant
            i <= files.len(),
            all == file_uris(file_views(files@)),
            views(r@) == all.take(i as int),
        decreases files.len() - i,
    {
        let ghost before = views(r@);
        r.push(files[i].0.clone());
        assert(views(r@) =~= before.push(files@[i as int].0@));
        i = i + 1;
        assert(views(r@) =~= all.take(i as int));
    }
    assert(all.take(i as int) =~= all);
    r
}

impl Session {
    /// Loads a file at a revision and tells whether anything changed.
    fn load_file(&mut self, uri: &str, text: &str, at: RevisionId) -> (changed: bool)
        requires
            old(self).wf(),
        ensures
            final(self).wf(),
            changed == old(self).content().file_changes((uri@, text@)),
            final(self).content() == old(self).content().with_file((uri@, text@), at),
    {
        let mut outline: Vec<ClassOutline> = Vec::new();
        assert(class_views(outline@) =~= Seq::empty());
        match self.get_document(uri) {
            Some(d) => {
                if same_text(d.content.as_str(), text) {
                    return false;
                }
                outline = copy_outline(&d.outline);
            },
            None => {},
        }
        match scan_outline(text) {
            Some(classes) => {
                outline = classes;
            },
            None => {},
        }
        let document = Document { content: owned(text), outline };
        proof {
            lemma_map_with_entry(
                self.documents.entries(),
                |d: Document| d@,
                name_key(uri@),
                document,
            );
        }
        self.documents.insert(make_name_key(uri), document);
        self.files.insert(make_name_key(uri), at);
        true
    }

    /// Loads files at a revision and tells whether anything changed.
    fn load_files(&mut self, files: &Vec<(String, String)>, at: RevisionId) -> (changed: bool)
        requires
            old(self).wf(),
        ensures
            final(self).wf(),
            changed == old(self).content().files_change(
                file_views(files@),
                files@.len() as int,
                at,
            ),
            final(self).content() == old(self).content().with_files(
                file_views(files@),
                files@.len() as int,
                at,
            ),
    {
        let ghost all = file_views(files@);
        let mut changed = false;
        let mut i: usize = 0;
        while i < files.len()
            invariant
                i <= files.len(),
                self.wf(),
                all == file_views(files@),
                changed == old(self).content().files_change(all, i as int, at),
                self.content() == old(self).content().with_files(all, i as int, at),
            decreases files.len() - i,
        {
            assert(all[i as int] == (files@[i as int].0@, files@[i as int].1@));
            let one = self.load_file(files[i].0.as_str(), files[i].1.as_str(), at);
            changed = changed || one;
            i = i + 1;
        }
        changed
    }

    /// Drops the documents of files that are not kept.
    fn drop_stale(&mut self, uris: &Vec<String>, kept: &Vec<String>, at: RevisionId)
        requires
            old(self).wf(),
        ensures
            final(self).wf(),
            final(self).content() == old(self).content().without_stale(
                views(uris@),
                uris@.len() as int,
                views(kept@),
                at,
            ),
    {
        let ghost all = views(uris@);
        let mut i: usize = 0;
        while i < uris.len()
            invariant
                i <= uris.len(),
                self.wf(),
                all == views(uris@),
                self.content() == old(self).content().without_stale(
                    all,
                    i as int,
                    views(kept@),
                    at,
                ),
            decreases uris.len() - i,
        {
            assert(all[i as int] == uris@[i as int]@);
            if !list_contains(kept, uris[i].as_str()) {
                self.drop_document(uris[i].as_str(), at);
            }
            i = i + 1;
        }
    }

    fn set_members(&mut self, key: &str, kind: SourceRootKind, uris: Vec<String>, at: RevisionId)
        requires
            old(self).wf(),
        ensures
            final(self).wf(),
            final(self).content() == old(self).content().with_members(key@, kind, views(uris@), at),
    {
        let id: usize = match self.source_set(key) {
            Some(r) => r.id,
            None => self.source_sets.len(),
        };
        let record = SourceSetRecord {
            id,
            kind,
            durability: kind.durability(),
            uris,
            detached: Vec::new(),
            revision: at,
        };
        proof {
            assert(record@.detached =~= Seq::empty());
            lemma_map_with_entry(
                self.source_sets.entries(),
                |r: SourceSetRecord| r@,
                name_key(key@),
                record,
            );
        }
        self.source_sets.insert(make_name_key(key), record);
    }

    /// Replaces a source set by some files and tells how many they are.
    pub fn replace_parsed_source_set(
        &mut self,
        key: &str,
        kind: SourceRootKind,
        files: &Vec<(String, String)>,
    ) -> (count: usize)
        requires
            old(self).wf(),
            old(self).current_revision.0 < u64::MAX,
        ensures
            final(self).wf(),
            count == files@.len(),
            final(self).content() == old(self).content().after_source_set(
                key@,
                kind,
                file_views(files@),
            ),
    {
        let ghost s = self.content();
        let ghost all = file_views(files@);
        let at = RevisionId(self.current_revision.0 + 1);
        let uris = uris_of(files);
        let mut members: Vec<String> = Vec::new();
        let mut moved = true;
        assert(views(members@) =~= Seq::empty());
        match self.source_set(key) {
            Some(r) => {
                moved = !(r.kind == kind && same_strings(&r.uris, &uris));
                members = copy_strings(&r.uris);
            },
            None => {},
        }
        assert(views(members@) == s.listed(key@));
        assert(moved == s.root_changes(key@, kind, file_uris(all)));
        if moved {
            self.drop_stale(&members, &uris, at);
        }
        let ghost stripped = self.content();
        let loaded = self.load_files(files, at);
        proof {
            let n = all.len() as int;
            assert(all.len() == files@.len());
            lemma_loading_keeps_roots(
                s,
                s.listed(key@),
                file_uris(all),
                all,
                s.listed(key@).len() as int,
                at,
            );
            lemma_loading_keeps_roots(stripped, Seq::empty(), Seq::empty(), all, n, at);
            if !moved {
                assert forall|i: int| 0 <= i < s.listed(key@).len() implies file_uris(all).contains(
                    #[trigger] s.listed(key@)[i],
                ) by {
                    assert(file_uris(all)[i] == s.listed(key@)[i]);
                }
                lemma_nothing_stale(
                    s,
                    s.listed(key@),
                    s.listed(key@).len() as int,
                    file_uris(all),
                    at,
                );
                if !loaded {
                    lemma_unchanged_files(s, all, n, at);
                }
            }
            assert(self.content() == s.with_loaded(key@, all, at));
        }
        if moved || loaded {
            self.set_members(key, kind, uris, at);
            self.current_revision = at;
        }
        files.len()
    }

    /// Removes a source set. Its record stays, without files.
    pub fn remove_source_set(&mut self, key: &str)
        requires
            old(self).wf(),
            old(self).current_revision.0 < u64::MAX,
        ensures
            final(self).wf(),
            final(self).content() == old(self).content().after_removed_source_set(key@),
    {
        let ghost s = self.content();
        let at = RevisionId(self.current_revision.0 + 1);
        let (members, kind) = match self.source_set(key) {
            Some(r) => {
                assert(r@.uris.len() == r.uris@.len() && r@.detached.len() == r.detached@.len());
                if r.uris.len() == 0 && r.detached.len() == 0 {
                    return ;
                }
                (copy_strings(&r.uris), r.kind)
            },
            None => {
                return ;
            },
        };
        let none: Vec<String> = Vec::new();
        assert(views(none@) =~= Seq::empty());
        assert(views(members@) == s.listed(key@));
        self.drop_stale(&members, &none, at);
        proof {
            lemma_loading_keeps_roots(
                s,
                views(members@),
                Seq::empty(),
                Seq::empty(),
                members@.len() as int,
                at,
            );
        }
        self.set_members(key, kind, none, at);
        self.current_revision = at;
    }
}

} // verus!
