//! The session itself.
use crate::ir::name::PartView;
use crate::ir::path_map::{
    distinct_keys, has_key, lemma_map_with_entry, map_entries, Entry, PathMap,
};
use crate::ir::name_map::{make_name_key, name_key};
use crate::session::lru::lemma_without_key_at;
use crate::session::outline::{class_views, outline_of, scan_outline, ClassOutline};
use crate::session::store::{
    copy_outline, detach, externally_listed, lists_externally, value_of, without_uri, Document,
    DocumentView, FileId, RecordView, RevisionId, SessionView, SourceRootKind, SourceSetRecord,
};
use crate::text::{copy_strings, owned, same_strings, same_text, views};
use vstd::prelude::*;

verus! {

/// A source text that is not a sequence of complete classes.
#[derive(Debug)]
pub struct SourceError {
    pub uri: String,
}

/// One step of a change.
pub enum ChangeStep {
    ReplaceSourceRoot { key: String, kind: SourceRootKind, uris: Vec<String> },
    SetFileText { uri: String, text: String },
}

/// Steps that take effect together.
pub struct SessionChange {
    pub steps: Vec<ChangeStep>,
}

pub enum StepView {
    ReplaceSourceRoot { key: Seq<char>, kind: SourceRootKind, uris: Seq<Seq<char>> },
    SetFileText { uri: Seq<char>, text: Seq<char> },
}

impl View for ChangeStep {
    type V = StepView;

    open spec fn view(&self) -> StepView {
        match *self {
            ChangeStep::ReplaceSourceRoot { key, kind, uris } => StepView::ReplaceSourceRoot {
                key: key@,
                kind,
                uris: views(uris@),
            },
            ChangeStep::SetFileText { uri, text } => StepView::SetFileText {
                uri: uri@,
                text: text@,
            },
        }
    }
}

pub open spec fn step_views(steps: Seq<ChangeStep>) -> Seq<StepView> {
    steps.map_values(|s: ChangeStep| s@)
}

impl SessionChange {
    /// A change without steps.
    pub fn new() -> (c: SessionChange)
        ensures
            step_views(c.steps@) == Seq::<StepView>::empty(),
    {
        let c = SessionChange { steps: Vec::new() };
        assert(step_views(c.steps@) =~= Seq::<StepView>::empty());
        c
    }

    /// Adds the replacement of a source root.
    pub fn replace_source_root(&mut self, key: &str, kind: SourceRootKind, uris: Vec<String>)
        ensures
            step_views(final(self).steps@) == step_views(old(self).steps@).push(
                StepView::ReplaceSourceRoot { key: key@, kind, uris: views(uris@) },
            ),
    {
        let ghost before = step_views(self.steps@);
        let step = ChangeStep::ReplaceSourceRoot { key: owned(key), kind, uris };
        self.steps.push(step);
        assert(step_views(self.steps@) =~= before.push(step@));
    }

    /// Adds a new text for a file.
    pub fn set_file_text(&mut self, uri: &str, text: &str)
        ensures
            step_views(final(self).steps@) == step_views(old(self).steps@).push(
                StepView::SetFileText { uri: uri@, text: text@ },
            ),
    {
        let ghost before = step_views(self.steps@);
        let step = ChangeStep::SetFileText { uri: owned(uri), text: owned(text) };
        self.steps.push(step);
        assert(step_views(self.steps@) =~= before.push(step@));
    }
}

/// Documents and source roots with their history.
pub struct Session {
    pub documents: PathMap<Document>,
    pub files: PathMap<RevisionId>,
    pub source_sets: PathMap<SourceSetRecord>,
    pub current_revision: RevisionId,
}

impl SessionView {
    /// The effect of one step at a revision.
    pub open spec fn with_step(self, step: StepView, at: RevisionId) -> SessionView {
        match step {
            StepView::ReplaceSourceRoot { key, kind, uris } => self.with_root(key, kind, uris, at),
            StepView::SetFileText { uri, text } => self.with_text(uri, text, at),
        }
    }

    pub open spec fn step_changes(self, step: StepView) -> bool {
        match step {
            StepView::ReplaceSourceRoot { key, kind, uris } => self.root_changes(key, kind, uris),
            StepView::SetFileText { uri, text } => self.text_changes(uri, text),
        }
    }

    /// The effect of the first `n` steps, all at one revision.
    pub open spec fn with_steps(self, steps: Seq<StepView>, n: int, at: RevisionId) -> SessionView
        decreases n,
    {
        if n <= 0 {
            self
        } else {
            self.with_steps(steps, n - 1, at).with_step(steps[n - 1], at)
        }
    }

    /// Whether one of the first `n` steps changes anything.
    pub open spec fn steps_change(self, steps: Seq<StepView>, n: int, at: RevisionId) -> bool
        decreases n,
    {
        if n <= 0 {
            false
        } else {
            self.steps_change(steps, n - 1, at) || self.with_steps(
                steps,
                n - 1,
                at,
            ).step_changes(steps[n - 1])
        }
    }

    /// The revision after the current one.
    pub open spec fn next_revision(self) -> RevisionId {
        RevisionId((self.revision.0 + 1) as u64)
    }

    /// The effect of a change: its steps share the next revision, which becomes
    /// the current one where a step changed anything.
    pub open spec fn after_change(self, steps: Seq<StepView>) -> SessionView {
        let at = self.next_revision();
        let n = steps.len() as int;
        if self.steps_change(steps, n, at) {
            self.with_steps(steps, n, at).at_revision(at)
        } else {
            self
        }
    }
}

pub open spec fn document_views(entries: Seq<Entry<Document>>) -> Seq<Entry<DocumentView>> {
    map_entries(entries, |d: Document| d@)
}

pub open spec fn record_views(entries: Seq<Entry<SourceSetRecord>>) -> Seq<Entry<RecordView>> {
    map_entries(entries, |r: SourceSetRecord| r@)
}

/// A key that is there once has the value at its position.
pub proof fn lemma_value_at<V>(entries: Seq<Entry<V>>, key: Seq<PartView>, i: int)
    requires
        distinct_keys(entries),
        0 <= i < entries.len(),
        entries[i].0 == key,
    ensures
        value_of(entries, key) == Some(entries[i].1),
{
    let j = choose|j: int| 0 <= j < entries.len() && (#[trigger] entries[j]).0 == key;
    if i < j {
        assert(entries[i].0 != entries[j].0);
    } else if j < i {
        assert(entries[j].0 != entries[i].0);
    }
}

/// Mapping the values keeps the keys.
pub proof fn lemma_map_keeps_keys<V, W>(entries: Seq<Entry<V>>, f: spec_fn(V) -> W, key: Seq<PartView>)
    requires
        distinct_keys(entries),
    ensures
        distinct_keys(map_entries(entries, f)),
        has_key(map_entries(entries, f), key) == has_key(entries, key),
{
    let mapped = map_entries(entries, f);
    assert forall|i: int, j: int| 0 <= i < j < mapped.len() implies (#[trigger] mapped[i]).0 != (
    #[trigger] mapped[j]).0 by {
        assert(entries[i].0 != entries[j].0);
    }
    if has_key(entries, key) {
        let i = choose|i: int| 0 <= i < entries.len() && (#[trigger] entries[i]).0 == key;
        assert(mapped[i].0 == key);
    }
    if has_key(mapped, key) {
        let i = choose|i: int| 0 <= i < mapped.len() && (#[trigger] mapped[i]).0 == key;
        assert(entries[i].0 == key);
    }
}

/// Whether a list holds a text.
pub fn list_contains(list: &Vec<String>, text: &str) -> (r: bool)
    ensures
        r == views(list@).contains(text@),
{
    let mut i: usize = 0;
    while i < list.len()
        invariant
            i <= list.len(),
            forall|k: int| 0 <= k < i ==> views(list@)[k] != text@,
        decreases list.len() - i,
    {
        assert(views(list@)[i as int] == list@[i as int]@);
        if same_text(list[i].as_str(), text) {
            assert(views(list@).contains(text@));
            return true;
        }
        i = i + 1;
    }
    false
}

fn list_without(list: &Vec<String>, uri: &str) -> (r: Vec<String>)
    ensures
        views(r@) == without_uri(views(list@), uri@),
{
    let mut r: Vec<String> = Vec::new();
    let mut i: usize = 0;
    assert(views(r@) =~= without_uri(views(list@).take(0), uri@));
    while i < list.len()
        invariant
            i <= list.len(),
            views(r@) == without_uri(views(list@).take(i as int), uri@),
        decreases list.len() - i,
    {
        let ghost all = views(list@);
        assert(all.take(i as int + 1).drop_last() =~= all.take(i as int));
        assert(all.take(i as int + 1).last() == list@[i as int]@);
        if !same_text(list[i].as_str(), uri) {
            let ghost before = views(r@);
            r.push(list[i].clone());
            assert(views(r@) =~= before.push(list@[i as int]@));
        }
        i = i + 1;
    }
    assert(views(list@).take(i as int) =~= views(list@));
    r
}

fn detached_record(r: &SourceSetRecord, uri: &str) -> (out: SourceSetRecord)
    ensures
        out@ == detach(r@, uri@),
{
    let external: bool = match r.kind {
        SourceRootKind::Workspace => false,
        _ => true,
    };
    if external && list_contains(&r.uris, uri) {
        let mut detached = copy_strings(&r.detached);
        let ghost before = views(detached@);
        detached.push(owned(uri));
        assert(views(detached@) =~= before.push(uri@));
        SourceSetRecord {
            id: r.id,
            kind: r.kind,
            durability: r.durability,
            uris: list_without(&r.uris, uri),
            detached,
            revision: r.revision,
        }
    } else {
        r.clone()
    }
}

impl Session {
    pub open spec fn wf(self) -> bool {
        self.documents.wf() && self.files.wf() && self.source_sets.wf()
    }

    /// What the session knows.
    pub open spec fn content(self) -> SessionView {
        SessionView {
            documents: document_views(self.documents.entries()),
            files: self.files.entries(),
            roots: record_views(self.source_sets.entries()),
            revision: self.current_revision,
        }
    }

    /// A session without files.
    pub fn new() -> (s: Session)
        ensures
            s.wf(),
            s.content() == (SessionView {
                documents: Seq::empty(),
                files: Seq::empty(),
                roots: Seq::empty(),
                revision: RevisionId(0),
            }),
    {
        let s = Session {
            documents: PathMap::new(),
            files: PathMap::new(),
            source_sets: PathMap::new(),
            current_revision: RevisionId::new(0),
        };
        proof {
            assert(s.content().documents =~= Seq::empty());
            assert(s.content().roots =~= Seq::empty());
        }
        s
    }

    /// The document of a file.
    pub fn get_document(&self, uri: &str) -> (r: Option<&Document>)
        requires
            self.wf(),
        ensures
            match r {
                Some(d) => value_of(self.content().documents, name_key(uri@)) == Some(d@),
                None => value_of(self.content().documents, name_key(uri@)) is None,
            },
    {
        let key = make_name_key(uri);
        let ghost entries = self.documents.entries();
        proof {
            self.documents.lemma_distinct();
            lemma_map_keeps_keys(entries, |d: Document| d@, name_key(uri@));
        }
        match self.documents.position(&key) {
            Some(i) => {
                proof {
                    lemma_value_at(self.content().documents, name_key(uri@), i as int);
                }
                Some(self.documents.value_at(i))
            },
            None => None,
        }
    }

    /// The id of a file that the session has seen.
    pub fn file_id(&self, uri: &str) -> (r: Option<FileId>)
        requires
            self.wf(),
        ensures
            match r {
                Some(id) => id.0 < self.content().files.len() && self.content().files[id.0 as int].0
                    == name_key(uri@),
                None => !has_key(self.content().files, name_key(uri@)),
            },
    {
        let key = make_name_key(uri);
        match self.files.position(&key) {
            Some(i) => Some(FileId(i)),
            None => None,
        }
    }

    /// The last revision of a file that the session has seen.
    pub fn file_revision(&self, uri: &str) -> (r: Option<RevisionId>)
        requires
            self.wf(),
        ensures
            r == value_of(self.content().files, name_key(uri@)),
    {
        let key = make_name_key(uri);
        proof {
            self.files.lemma_distinct();
        }
        match self.files.position(&key) {
            Some(i) => {
                proof {
                    lemma_value_at(self.content().files, name_key(uri@), i as int);
                }
                Some(*self.files.value_at(i))
            },
            None => None,
        }
    }

    /// The record of a source root.
    pub fn source_set(&self, key: &str) -> (r: Option<&SourceSetRecord>)
        requires
            self.wf(),
        ensures
            match r {
                Some(d) => value_of(self.content().roots, name_key(key@)) == Some(d@),
                None => value_of(self.content().roots, name_key(key@)) is None,
            },
    {
        let path = make_name_key(key);
        proof {
            self.source_sets.lemma_distinct();
            lemma_map_keeps_keys(
                self.source_sets.entries(),
                |r: SourceSetRecord| r@,
                name_key(key@),
            );
        }
        match self.source_sets.position(&path) {
            Some(i) => {
                proof {
                    lemma_value_at(self.content().roots, name_key(key@), i as int);
                }
                Some(self.source_sets.value_at(i))
            },
            None => None,
        }
    }

    fn is_externally_listed(&self, uri: &str) -> (r: bool)
        requires
            self.wf(),
        ensures
            r == externally_listed(self.content().roots, uri@),
    {
        let ghost roots = self.content().roots;
        let mut i: usize = 0;
        while i < self.source_sets.len()
            invariant
                i <= self.source_sets.entries().len(),
                roots == self.content().roots,
                forall|k: int| 0 <= k < i ==> !lists_externally((#[trigger] roots[k]).1, uri@),
            decreases self.source_sets.entries().len() - i,
        {
            let record = self.source_sets.value_at(i);
            assert(roots[i as int].1 == record@);
            let external: bool = match record.kind {
                SourceRootKind::Workspace => false,
                _ => true,
            };
            if external && list_contains(&record.uris, uri) {
                assert(lists_externally(roots[i as int].1, uri@));
                return true;
            }
            i = i + 1;
        }
        false
    }

    fn detach_file(&mut self, uri: &str)
        requires
            old(self).wf(),
        ensures
            final(self).wf(),
            final(self).documents == old(self).documents,
            final(self).files == old(self).files,
            final(self).current_revision == old(self).current_revision,
            final(self).content().roots == map_entries(
                old(self).content().roots,
                |r: RecordView| detach(r, uri@),
            ),
            final(self).source_sets.entries().len() == old(self).source_sets.entries().len(),
    {
        let ghost before = self.content().roots;
        let ghost f = |r: RecordView| detach(r, uri@);
        let ghost after = map_entries(before, f);
        let mut i: usize = 0;
        assert(after.take(0) + before.skip(0) =~= before);
        while i < self.source_sets.len()
            invariant
                self.wf(),
                self.documents == old(self).documents,
                self.files == old(self).files,
                self.current_revision == old(self).current_revision,
                self.source_sets.entries().len() == before.len(),
                before == old(self).content().roots,
                f == (|r: RecordView| detach(r, uri@)),
                after == map_entries(before, f),
                i <= before.len(),
                self.content().roots == after.take(i as int) + before.skip(i as int),
            decreases before.len() - i,
        {
            let ghost now = self.content().roots;
            assert(now[i as int] == before[i as int]);
            let record = detached_record(self.source_sets.value_at(i), uri);
            self.source_sets.replace_at(i, record);
            i = i + 1;
            proof {
                assert(after[i - 1] == (before[i - 1].0, record@));
                assert(self.content().roots =~= now.update(i - 1, after[i - 1]));
                assert(self.content().roots =~= after.take(i as int) + before.skip(i as int));
            }
        }
        assert(after.take(i as int) + before.skip(i as int) =~= after);
    }

    /// Gives a file a text at a revision and tells whether anything changed.
    fn set_text(&mut self, uri: &str, text: &str, at: RevisionId) -> (changed: bool)
        requires
            old(self).wf(),
        ensures
            final(self).wf(),
            changed == old(self).content().text_changes(uri@, text@),
            final(self).content() == old(self).content().with_text(uri@, text@, at),
    {
        let listed = self.is_externally_listed(uri);
        let mut outline: Vec<ClassOutline> = Vec::new();
        assert(class_views(outline@) =~= Seq::empty());
        match self.get_document(uri) {
            Some(d) => {
                if !listed && same_text(d.content.as_str(), text) {
                    return false;
                }
                outline = copy_outline(&d.outline);
            },
            None => {},
        }
        match scan_outline(text) {
            Some(classes) => {
                outline = classes;
            },
            None => {},
        }
        let document = Document { content: owned(text), outline };
        proof {
            lemma_map_with_entry(
                self.documents.entries(),
                |d: Document| d@,
                name_key(uri@),
                document,
            );
        }
        self.detach_file(uri);
        self.documents.insert(make_name_key(uri), document);
        self.files.insert(make_name_key(uri), at);
        true
    }

    /// Replaces a source root at a revision and tells whether anything changed.
    fn set_root(&mut self, key: &str, kind: SourceRootKind, uris: &Vec<String>, at: RevisionId) -> (
    changed: bool)
        requires
            old(self).wf(),
        ensures
            final(self).wf(),
            changed == old(self).content().root_changes(key@, kind, views(uris@)),
            final(self).content() == old(self).content().with_root(key@, kind, views(uris@), at),
    {
        let mut id: usize = self.source_sets.len();
        match self.source_set(key) {
            Some(r) => {
                if r.kind == kind && same_strings(&r.uris, uris) {
                    return false;
                }
                id = r.id;
            },
            None => {},
        }
        let record = SourceSetRecord {
            id,
            kind,
            durability: kind.durability(),
            uris: copy_strings(uris),
            detached: Vec::new(),
            revision: at,
        };
        proof {
            assert(record@.detached =~= Seq::empty());
            lemma_map_with_entry(
                self.source_sets.entries(),
                |r: SourceSetRecord| r@,
                name_key(key@),
                record,
            );
        }
        self.source_sets.insert(make_name_key(key), record);
        true
    }

    /// Adds a document, or gives an existing one a new text. A text that
    /// cannot be read changes nothing.
    pub fn add_document(&mut self, uri: &str, text: &str) -> (r: Result<(), SourceError>)
        requires
            old(self).wf(),
            old(self).current_revision.0 < u64::MAX,
        ensures
            final(self).wf(),
            match r {
                Ok(_) => outline_of(text@) is Some && final(self).content()
                    == old(self).content().after_change(
                    seq![StepView::SetFileText { uri: uri@, text: text@ }],
                ),
                Err(e) => outline_of(text@) is None && e.uri@ == uri@ && final(self).content()
                    == old(self).content(),
            },
    {
        match scan_outline(text) {
            None => Err(SourceError { uri: owned(uri) }),
            Some(_) => {
                self.change_text(uri, text);
                Ok(())
            },
        }
    }

    fn change_text(&mut self, uri: &str, text: &str)
        requires
            old(self).wf(),
            old(self).current_revision.0 < u64::MAX,
        ensures
            final(self).wf(),
            final(self).content() == old(self).content().after_change(
                seq![StepView::SetFileText { uri: uri@, text: text@ }],
            ),
    {
        let at = RevisionId(self.current_revision.0 + 1);
        let ghost steps = seq![StepView::SetFileText { uri: uri@, text: text@ }];
        let ghost before = self.content();
        proof {
            assert(before.with_steps(steps, 0, at) == before);
            assert(before.with_steps(steps, 1, at) == before.with_step(steps[0], at));
            assert(before.steps_change(steps, 0, at) == false);
            assert(before.steps_change(steps, 1, at) == before.step_changes(steps[0]));
        }
        if self.set_text(uri, text, at) {
            self.current_revision = at;
        }
    }

    /// Gives a file a new text. A text that cannot be read is kept, with the
    /// outline that the file had before, and reported.
    pub fn update_document(&mut self, uri: &str, text: &str) -> (r: Option<SourceError>)
        requires
            old(self).wf(),
            old(self).current_revision.0 < u64::MAX,
        ensures
            final(self).wf(),
            r is Some <==> outline_of(text@) is None,
            r matches Some(e) ==> e.uri@ == uri@,
            final(self).content() == old(self).content().after_change(
                seq![StepView::SetFileText { uri: uri@, text: text@ }],
            ),
    {
        self.change_text(uri, text);
        match scan_outline(text) {
            None => Some(SourceError { uri: owned(uri) }),
            Some(_) => None,
        }
    }

    /// Drops the document of a file at a revision and tells whether there was one.
    pub(crate) fn drop_document(&mut self, uri: &str, at: RevisionId) -> (dropped: bool)
        requires
            old(self).wf(),
        ensures
            final(self).wf(),
            dropped == has_key(old(self).content().documents, name_key(uri@)),
            final(self).content() == old(self).content().without_document(uri@, at),
    {
        let key = make_name_key(uri);
        let ghost before = self.content().documents;
        proof {
            self.documents.lemma_distinct();
            lemma_map_keeps_keys(self.documents.entries(), |d: Document| d@, name_key(uri@));
        }
        match self.documents.position(&key) {
            Some(i) => {
                proof {
                    lemma_without_key_at(before, name_key(uri@), i as int);
                }
                assert(before[i as int].0 == name_key(uri@));
                let _ = self.documents.remove_at(i);
                assert(self.content().documents =~= before.remove(i as int));
                self.files.insert(make_name_key(uri), at);
                true
            },
            None => false,
        }
    }

    /// Removes a document. Its file keeps its id.
    pub fn remove_document(&mut self, uri: &str)
        requires
            old(self).wf(),
            old(self).current_revision.0 < u64::MAX,
        ensures
            final(self).wf(),
            final(self).content() == if has_key(old(self).content().documents, name_key(uri@)) {
                let at = old(self).content().next_revision();
                old(self).content().without_document(uri@, at).at_revision(at)
            } else {
                old(self).content()
            },
    {
        let at = RevisionId(self.current_revision.0 + 1);
        if self.drop_document(uri, at) {
            self.current_revision = at;
        }
    }

    /// Applies a change: all its steps take effect at the next revision.
    pub fn apply_change(&mut self, change: &SessionChange)
        requires
            old(self).wf(),
            old(self).current_revision.0 < u64::MAX,
        ensures
            final(self).wf(),
            final(self).content() == old(self).content().after_change(step_views(change.steps@)),
    {
        let at = RevisionId(self.current_revision.0 + 1);
        let ghost before = self.content();
        let ghost steps = step_views(change.steps@);
        let mut changed = false;
        let mut i: usize = 0;
        while i < change.steps.len()
            invariant
                i <= change.steps.len(),
                self.wf(),
                steps == step_views(change.steps@),
                self.content() == before.with_steps(steps, i as int, at),
                changed == before.steps_change(steps, i as int, at),
                self.content().revision == before.revision,
                !changed ==> self.content() == before,
            decreases change.steps.len() - i,
        {
            assert(steps[i as int] == change.steps@[i as int]@);
            let step_changed: bool = match &change.steps[i] {
                ChangeStep::ReplaceSourceRoot { key, kind, uris } => self.set_root(
                    key.as_str(),
                    *kind,
                    uris,
                    at,
                ),
                ChangeStep::SetFileText { uri, text } => self.set_text(
                    uri.as_str(),
                    text.as_str(),
                    at,
                ),
            };
            changed = changed || step_changed;
            i = i + 1;
        }
        if changed {
            self.current_revision = at;
        }
    }
}

impl Default for Session {
    fn default() -> (s: Session)
        ensures
            s.wf(),
            s.content() == (SessionView {
                documents: Seq::empty(),
                files: Seq::empty(),
                roots: Seq::empty(),
                revision: RevisionId(0),
            }),
    {
        Session::new()
    }
}

} // verus!
