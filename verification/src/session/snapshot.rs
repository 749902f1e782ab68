//! Snapshots of a session.
use crate::ir::name::{copy_parts, path_view};
use crate::ir::name_map::{make_name_key, name_key};
use crate::ir::path_map::{distinct_keys, has_key, map_entries, Entry, PathMap};
use crate::session::history::{
    entry_names, has_external_files, have_external_files, is_externally_rooted, map_names,
};
use crate::session::queries::{
    class_local_completion_items, components_of, lemma_document_at, lemma_document_value,
};
use crate::session::session::{document_views, record_views, Session};
use crate::session::store::{
    externally_rooted, value_of, Document, DocumentView, RecordView, SourceSetRecord,
};
use crate::text::views;
use vstd::prelude::*;

verus! {

/// A view of a session's documents and source sets that later edits do not touch.
pub struct SessionSnapshot {
    pub documents: PathMap<Document>,
    pub source_sets: PathMap<SourceSetRecord>,
}

impl SessionSnapshot {
    pub open spec fn wf(self) -> bool {
        self.documents.wf() && self.source_sets.wf()
    }

    pub open spec fn content(self) -> Seq<Entry<DocumentView>> {
        document_views(self.documents.entries())
    }

    pub open spec fn roots(self) -> Seq<Entry<RecordView>> {
        record_views(self.source_sets.entries())
    }

    /// The document of a file.
    pub fn get_document(&self, uri: &str) -> (r: Option<&Document>)
        requires
            self.wf(),
        ensures
            match r {
                Some(d) => value_of(self.content(), name_key(uri@)) == Some(d@),
                None => value_of(self.content(), name_key(uri@)) is None,
            },
    {
        let key = make_name_key(uri);
        proof {
            self.documents.lemma_distinct();
            lemma_document_at(self.documents.entries(), name_key(uri@));
        }
        match self.documents.position(&key) {
            Some(i) => {
                proof {
                    lemma_document_value(self.documents.entries(), name_key(uri@), i as int);
                }
                Some(self.documents.value_at(i))
            },
            None => None,
        }
    }

    /// The names of the documents.
    pub fn document_uris(&self) -> (r: Vec<String>)
        requires
            self.wf(),
        ensures
            views(r@) == entry_names(self.content()),
    {
        let r = map_names(&self.documents);
        assert(entry_names(self.content()) =~= entry_names(self.documents.entries()));
        r
    }

    /// The component names that a class of a document offers.
    pub fn class_local_completion_items_query(&self, uri: &str, class: &str) -> (r: Vec<String>)
        requires
            self.wf(),
        ensures
            views(r@) == match value_of(self.content(), name_key(uri@)) {
                Some(d) => components_of(d.outline, class@),
                None => Seq::<Seq<char>>::empty(),
            },
    {
        class_local_completion_items(&self.documents, uri, class)
    }

    /// Whether an external root lists the file or has handed it over.
    pub fn is_non_workspace_source_root_document(&self, uri: &str) -> (r: bool)
        ensures
            r == externally_rooted(self.roots(), uri@),
    {
        is_externally_rooted(&self.source_sets, uri)
    }

    /// Whether documents outside the workspace are worth reading ahead.
    pub fn needs_source_root_read_prewarm(&self) -> (r: bool)
        ensures
            r == has_external_files(self.roots()),
    {
        have_external_files(&self.source_sets)
    }

    /// Whether a document is one of those outside the workspace.
    pub fn document_needs_source_root_read_prewarm(&self, uri: &str) -> (r: bool)
        ensures
            r == externally_rooted(self.roots(), uri@),
    {
        is_externally_rooted(&self.source_sets, uri)
    }
}

proof fn lemma_next_key_is_new<V, W>(
    all: Seq<Entry<V>>,
    copied: Seq<Entry<V>>,
    f: spec_fn(V) -> W,
    i: int,
)
    requires
        distinct_keys(all),
        0 <= i < all.len(),
        map_entries(copied, f) == map_entries(all, f).take(i),
    ensures
        !has_key(copied, all[i].0),
{
    if has_key(copied, all[i].0) {
        let j = choose|j: int| 0 <= j < copied.len() && (#[trigger] copied[j]).0 == all[i].0;
        assert(map_entries(copied, f).len() == copied.len());
        assert(map_entries(copied, f)[j].0 == map_entries(all, f).take(i)[j].0);
        assert(all[j].0 == all[i].0);
        assert(all[j].0 != all[i].0);
    }
}

fn copy_documents(from: &PathMap<Document>) -> (to: PathMap<Document>)
    requires
        from.wf(),
    ensures
        to.wf(),
        document_views(to.entries()) == document_views(from.entries()),
{
    let ghost all = document_views(from.entries());
    let mut to: PathMap<Document> = PathMap::new();
    let mut i: usize = 0;
    proof {
        from.lemma_distinct();
        assert(document_views(to.entries()) =~= all.take(0));
    }
    while i < from.len()
        invariant
            from.wf(),
            to.wf(),
            i <= from.entries().len(),
            distinct_keys(from.entries()),
            all == document_views(from.entries()),
            document_views(to.entries()) == all.take(i as int),
        decreases from.entries().len() - i,
    {
        let path = from.key_at(i);
        let key = copy_parts(path, 0, path.len());
        let document = from.value_at(i).clone();
        let ghost before = to.entries();
        proof {
            assert(path_view(key@) =~= from.entries()[i as int].0);
            lemma_next_key_is_new(from.entries(), before, |d: Document| d@, i as int);
        }
        to.insert(key, document);
        i = i + 1;
        assert(document_views(to.entries()) =~= document_views(before).push(all[i - 1]));
        assert(document_views(to.entries()) =~= all.take(i as int));
    }
    assert(all.take(i as int) =~= all);
    to
}

fn copy_records(from: &PathMap<SourceSetRecord>) -> (to: PathMap<SourceSetRecord>)
    requires
        from.wf(),
    ensures
        to.wf(),
        record_views(to.entries()) == record_views(from.entries()),
{
    let ghost all = record_views(from.entries());
    let mut to: PathMap<SourceSetRecord> = PathMap::new();
    let mut i: usize = 0;
    proof {
        from.lemma_distinct();
        assert(record_views(to.entries()) =~= all.take(0));
    }
    while i < from.len()
        invariant
            from.wf(),
            to.wf(),
            i <= from.entries().len(),
            distinct_keys(from.entries()),
            all == record_views(from.entries()),
            record_views(to.entries()) == all.take(i as int),
        decreases from.entries().len() - i,
    {
        let path = from.key_at(i);
        let key = copy_parts(path, 0, path.len());
        let record = from.value_at(i).clone();
        let ghost before = to.entries();
        proof {
            assert(path_view(key@) =~= from.entries()[i as int].0);
            lemma_next_key_is_new(from.entries(), before, |r: SourceSetRecord| r@, i as int);
        }
        to.insert(key, record);
        i = i + 1;
        assert(record_views(to.entries()) =~= record_views(before).push(all[i - 1]));
        assert(record_views(to.entries()) =~= all.take(i as int));
    }
    assert(all.take(i as int) =~= all);
    to
}

impl Session {
    /// The documents and source sets as they are now.
    pub fn snapshot(&self) -> (r: SessionSnapshot)
        requires
            self.wf(),
        ensures
            r.wf(),
            r.content() == self.content().documents,
            r.roots() == self.content().roots,
    {
        SessionSnapshot {
            documents: copy_documents(&self.documents),
            source_sets: copy_records(&self.source_sets),
        }
    }
}

} // verus!
