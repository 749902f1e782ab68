//! Documents, stable file ids, revisions and source roots of a session.
use crate::ir::name::PartView;
use crate::ir::path_map::{has_key, map_entries, with_entry, Entry};
use crate::ir::name_map::name_key;
use crate::session::lru::without_key;
use crate::session::outline::{class_views, outline_of, ClassOutline, ClassView};
use crate::text::{copy_strings, views};
use vstd::prelude::*;

verus! {

/// A point in the history of a session.
#[derive(Clone, Copy, Debug, PartialEq, Eq, PartialOrd, Ord, Structural)]
pub struct RevisionId(pub u64);

impl RevisionId {
    pub fn new(value: u64) -> (r: RevisionId)
        ensures
            r == RevisionId(value),
    {
        RevisionId(value)
    }
}

impl Default for RevisionId {
    fn default() -> (r: Self)
        ensures
            r == RevisionId(0),
    {
        RevisionId(0)
    }
}

/// Identity of a file, stable for the lifetime of a session.
#[derive(Clone, Copy, Debug, PartialEq, Eq, Structural)]
pub struct FileId(pub usize);

#[derive(Clone, Copy, Debug, PartialEq, Eq, Structural)]
pub enum SourceRootKind {
    Workspace,
    External,
    DurableExternal,
}

#[derive(Clone, Copy, Debug, PartialEq, Eq, Structural)]
pub enum SourceRootDurability {
    Volatile,
    Normal,
    Durable,
}

impl SourceRootKind {
    pub open spec fn durability_spec(self) -> SourceRootDurability {
        match self {
            SourceRootKind::Workspace => SourceRootDurability::Volatile,
            SourceRootKind::External => SourceRootDurability::Normal,
            SourceRootKind::DurableExternal => SourceRootDurability::Durable,
        }
    }

    /// How long what a root of this kind holds is expected to stay.
    pub fn durability(&self) -> (d: SourceRootDurability)
        ensures
            d == self.durability_spec(),
    {
        match self {
            SourceRootKind::Workspace => SourceRootDurability::Volatile,
            SourceRootKind::External => SourceRootDurability::Normal,
            SourceRootKind::DurableExternal => SourceRootDurability::Durable,
        }
    }
}

/// A document: its text and the outline of the last text that could be read.
#[derive(Debug)]
pub struct Document {
    pub content: String,
    pub outline: Vec<ClassOutline>,
}

pub struct DocumentView {
    pub content: Seq<char>,
    pub outline: Seq<ClassView>,
}

impl View for Document {
    type V = DocumentView;

    open spec fn view(&self) -> DocumentView {
        DocumentView { content: self.content@, outline: class_views(self.outline@) }
    }
}

/// A copy of an outline.
pub fn copy_outline(list: &Vec<ClassOutline>) -> (r: Vec<ClassOutline>)
    ensures
        class_views(r@) == class_views(list@),
{
    let mut r: Vec<ClassOutline> = Vec::new();
    let mut i: usize = 0;
    assert(class_views(r@) =~= class_views(list@).take(0));
    while i < list.len()
        invariant
            i <= list.len(),
            class_views(r@) == class_views(list@).take(i as int),
        decreases list.len() - i,
    {
        let ghost before = class_views(r@);
        r.push(list[i].clone());
        assert(class_views(r@) =~= before.push(class_views(list@)[i as int]));
        i = i + 1;
        assert(class_views(r@) =~= class_views(list@).take(i as int));
    }
    assert(class_views(list@).take(i as int) =~= class_views(list@));
    r
}

impl Clone for Document {
    fn clone(&self) -> (r: Self)
        ensures
            r@ == self@,
    {
        Document { content: self.content.clone(), outline: copy_outline(&self.outline) }
    }
}

/// A source root and the files that belong to it.
#[derive(Debug)]
pub struct SourceSetRecord {
    pub id: usize,
    pub kind: SourceRootKind,
    pub durability: SourceRootDurability,
    pub uris: Vec<String>,
    /// Files that an editor has taken over from an external root.
    pub detached: Vec<String>,
    pub revision: RevisionId,
}

pub struct RecordView {
    pub id: usize,
    pub kind: SourceRootKind,
    pub durability: SourceRootDurability,
    pub uris: Seq<Seq<char>>,
    pub detached: Seq<Seq<char>>,
    pub revision: RevisionId,
}

impl View for SourceSetRecord {
    type V = RecordView;

    open spec fn view(&self) -> RecordView {
        RecordView {
            id: self.id,
            kind: self.kind,
            durability: self.durability,
            uris: views(self.uris@),
            detached: views(self.detached@),
            revision: self.revision,
        }
    }
}

impl Clone for SourceSetRecord {
    fn clone(&self) -> (r: Self)
        ensures
            r@ == self@,
    {
        SourceSetRecord {
            id: self.id,
            kind: self.kind,
            durability: self.durability,
            uris: copy_strings(&self.uris),
            detached: copy_strings(&self.detached),
            revision: self.revision,
        }
    }
}

/// Everything that a session knows about its files.
pub struct SessionView {
    pub documents: Seq<Entry<DocumentView>>,
    /// The last revision of each file; a file's id is its position.
    pub files: Seq<Entry<RevisionId>>,
    pub roots: Seq<Entry<RecordView>>,
    pub revision: RevisionId,
}

/// The value of a key, where there is one.
pub open spec fn value_of<V>(entries: Seq<Entry<V>>, key: Seq<PartView>) -> Option<V> {
    if has_key(entries, key) {
        Some(
            entries[choose|i: int| 0 <= i < entries.len() && (#[trigger] entries[i]).0 == key].1,
        )
    } else {
        None
    }
}

/// Whether an external root lists the file.
pub open spec fn lists_externally(r: RecordView, uri: Seq<char>) -> bool {
    r.kind != SourceRootKind::Workspace && r.uris.contains(uri)
}

pub open spec fn without_uri(uris: Seq<Seq<char>>, uri: Seq<char>) -> Seq<Seq<char>>
    decreases uris.len(),
{
    if uris.len() == 0 {
        uris
    } else if uris.last() == uri {
        without_uri(uris.drop_last(), uri)
    } else {
        without_uri(uris.drop_last(), uri).push(uris.last())
    }
}

/// The root after an editor has taken a file over: an external root no longer
/// lists it, but remembers it.
pub open spec fn detach(r: RecordView, uri: Seq<char>) -> RecordView {
    if lists_externally(r, uri) {
        RecordView {
            id: r.id,
            kind: r.kind,
            durability: r.durability,
            uris: without_uri(r.uris, uri),
            detached: r.detached.push(uri),
            revision: r.revision,
        }
    } else {
        r
    }
}

pub open spec fn externally_listed(roots: Seq<Entry<RecordView>>, uri: Seq<char>) -> bool {
    exists|i: int| 0 <= i < roots.len() && lists_externally((#[trigger] roots[i]).1, uri)
}

/// Whether an external root lists the file or has handed it over.
pub open spec fn externally_rooted(roots: Seq<Entry<RecordView>>, uri: Seq<char>) -> bool {
    exists|i: int|
        0 <= i < roots.len() && (#[trigger] roots[i]).1.kind != SourceRootKind::Workspace && (
        roots[i].1.uris.contains(uri) || roots[i].1.detached.contains(uri))
}

impl SessionView {
    /// Whether setting a file's text changes anything.
    pub open spec fn text_changes(self, uri: Seq<char>, text: Seq<char>) -> bool {
        ||| externally_listed(self.roots, uri)
        ||| match value_of(self.documents, name_key(uri)) {
            Some(d) => d.content != text,
            None => true,
        }
    }

    /// The outline of a new text: what the text declares, else what the file
    /// declared before.
    pub open spec fn next_outline(self, uri: Seq<char>, text: Seq<char>) -> Seq<ClassView> {
        match outline_of(text) {
            Some(classes) => classes,
            None => match value_of(self.documents, name_key(uri)) {
                Some(d) => d.outline,
                None => Seq::empty(),
            },
        }
    }

    /// Setting a file's text at a revision.
    pub open spec fn with_text(
        self,
        uri: Seq<char>,
        text: Seq<char>,
        at: RevisionId,
    ) -> SessionView {
        if self.text_changes(uri, text) {
            SessionView {
                documents: with_entry(
                    self.documents,
                    name_key(uri),
                    DocumentView { content: text, outline: self.next_outline(uri, text) },
                ),
                files: with_entry(self.files, name_key(uri), at),
                roots: map_entries(self.roots, |r: RecordView| detach(r, uri)),
                revision: self.revision,
            }
        } else {
            self
        }
    }

    /// Whether replacing a source root changes anything.
    pub open spec fn root_changes(
        self,
        key: Seq<char>,
        kind: SourceRootKind,
        uris: Seq<Seq<char>>,
    ) -> bool {
        match value_of(self.roots, name_key(key)) {
            Some(r) => r.kind != kind || r.uris != uris,
            None => true,
        }
    }

    /// Replacing a source root at a revision; a root keeps its id.
    pub open spec fn with_root(
        self,
        key: Seq<char>,
        kind: SourceRootKind,
        uris: Seq<Seq<char>>,
        at: RevisionId,
    ) -> SessionView {
        if self.root_changes(key, kind, uris) {
            SessionView {
                documents: self.documents,
                files: self.files,
                roots: with_entry(
                    self.roots,
                    name_key(key),
                    RecordView {
                        id: match value_of(self.roots, name_key(key)) {
                            Some(r) => r.id,
                            None => self.roots.len() as usize,
                        },
                        kind,
                        durability: kind.durability_spec(),
                        uris,
                        detached: Seq::empty(),
                        revision: at,
                    },
                ),
                revision: self.revision,
            }
        } else {
            self
        }
    }

    /// Dropping the document of a file at a revision; the file keeps its id.
    pub open spec fn without_document(self, uri: Seq<char>, at: RevisionId) -> SessionView {
        if has_key(self.documents, name_key(uri)) {
            SessionView {
                documents: without_key(self.documents, name_key(uri)),
                files: with_entry(self.files, name_key(uri), at),
                roots: self.roots,
                revision: self.revision,
            }
        } else {
            self
        }
    }

    pub open spec fn at_revision(self, revision: RevisionId) -> SessionView {
        SessionView { documents: self.documents, files: self.files, roots: self.roots, revision }
    }
}

} // verus!
