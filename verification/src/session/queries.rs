//! Queries over documents and the caches that keep their answers.
use crate::ir::name::{copy_parts, path_view, PartView};
use crate::ir::path_map::{distinct_keys, has_key, map_entries, with_entry, Entry, PathMap};
use crate::ir::name_map::{make_name_key, name_key};
use crate::session::outline::{class_views, ClassOutline, ClassView};
use crate::session::session::{document_views, Session};
use crate::session::store::{copy_outline, value_of, Document, DocumentView};
use crate::text::{copy_strings, join, join_text, same_strings, same_text, views};
use vstd::prelude::*;

verus! {

/// A class that can be jumped to.
#[derive(Debug)]
pub struct Symbol {
    pub name: String,
    pub path: Vec<String>,
}

pub struct SymbolView {
    pub name: Seq<char>,
    pub path: Seq<Seq<char>>,
}

impl View for Symbol {
    type V = SymbolView;

    open spec fn view(&self) -> SymbolView {
        SymbolView { name: self.name@, path: views(self.path@) }
    }
}

pub open spec fn symbol_views(list: Seq<Symbol>) -> Seq<SymbolView> {
    list.map_values(|s: Symbol| s@)
}

/// The symbols of an outline: its classes.
pub open spec fn symbols_of(outline: Seq<ClassView>) -> Seq<SymbolView> {
    outline.map_values(|c: ClassView| SymbolView { name: c.name, path: c.path })
}

/// The symbols of the first `n` documents, in order.
pub open spec fn workspace_symbols(docs: Seq<Entry<DocumentView>>, n: int) -> Seq<SymbolView>
    decreases n,
{
    if n <= 0 {
        Seq::empty()
    } else {
        workspace_symbols(docs, n - 1) + symbols_of(docs[n - 1].1.outline)
    }
}

/// The outlines of documents, in order.
pub open spec fn outlines_of(docs: Seq<Entry<DocumentView>>) -> Seq<Seq<ClassView>> {
    docs.map_values(|e: Entry<DocumentView>| e.1.outline)
}

/// Whether `part` occurs in `whole` without a gap.
pub open spec fn occurs_in(part: Seq<char>, whole: Seq<char>) -> bool {
    exists|i: int|
        0 <= i <= whole.len() - part.len() && #[trigger] whole.subrange(i, i + part.len()) == part
}

/// The symbols whose name holds a text.
pub open spec fn matching(symbols: Seq<SymbolView>, text: Seq<char>) -> Seq<SymbolView>
    decreases symbols.len(),
{
    if symbols.len() == 0 {
        symbols
    } else if occurs_in(text, symbols.last().name) {
        matching(symbols.drop_last(), text).push(symbols.last())
    } else {
        matching(symbols.drop_last(), text)
    }
}

/// How often answers were at hand, by kind of query.
#[derive(Clone, Copy, Debug, PartialEq, Eq, Structural)]
pub struct SessionCacheStats {
    pub document_symbol_query_hits: u64,
    pub document_symbol_query_misses: u64,
    pub workspace_symbol_query_hits: u64,
    pub workspace_symbol_query_misses: u64,
    pub file_item_index_query_hits: u64,
    pub file_item_index_query_misses: u64,
}

pub open spec fn counted(n: u64) -> u64 {
    if n < u64::MAX {
        (n + 1) as u64
    } else {
        n
    }
}

/// A counter after counting `k` times.
pub open spec fn counted_times(n: u64, k: nat) -> u64 {
    if n + k <= u64::MAX {
        (n + k) as u64
    } else {
        u64::MAX
    }
}

pub open spec fn difference(a: u64, b: u64) -> u64 {
    if a >= b {
        (a - b) as u64
    } else {
        0
    }
}

fn count(n: u64) -> (r: u64)
    ensures
        r == counted(n),
{
    if n < u64::MAX {
        n + 1
    } else {
        n
    }
}

impl SessionCacheStats {
    pub open spec fn zero_spec() -> SessionCacheStats {
        SessionCacheStats {
            document_symbol_query_hits: 0,
            document_symbol_query_misses: 0,
            workspace_symbol_query_hits: 0,
            workspace_symbol_query_misses: 0,
            file_item_index_query_hits: 0,
            file_item_index_query_misses: 0,
        }
    }

    /// Counters at zero.
    pub fn zero() -> (r: SessionCacheStats)
        ensures
            r == SessionCacheStats::zero_spec(),
    {
        SessionCacheStats {
            document_symbol_query_hits: 0,
            document_symbol_query_misses: 0,
            workspace_symbol_query_hits: 0,
            workspace_symbol_query_misses: 0,
            file_item_index_query_hits: 0,
            file_item_index_query_misses: 0,
        }
    }

    /// What was counted since an earlier reading.
    pub fn delta_since(&self, earlier: SessionCacheStats) -> (r: SessionCacheStats)
        ensures
            r == (SessionCacheStats {
                document_symbol_query_hits: difference(
                    self.document_symbol_query_hits,
                    earlier.document_symbol_query_hits,
                ),
                document_symbol_query_misses: difference(
                    self.document_symbol_query_misses,
                    earlier.document_symbol_query_misses,
                ),
                workspace_symbol_query_hits: difference(
                    self.workspace_symbol_query_hits,
                    earlier.workspace_symbol_query_hits,
                ),
                workspace_symbol_query_misses: difference(
                    self.workspace_symbol_query_misses,
                    earlier.workspace_symbol_query_misses,
                ),
                file_item_index_query_hits: difference(
                    self.file_item_index_query_hits,
                    earlier.file_item_index_query_hits,
                ),
                file_item_index_query_misses: difference(
                    self.file_item_index_query_misses,
                    earlier.file_item_index_query_misses,
                ),
            }),
    {
        SessionCacheStats {
            document_symbol_query_hits: self.document_symbol_query_hits.saturating_sub(
                earlier.document_symbol_query_hits,
            ),
            document_symbol_query_misses: self.document_symbol_query_misses.saturating_sub(
                earlier.document_symbol_query_misses,
            ),
            workspace_symbol_query_hits: self.workspace_symbol_query_hits.saturating_sub(
                earlier.workspace_symbol_query_hits,
            ),
            workspace_symbol_query_misses: self.workspace_symbol_query_misses.saturating_sub(
                earlier.workspace_symbol_query_misses,
            ),
            file_item_index_query_hits: self.file_item_index_query_hits.saturating_sub(
                earlier.file_item_index_query_hits,
            ),
            file_item_index_query_misses: self.file_item_index_query_misses.saturating_sub(
                earlier.file_item_index_query_misses,
            ),
        }
    }
}

fn copy_symbols(list: &Vec<Symbol>) -> (r: Vec<Symbol>)
    ensures
        symbol_views(r@) == symbol_views(list@),
{
    let mut r: Vec<Symbol> = Vec::new();
    push_symbols(&mut r, list);
    assert(symbol_views(r@) =~= symbol_views(list@));
    r
}

fn push_symbols(out: &mut Vec<Symbol>, list: &Vec<Symbol>)
    ensures
        symbol_views(final(out)@) == symbol_views(old(out)@) + symbol_views(list@),
{
    let ghost head = symbol_views(out@);
    let mut i: usize = 0;
    assert(symbol_views(out@) =~= head + symbol_views(list@).take(0));
    while i < list.len()
        invariant
            i <= list.len(),
            head == symbol_views(old(out)@),
            symbol_views(out@) == head + symbol_views(list@).take(i as int),
        decreases list.len() - i,
    {
        let symbol = Symbol { name: list[i].name.clone(), path: copy_strings(&list[i].path) };
        let ghost before = symbol_views(out@);
        out.push(symbol);
        assert(symbol_views(out@) =~= before.push(symbol_views(list@)[i as int]));
        i = i + 1;
        assert(symbol_views(out@) =~= head + symbol_views(list@).take(i as int));
    }
    assert(symbol_views(list@).take(i as int) =~= symbol_views(list@));
}

fn outline_symbols(outline: &Vec<ClassOutline>) -> (r: Vec<Symbol>)
    ensures
        symbol_views(r@) == symbols_of(class_views(outline@)),
{
    let ghost all = symbols_of(class_views(outline@));
    let mut r: Vec<Symbol> = Vec::new();
    let mut i: usize = 0;
    assert(symbol_views(r@) =~= all.take(0));
    while i < outline.len()
        invariant
            i <= outline.len(),
            all == symbols_of(class_views(outline@)),
            symbol_views(r@) == all.take(i as int),
        decreases outline.len() - i,
    {
        let symbol = Symbol { name: outline[i].name.clone(), path: copy_strings(&outline[i].path) };
        let ghost before = symbol_views(r@);
        r.push(symbol);
        assert(class_views(outline@)[i as int] == outline@[i as int]@);
        assert(symbol_views(r@) =~= before.push(all[i as int]));
        i = i + 1;
        assert(symbol_views(r@) =~= all.take(i as int));
    }
    assert(all.take(i as int) =~= all);
    r
}

/// Whether two outlines are the same.
pub fn same_outline(a: &Vec<ClassOutline>, b: &Vec<ClassOutline>) -> (r: bool)
    ensures
        r == (class_views(a@) == class_views(b@)),
{
    if a.len() != b.len() {
        assert(class_views(a@).len() != class_views(b@).len());
        return false;
    }
    let mut i: usize = 0;
    while i < a.len()
        invariant
            i <= a.len(),
            a@.len() == b@.len(),
            forall|k: int| 0 <= k < i ==> class_views(a@)[k] == class_views(b@)[k],
        decreases a.len() - i,
    {
        assert(class_views(a@)[i as int] == a@[i as int]@);
        assert(class_views(b@)[i as int] == b@[i as int]@);
        if !(same_text(a[i].name.as_str(), b[i].name.as_str()) && same_strings(
            &a[i].path,
            &b[i].path,
        ) && same_strings(&a[i].components, &b[i].components)) {
            return false;
        }
        i = i + 1;
    }
    assert(class_views(a@) =~= class_views(b@));
    true
}

/// A cached answer: the outline it was made from and the symbols.
pub struct OutlineEntry {
    pub outline: Vec<ClassOutline>,
    pub symbols: Vec<Symbol>,
}

impl OutlineEntry {
    pub open spec fn consistent(self) -> bool {
        symbol_views(self.symbols@) == symbols_of(class_views(self.outline@))
    }
}

/// Cached symbols of all documents: the outlines they were made from and the
/// symbols.
pub struct WorkspaceEntry {
    pub outlines: Vec<Vec<ClassOutline>>,
    pub symbols: Vec<Symbol>,
}

pub open spec fn outline_list(list: Seq<Vec<ClassOutline>>) -> Seq<Seq<ClassView>> {
    list.map_values(|o: Vec<ClassOutline>| class_views(o@))
}

/// The symbols of the first `n` outlines.
pub open spec fn joined_symbols(outlines: Seq<Seq<ClassView>>, n: int) -> Seq<SymbolView>
    decreases n,
{
    if n <= 0 {
        Seq::empty()
    } else {
        joined_symbols(outlines, n - 1) + symbols_of(outlines[n - 1])
    }
}

impl WorkspaceEntry {
    pub open spec fn consistent(self) -> bool {
        symbol_views(self.symbols@) == joined_symbols(
            outline_list(self.outlines@),
            self.outlines@.len() as int,
        )
    }
}

proof fn lemma_joined_is_workspace(docs: Seq<Entry<DocumentView>>, n: int)
    requires
        0 <= n <= docs.len(),
    ensures
        joined_symbols(outlines_of(docs), n) == workspace_symbols(docs, n),
    decreases n,
{
    if n > 0 {
        lemma_joined_is_workspace(docs, n - 1);
        assert(outlines_of(docs)[n - 1] == docs[n - 1].1.outline);
    }
}

/// The caches of a session and their counters.
pub struct QueryState {
    pub files: PathMap<OutlineEntry>,
    pub workspace: Option<WorkspaceEntry>,
    pub stats: SessionCacheStats,
}

/// The outlines that the cached answers were made from, by file.
pub open spec fn outlines_at_hand(files: Seq<Entry<OutlineEntry>>) -> Seq<Entry<Seq<ClassView>>> {
    map_entries(files, |e: OutlineEntry| class_views(e.outline@))
}

/// The outlines at hand after looking up the first `n` documents.
pub open spec fn looked_up(
    cached: Seq<Entry<Seq<ClassView>>>,
    docs: Seq<Entry<DocumentView>>,
    n: int,
) -> Seq<Entry<Seq<ClassView>>>
    decreases n,
{
    if n <= 0 {
        cached
    } else {
        with_entry(looked_up(cached, docs, n - 1), docs[n - 1].0, docs[n - 1].1.outline)
    }
}

/// How many of the first `n` documents have their answer at hand.
pub open spec fn warm_count(
    cached: Seq<Entry<Seq<ClassView>>>,
    docs: Seq<Entry<DocumentView>>,
    n: int,
) -> nat
    decreases n,
{
    if n <= 0 {
        0
    } else if cached.contains((docs[n - 1].0, docs[n - 1].1.outline)) {
        warm_count(cached, docs, n - 1) + 1
    } else {
        warm_count(cached, docs, n - 1)
    }
}

proof fn lemma_warm_count_fits(
    cached: Seq<Entry<Seq<ClassView>>>,
    docs: Seq<Entry<DocumentView>>,
    n: int,
)
    requires
        0 <= n,
    ensures
        warm_count(cached, docs, n) <= n,
    decreases n,
{
    if n > 0 {
        lemma_warm_count_fits(cached, docs, n - 1);
    }
}

/// Looking up a file leaves what is at hand of every other file as it is.
pub proof fn law_lookup_leaves_other_files(
    cached: Seq<Entry<Seq<ClassView>>>,
    key: Seq<PartView>,
    outline: Seq<ClassView>,
    other: Seq<PartView>,
    held: Seq<ClassView>,
)
    requires
        other != key,
    ensures
        with_entry(cached, key, outline).contains((other, held)) == cached.contains((other, held)),
{
    let after = with_entry(cached, key, outline);
    if cached.contains((other, held)) {
        let i = choose|i: int| 0 <= i < cached.len() && cached[i] == (other, held);
        assert(after[i] == (other, held));
    }
    if after.contains((other, held)) {
        let i = choose|i: int| 0 <= i < after.len() && after[i] == (other, held);
        assert(cached[i] == (other, held));
    }
}

proof fn lemma_earlier_lookups_leave(
    cached: Seq<Entry<Seq<ClassView>>>,
    docs: Seq<Entry<DocumentView>>,
    n: int,
    other: Seq<PartView>,
    held: Seq<ClassView>,
)
    requires
        0 <= n <= docs.len(),
        forall|j: int| 0 <= j < n ==> (#[trigger] docs[j]).0 != other,
    ensures
        looked_up(cached, docs, n).contains((other, held)) == cached.contains((other, held)),
    decreases n,
{
    if n > 0 {
        lemma_earlier_lookups_leave(cached, docs, n - 1, other, held);
        law_lookup_leaves_other_files(
            looked_up(cached, docs, n - 1),
            docs[n - 1].0,
            docs[n - 1].1.outline,
            other,
            held,
        );
    }
}

impl QueryState {
    /// Every cached answer is the answer for the outline it was made from.
    pub open spec fn wf(self) -> bool {
        &&& self.files.wf()
        &&& forall|i: int|
            0 <= i < self.files.entries().len() ==> (#[trigger] self.files.entries()[i]).1.consistent()
        &&& self.workspace matches Some(entry) ==> entry.consistent()
    }

    /// The outlines that the cached answers were made from, by file.
    pub open spec fn cached(self) -> Seq<Entry<Seq<ClassView>>> {
        outlines_at_hand(self.files.entries())
    }

    /// Whether the symbols of a file are at hand.
    pub open spec fn warm(self, uri: Seq<char>, outline: Seq<ClassView>) -> bool {
        self.cached().contains((name_key(uri), outline))
    }

    /// Whether the symbols of all documents are at hand.
    pub open spec fn workspace_warm(self, docs: Seq<Entry<DocumentView>>) -> bool {
        self.workspace matches Some(entry) && outline_list(entry.outlines@) == outlines_of(docs)
    }

    /// Empty caches.
    pub fn new() -> (q: QueryState)
        ensures
            q.wf(),
            q.stats == SessionCacheStats::zero_spec(),
            q.workspace is None,
            q.files.entries() == Seq::<Entry<OutlineEntry>>::empty(),
    {
        QueryState { files: PathMap::new(), workspace: None, stats: SessionCacheStats::zero() }
    }

    /// Sets the counters to zero; what is cached stays.
    pub fn reset_session_cache_stats(&mut self)
        requires
            old(self).wf(),
        ensures
            final(self).wf(),
            final(self).stats == SessionCacheStats::zero_spec(),
            final(self).files == old(self).files,
            final(self).workspace == old(self).workspace,
    {
        self.stats = SessionCacheStats::zero();
    }

    /// The symbols of an outline, from the cache where they are at hand.
    fn file_symbols(&mut self, key: Vec<(String, Vec<i64>)>, outline: &Vec<ClassOutline>) -> (r: (
        bool,
        Vec<Symbol>,
    ))
        requires
            old(self).wf(),
        ensures
            final(self).wf(),
            symbol_views(r.1@) == symbols_of(class_views(outline@)),
            r.0 == old(self).cached().contains((path_view(key@), class_views(outline@))),
            final(self).cached().contains((path_view(key@), class_views(outline@))),
            final(self).cached() == with_entry(
                old(self).cached(),
                path_view(key@),
                class_views(outline@),
            ),
            final(self).stats == old(self).stats,
            final(self).workspace == old(self).workspace,
    {
        let ghost k = path_view(key@);
        let ghost before = self.files.entries();
        let ghost cached = self.cached();
        let ghost wanted = (k, class_views(outline@));
        proof {
            self.files.lemma_distinct();
        }
        match self.files.position(&key) {
            Some(i) => {
                let entry = self.files.value_at(i);
                assert(before[i as int].1.consistent());
                if same_outline(&entry.outline, outline) {
                    proof {
                        assert(cached[i as int] == wanted);
                        assert forall|j: int|
                            0 <= j < cached.len() && (#[trigger] cached[j]).0 == k implies cached[j]
                            == wanted by {
                            assert(before[j].0 == k);
                            if j < i {
                                assert(before[j].0 != before[i as int].0);
                            } else if i < j {
                                assert(before[i as int].0 != before[j].0);
                            }
                        }
                        assert(has_key(cached, k));
                        assert(with_entry(cached, k, wanted.1) =~= cached);
                    }
                    return (true, copy_symbols(&entry.symbols));
                }
                assert(!cached.contains(wanted)) by {
                    if cached.contains(wanted) {
                        let j = choose|j: int| 0 <= j < cached.len() && cached[j] == wanted;
                        assert(before[j].0 == k);
                        if j < i {
                            assert(before[j].0 != before[i as int].0);
                        } else if i < j {
                            assert(before[i as int].0 != before[j].0);
                        }
                    }
                }
            },
            None => {
                assert(!cached.contains(wanted)) by {
                    if cached.contains(wanted) {
                        let j = choose|j: int| 0 <= j < cached.len() && cached[j] == wanted;
                        assert(before[j].0 == k);
                    }
                }
            },
        }
        let symbols = outline_symbols(outline);
        let entry = OutlineEntry { outline: copy_outline(outline), symbols: copy_symbols(&symbols) };
        assert(entry.consistent());
        self.files.insert(key, entry);
        proof {
            let after = self.files.entries();
            if has_key(before, k) {
                let i = choose|i: int| 0 <= i < before.len() && (#[trigger] before[i]).0 == k;
                assert(after[i] == (k, entry));
                assert(self.cached()[i] == wanted);
                assert(cached[i].0 == k);
            } else {
                assert(after[before.len() as int] == (k, entry));
                assert(self.cached()[before.len() as int] == wanted);
                assert(!has_key(cached, k)) by {
                    if has_key(cached, k) {
                        let j = choose|j: int|
                            0 <= j < cached.len() && (#[trigger] cached[j]).0 == k;
                        assert(before[j].0 == k);
                    }
                }
            }
            assert(self.cached() =~= with_entry(cached, k, wanted.1));
            assert forall|i: int| 0 <= i < after.len() implies (#[trigger] after[i]).1.consistent() by {
                if i < before.len() {
                    assert(before[i].1.consistent());
                }
            }
        }
        (false, symbols)
    }
}

/// The symbols of a document.
pub fn document_symbols(docs: &PathMap<Document>, q: &mut QueryState, uri: &str) -> (r: Option<
    Vec<Symbol>,
>)
    requires
        docs.wf(),
        old(q).wf(),
    ensures
        final(q).wf(),
        match value_of(document_views(docs.entries()), name_key(uri@)) {
            None => r is None && *final(q) == *old(q),
            Some(d) => {
                &&& r matches Some(symbols) && symbol_views(symbols@) == symbols_of(d.outline)
                &&& final(q).warm(uri@, d.outline)
                &&& final(q).cached() == with_entry(old(q).cached(), name_key(uri@), d.outline)
                &&& final(q).workspace == old(q).workspace
                &&& final(q).stats == if old(q).warm(uri@, d.outline) {
                    SessionCacheStats {
                        document_symbol_query_hits: counted(
                            old(q).stats.document_symbol_query_hits,
                        ),
                        ..old(q).stats
                    }
                } else {
                    SessionCacheStats {
                        document_symbol_query_misses: counted(
                            old(q).stats.document_symbol_query_misses,
                        ),
                        ..old(q).stats
                    }
                }
            },
        },
{
    let key = make_name_key(uri);
    proof {
        docs.lemma_distinct();
        lemma_document_at(docs.entries(), name_key(uri@));
    }
    match docs.position(&key) {
        None => None,
        Some(i) => {
            proof {
                lemma_document_value(docs.entries(), name_key(uri@), i as int);
            }
            let document = docs.value_at(i);
            let (hit, symbols) = q.file_symbols(key, &document.outline);
            if hit {
                q.stats.document_symbol_query_hits = count(q.stats.document_symbol_query_hits);
            } else {
                q.stats.document_symbol_query_misses = count(q.stats.document_symbol_query_misses);
            }
            Some(symbols)
        },
    }
}

/// Documents stand under the keys of their views.
pub proof fn lemma_document_at(entries: Seq<Entry<Document>>, key: Seq<PartView>)
    ensures
        has_key(document_views(entries), key) == has_key(entries, key),
{
    let mapped = document_views(entries);
    if has_key(entries, key) {
        let i = choose|i: int| 0 <= i < entries.len() && (#[trigger] entries[i]).0 == key;
        assert(mapped[i].0 == key);
    }
    if has_key(mapped, key) {
        let i = choose|i: int| 0 <= i < mapped.len() && (#[trigger] mapped[i]).0 == key;
        assert(entries[i].0 == key);
    }
}

/// A key that is there once has the document at its position.
pub proof fn lemma_document_value(entries: Seq<Entry<Document>>, key: Seq<PartView>, i: int)
    requires
        distinct_keys(entries),
        0 <= i < entries.len(),
        entries[i].0 == key,
    ensures
        value_of(document_views(entries), key) == Some(entries[i].1@),
{
    let mapped = document_views(entries);
    assert(mapped[i].0 == key);
    let j = choose|j: int| 0 <= j < mapped.len() && (#[trigger] mapped[j]).0 == key;
    assert(entries[j].0 == key);
    if i < j {
        assert(entries[i].0 != entries[j].0);
    } else if j < i {
        assert(entries[j].0 != entries[i].0);
    }
}

fn outlines_match(entry: &WorkspaceEntry, docs: &PathMap<Document>) -> (r: bool)
    requires
        docs.wf(),
    ensures
        r == (outline_list(entry.outlines@) == outlines_of(document_views(docs.entries()))),
{
    let ghost have = outline_list(entry.outlines@);
    let ghost want = outlines_of(document_views(docs.entries()));
    if entry.outlines.len() != docs.len() {
        assert(have.len() != want.len());
        return false;
    }
    let mut i: usize = 0;
    while i < entry.outlines.len()
        invariant
            i <= entry.outlines.len(),
            entry.outlines@.len() == docs.entries().len(),
            have == outline_list(entry.outlines@),
            want == outlines_of(document_views(docs.entries())),
            forall|k: int| 0 <= k < i ==> have[k] == want[k],
        decreases entry.outlines.len() - i,
    {
        let document = docs.value_at(i);
        assert(document_views(docs.entries())[i as int].1 == document@);
        assert(want[i as int] == class_views(document.outline@));
        assert(have[i as int] == class_views(entry.outlines@[i as int]@));
        if !same_outline(&entry.outlines[i], &document.outline) {
            return false;
        }
        i = i + 1;
    }
    assert(have =~= want);
    true
}

/// Whether `part` occurs in `whole` without a gap.
fn text_occurs_in(part: &str, whole: &str) -> (r: bool)
    ensures
        r == occurs_in(part@, whole@),
{
    let m: usize = part.unicode_len();
    let n: usize = whole.unicode_len();
    if m > n {
        return false;
    }
    let mut i: usize = 0;
    while i <= n - m
        invariant
            m <= n,
            m == part@.len(),
            n == whole@.len(),
            i <= n - m + 1,
            forall|k: int| 0 <= k < i ==> #[trigger] whole@.subrange(k, k + m) != part@,
        decreases n - m + 1 - i,
    {
        if same_text(whole.substring_char(i, i + m), part) {
            assert(whole@.subrange(i as int, i + m) == part@);
            return true;
        }
        if i == n - m {
            return false;
        }
        i = i + 1;
    }
    false
}

fn matching_symbols(list: &Vec<Symbol>, text: &str) -> (r: Vec<Symbol>)
    ensures
        symbol_views(r@) == matching(symbol_views(list@), text@),
{
    let ghost all = symbol_views(list@);
    let mut r: Vec<Symbol> = Vec::new();
    let mut i: usize = 0;
    assert(symbol_views(r@) =~= matching(all.take(0), text@));
    while i < list.len()
        invariant
            i <= list.len(),
            all == symbol_views(list@),
            symbol_views(r@) == matching(all.take(i as int), text@),
        decreases list.len() - i,
    {
        assert(all.take(i as int + 1).drop_last() =~= all.take(i as int));
        assert(all.take(i as int + 1).last() == list@[i as int]@);
        if text_occurs_in(text, list[i].name.as_str()) {
            let ghost before = symbol_views(r@);
            r.push(Symbol { name: list[i].name.clone(), path: copy_strings(&list[i].path) });
            assert(symbol_views(r@) =~= before.push(list@[i as int]@));
        }
        i = i + 1;
    }
    assert(all.take(i as int) =~= all);
    r
}

/// The counters after looking up `n` files of which `warm` were at hand.
pub open spec fn files_counted(before: SessionCacheStats, warm: nat, n: int) -> SessionCacheStats {
    SessionCacheStats {
        file_item_index_query_hits: counted_times(before.file_item_index_query_hits, warm),
        file_item_index_query_misses: counted_times(
            before.file_item_index_query_misses,
            (n - warm) as nat,
        ),
        ..before
    }
}

/// The symbols of all documents whose name holds a text.
///
/// Where no document's outline has changed since the last such query the
/// answer comes from the cache and no file is looked at.
pub fn workspace_symbol_search(docs: &PathMap<Document>, q: &mut QueryState, text: &str) -> (r: Vec<
    Symbol,
>)
    requires
        docs.wf(),
        old(q).wf(),
    ensures
        final(q).wf(),
        symbol_views(r@) == matching(
            workspace_symbols(document_views(docs.entries()), docs.entries().len() as int),
            text@,
        ),
        final(q).workspace_warm(document_views(docs.entries())),
        if old(q).workspace_warm(document_views(docs.entries())) {
            &&& final(q).files == old(q).files
            &&& final(q).workspace == old(q).workspace
            &&& final(q).stats == (SessionCacheStats {
                workspace_symbol_query_hits: counted(old(q).stats.workspace_symbol_query_hits),
                ..old(q).stats
            })
        } else {
            &&& final(q).cached() == looked_up(
                old(q).cached(),
                document_views(docs.entries()),
                docs.entries().len() as int,
            )
            &&& final(q).stats == files_counted(
                SessionCacheStats {
                    workspace_symbol_query_misses: counted(
                        old(q).stats.workspace_symbol_query_misses,
                    ),
                    ..old(q).stats
                },
                warm_count(
                    old(q).cached(),
                    document_views(docs.entries()),
                    docs.entries().len() as int,
                ),
                docs.entries().len() as int,
            )
        },
{
    let ghost all = document_views(docs.entries());
    proof {
        lemma_joined_is_workspace(all, all.len() as int);
        assert(outlines_of(all).len() == all.len());
    }
    if let Some(entry) = &q.workspace {
        if outlines_match(entry, docs) {
            assert(entry.consistent());
            assert(outline_list(entry.outlines@).len() == entry.outlines@.len());
            let r = matching_symbols(&entry.symbols, text);
            q.stats.workspace_symbol_query_hits = count(q.stats.workspace_symbol_query_hits);
            return r;
        }
    }
    q.stats.workspace_symbol_query_misses = count(q.stats.workspace_symbol_query_misses);
    let ghost start = q.stats;
    let ghost cached = q.cached();
    proof {
        docs.lemma_distinct();
    }
    let mut symbols: Vec<Symbol> = Vec::new();
    let mut outlines: Vec<Vec<ClassOutline>> = Vec::new();
    let mut i: usize = 0;
    assert(symbol_views(symbols@) =~= joined_symbols(outlines_of(all), 0));
    assert(outline_list(outlines@) =~= outlines_of(all).take(0));
    while i < docs.len()
        invariant
            docs.wf(),
            q.wf(),
            i <= docs.entries().len(),
            all == document_views(docs.entries()),
            distinct_keys(docs.entries()),
            q.cached() == looked_up(cached, all, i as int),
            q.stats == files_counted(start, warm_count(cached, all, i as int), i as int),
            outlines@.len() == i,
            outline_list(outlines@) == outlines_of(all).take(i as int),
            symbol_views(symbols@) == joined_symbols(outlines_of(all), i as int),
        decreases docs.entries().len() - i,
    {
        let document = docs.value_at(i);
        assert(all[i as int].1 == document@);
        let path = docs.key_at(i);
        let key = copy_parts(path, 0, path.len());
        proof {
            assert(path_view(path@).subrange(0, path@.len() as int) =~= path_view(path@));
            assert(all[i as int].0 == docs.entries()[i as int].0);
            assert forall|j: int| 0 <= j < i implies (#[trigger] all[j]).0 != all[i as int].0 by {
                assert(docs.entries()[j].0 != docs.entries()[i as int].0);
            }
            lemma_earlier_lookups_leave(
                cached,
                all,
                i as int,
                all[i as int].0,
                all[i as int].1.outline,
            );
            lemma_warm_count_fits(cached, all, i as int);
        }
        let (hit, found) = q.file_symbols(key, &document.outline);
        if hit {
            q.stats.file_item_index_query_hits = count(q.stats.file_item_index_query_hits);
        } else {
            q.stats.file_item_index_query_misses = count(q.stats.file_item_index_query_misses);
        }
        push_symbols(&mut symbols, &found);
        let ghost before = outline_list(outlines@);
        let copy = copy_outline(&document.outline);
        outlines.push(copy);
        assert(outline_list(outlines@) =~= before.push(class_views(copy@)));
        i = i + 1;
        assert(outlines_of(all)[i - 1] == class_views(document.outline@));
        assert(outline_list(outlines@) =~= outlines_of(all).take(i as int));
    }
    assert(outlines_of(all).take(i as int) =~= outlines_of(all));
    let r = matching_symbols(&symbols, text);
    let entry = WorkspaceEntry { outlines, symbols };
    assert(entry.consistent());
    q.workspace = Some(entry);
    r
}

/// The components of the first class with a dotted path.
pub open spec fn components_of(outline: Seq<ClassView>, class: Seq<char>) -> Seq<Seq<char>>
    decreases outline.len(),
{
    if outline.len() == 0 {
        Seq::empty()
    } else if join_text(outline[0].path, "."@) == class {
        outline[0].components
    } else {
        components_of(outline.skip(1), class)
    }
}

/// The component names that a class of a document offers.
pub fn class_local_completion_items(docs: &PathMap<Document>, uri: &str, class: &str) -> (r: Vec<
    String,
>)
    requires
        docs.wf(),
    ensures
        views(r@) == match value_of(document_views(docs.entries()), name_key(uri@)) {
            Some(d) => components_of(d.outline, class@),
            None => Seq::<Seq<char>>::empty(),
        },
{
    let key = make_name_key(uri);
    proof {
        docs.lemma_distinct();
        lemma_document_at(docs.entries(), name_key(uri@));
    }
    if let Some(at) = docs.position(&key) {
        proof {
            lemma_document_value(docs.entries(), name_key(uri@), at as int);
        }
        let outline = &docs.value_at(at).outline;
        let ghost all = class_views(outline@);
        let mut i: usize = 0;
        assert(all.skip(0) =~= all);
        while i < outline.len()
            invariant
                i <= outline.len(),
                all == class_views(outline@),
                value_of(document_views(docs.entries()), name_key(uri@)) matches Some(d)
                    && d.outline == all,
                components_of(all, class@) == components_of(all.skip(i as int), class@),
            decreases outline.len() - i,
        {
            assert(all.skip(i as int)[0] == outline@[i as int]@);
            let path = join(&outline[i].path, ".");
            if same_text(path.as_str(), class) {
                return copy_strings(&outline[i].components);
            }
            assert(all.skip(i as int).skip(1) =~= all.skip(i as int + 1));
            i = i + 1;
        }
        assert(all.skip(i as int).len() == 0);
    }
    let r: Vec<String> = Vec::new();
    assert(views(r@) =~= Seq::<Seq<char>>::empty());
    r
}

impl Session {
    /// The component names that a class of a document offers.
    pub fn class_local_completion_items_query(&self, uri: &str, class: &str) -> (r: Vec<String>)
        requires
            self.wf(),
        ensures
            views(r@) == match value_of(self.content().documents, name_key(uri@)) {
                Some(d) => components_of(d.outline, class@),
                None => Seq::<Seq<char>>::empty(),
            },
    {
        class_local_completion_items(&self.documents, uri, class)
    }
}

} // verus!
