//! Maps keyed by numbers, in insertion order.
use crate::ir::name::{path_view, NamePart, PartView};
use crate::ir::path_map::{has_key, PathKey, PathMap};
use vstd::prelude::*;

verus! {

/// A number as a path key of one segment.
pub open spec fn id_key(id: u32) -> Seq<PartView> {
    seq![(Seq::<char>::empty(), seq![id as i64])]
}

fn make_id_key(id: u32) -> (key: PathKey)
    ensures
        path_view(key@) == id_key(id),
{
    let mut key: Vec<NamePart> = Vec::new();
    let mut subs: Vec<i64> = Vec::new();
    subs.push(id as i64);
    let name = String::new();
    assert(name@ =~= Seq::<char>::empty());
    assert(subs@ =~= seq![id as i64]);
    key.push((name, subs));
    assert(path_view(key@) =~= id_key(id));
    key
}

proof fn lemma_id_keys(a: u32, b: u32)
    ensures
        id_key(a) == id_key(b) <==> a == b,
{
    if id_key(a) == id_key(b) {
        assert(id_key(a)[0].1[0] == a);
        assert(id_key(b)[0].1[0] == b);
    }
}

/// Whether some entry has this number.
pub open spec fn numbered<V>(entries: Seq<(u32, V)>, id: u32) -> bool {
    exists|i: int| 0 <= i < entries.len() && (#[trigger] entries[i]).0 == id
}

/// The position of the entry with this number.
pub open spec fn index_of_id<V>(entries: Seq<(u32, V)>, id: u32) -> int {
    choose|i: int| 0 <= i < entries.len() && (#[trigger] entries[i]).0 == id
}

/// The value under a number, where there is one.
pub open spec fn value_of_id<V>(entries: Seq<(u32, V)>, id: u32) -> Option<V> {
    if numbered(entries, id) {
        Some(entries[index_of_id(entries, id)].1)
    } else {
        None
    }
}

/// Whether no two entries have the same number.
pub open spec fn distinct_ids<V>(entries: Seq<(u32, V)>) -> bool {
    forall|i: int, j: int|
        0 <= i < j < entries.len() ==> (#[trigger] entries[i]).0 != (#[trigger] entries[j]).0
}

/// The entries after giving `id` the value `value`: in place where the number is
/// there, else at the end.
pub open spec fn with_id<V>(entries: Seq<(u32, V)>, id: u32, value: V) -> Seq<(u32, V)> {
    if numbered(entries, id) {
        entries.update(index_of_id(entries, id), (id, value))
    } else {
        entries.push((id, value))
    }
}

/// The entry with a number stands where the number stands.
pub proof fn lemma_index_of_id<V>(entries: Seq<(u32, V)>, id: u32, i: int)
    requires
        distinct_ids(entries),
        0 <= i < entries.len(),
        entries[i].0 == id,
    ensures
        numbered(entries, id),
        index_of_id(entries, id) == i,
        value_of_id(entries, id) == Some(entries[i].1),
{
    let k = index_of_id(entries, id);
    assert(0 <= k < entries.len() && entries[k].0 == id);
    if k < i {
        assert(entries[k].0 != entries[i].0);
    } else if i < k {
        assert(entries[i].0 != entries[k].0);
    }
}

/// Giving a number a value keeps the numbers apart.
pub proof fn lemma_with_id_distinct<V>(entries: Seq<(u32, V)>, id: u32, value: V)
    requires
        distinct_ids(entries),
    ensures
        distinct_ids(with_id(entries, id, value)),
{
    let after = with_id(entries, id, value);
    if numbered(entries, id) {
        let k = index_of_id(entries, id);
        assert(0 <= k < entries.len() && entries[k].0 == id);
    }
    assert forall|i: int, j: int| 0 <= i < j < after.len() implies (#[trigger] after[i]).0 != (
    #[trigger] after[j]).0 by {
        if j < entries.len() {
            assert(entries[i].0 != entries[j].0);
        } else {
            assert(entries[i].0 != id);
        }
    }
}

/// A map from numbers to values that keeps the order in which numbers came.
pub struct IdMap<V> {
    ids: Vec<u32>,
    cells: PathMap<V>,
}

impl<V> IdMap<V> {
    /// The entries in order.
    pub closed spec fn entries(self) -> Seq<(u32, V)> {
        Seq::new(self.ids@.len(), |i: int| (self.ids@[i], self.cells.entries()[i].1))
    }

    /// Every key is a number and none occurs twice.
    pub closed spec fn wf(self) -> bool {
        &&& self.cells.wf()
        &&& self.ids@.len() == self.cells.entries().len()
        &&& forall|i: int|
            0 <= i < self.ids@.len() ==> (#[trigger] self.cells.entries()[i]).0 == id_key(
                self.ids@[i],
            )
    }

    proof fn lemma_same_ids(self, id: u32)
        requires
            self.wf(),
        ensures
            numbered(self.entries(), id) == has_key(self.cells.entries(), id_key(id)),
    {
        let cells = self.cells.entries();
        if numbered(self.entries(), id) {
            let i = choose|i: int|
                0 <= i < self.entries().len() && (#[trigger] self.entries()[i]).0 == id;
            assert(cells[i].0 == id_key(id));
        }
        if has_key(cells, id_key(id)) {
            let i = choose|i: int| 0 <= i < cells.len() && (#[trigger] cells[i]).0 == id_key(id);
            lemma_id_keys(self.ids@[i], id);
            assert(self.entries()[i].0 == id);
        }
    }

    /// In a well-formed map no number occurs twice.
    pub proof fn lemma_distinct(self)
        requires
            self.wf(),
        ensures
            distinct_ids(self.entries()),
    {
        self.cells.lemma_distinct();
        assert forall|i: int, j: int|
            0 <= i < j < self.entries().len() implies (#[trigger] self.entries()[i]).0 != (
        #[trigger] self.entries()[j]).0 by {
            let cells = self.cells.entries();
            assert(cells[i].0 != cells[j].0);
        }
    }

    /// A map without entries.
    pub fn new() -> (m: IdMap<V>)
        ensures
            m.wf(),
            m.entries() == Seq::<(u32, V)>::empty(),
    {
        let m = IdMap { ids: Vec::new(), cells: PathMap::new() };
        assert(m.entries() =~= Seq::<(u32, V)>::empty());
        m
    }

    /// Number of entries.
    pub fn len(&self) -> (n: usize)
        ensures
            n == self.entries().len(),
    {
        self.ids.len()
    }

    /// The number at a position.
    pub fn id_at(&self, index: usize) -> (id: u32)
        requires
            index < self.entries().len(),
        ensures
            id == self.entries()[index as int].0,
    {
        self.ids[index]
    }

    /// The value at a position.
    pub fn value_at(&self, index: usize) -> (v: &V)
        requires
            self.wf(),
            index < self.entries().len(),
        ensures
            *v == self.entries()[index as int].1,
    {
        self.cells.value_at(index)
    }

    fn position(&self, id: u32) -> (r: Option<usize>)
        requires
            self.wf(),
        ensures
            match r {
                Some(i) => numbered(self.entries(), id) && i == index_of_id(self.entries(), id)
                    && i < self.entries().len() && self.entries()[i as int].0 == id,
                None => !numbered(self.entries(), id),
            },
    {
        let r = self.cells.position(&make_id_key(id));
        proof {
            self.lemma_same_ids(id);
            self.lemma_distinct();
            if let Some(i) = r {
                assert(self.cells.entries()[i as int].0 == id_key(self.ids@[i as int]));
                lemma_id_keys(self.ids@[i as int], id);
                assert(self.entries()[i as int].0 == id);
                lemma_index_of_id(self.entries(), id, i as int);
            }
        }
        r
    }

    /// The value under a number.
    pub fn get(&self, id: u32) -> (r: Option<&V>)
        requires
            self.wf(),
        ensures
            match r {
                Some(v) => value_of_id(self.entries(), id) == Some(*v),
                None => !numbered(self.entries(), id),
            },
    {
        match self.position(id) {
            Some(i) => Some(self.cells.value_at(i)),
            None => None,
        }
    }

    /// Gives a number a value: in place where the number is there, else at the
    /// end.
    pub fn insert(&mut self, id: u32, value: V)
        requires
            old(self).wf(),
        ensures
            final(self).wf(),
            final(self).entries() == with_id(old(self).entries(), id, value),
    {
        let ghost before = self.entries();
        let ghost cells = self.cells.entries();
        match self.position(id) {
            Some(i) => {
                self.cells.replace_at(i, value);
                assert(self.entries() =~= before.update(i as int, (id, value)));
            },
            None => {
                proof {
                    self.lemma_same_ids(id);
                }
                self.cells.insert(make_id_key(id), value);
                self.ids.push(id);
                proof {
                    assert(self.cells.entries() == cells.push((id_key(id), value)));
                    assert(self.entries() =~= before.push((id, value)));
                    assert forall|i: int| 0 <= i < self.ids@.len() implies (
                    #[trigger] self.cells.entries()[i]).0 == id_key(self.ids@[i]) by {
                        if i < cells.len() {
                            assert(self.cells.entries()[i] == cells[i]);
                        }
                    }
                }
            },
        }
    }
}

impl<V: View> IdMap<V> {
    /// The entries in order, each value by its content.
    pub open spec fn views(self) -> Seq<(u32, V::V)> {
        self.entries().map_values(|e: (u32, V)| (e.0, e.1@))
    }

    /// Numbers and their positions do not depend on how values are seen.
    pub proof fn lemma_views(self, id: u32)
        requires
            self.wf(),
        ensures
            distinct_ids(self.views()),
            self.views().len() == self.entries().len(),
            numbered(self.views(), id) == numbered(self.entries(), id),
            numbered(self.entries(), id) ==> index_of_id(self.views(), id) == index_of_id(
                self.entries(),
                id,
            ),
            value_of_id(self.views(), id) == match value_of_id(self.entries(), id) {
                Some(v) => Some(v@),
                None => None,
            },
    {
        self.lemma_distinct();
        let entries = self.entries();
        let views = self.views();
        assert(distinct_ids(views)) by {
            assert forall|i: int, j: int| 0 <= i < j < views.len() implies (#[trigger] views[i]).0
                != (#[trigger] views[j]).0 by {
                assert(entries[i].0 != entries[j].0);
            }
        }
        if numbered(entries, id) {
            let i = index_of_id(entries, id);
            assert(0 <= i < entries.len() && entries[i].0 == id);
            assert(views[i].0 == id);
            lemma_index_of_id(views, id, i);
        }
        if numbered(views, id) {
            let i = index_of_id(views, id);
            assert(0 <= i < views.len() && views[i].0 == id);
            assert(entries[i].0 == id);
        }
    }

    /// Giving a number a value and seeing the values go together.
    pub proof fn lemma_with_id(self, id: u32, value: V)
        requires
            self.wf(),
        ensures
            with_id(self.entries(), id, value).map_values(|e: (u32, V)| (e.0, e.1@)) == with_id(
                self.views(),
                id,
                value@,
            ),
    {
        self.lemma_views(id);
        assert(with_id(self.entries(), id, value).map_values(|e: (u32, V)| (e.0, e.1@)) =~= with_id(
            self.views(),
            id,
            value@,
        ));
    }
}

} // verus!
