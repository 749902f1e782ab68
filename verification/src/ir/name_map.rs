//! Maps keyed by names, in insertion order.
use crate::ir::name::{path_view, NamePart, PartView};
use crate::ir::path_map::{has_key, Entry, PathKey, PathMap};
use crate::text::owned;
use vstd::prelude::*;

verus! {

/// A name as a path key of one segment.
pub open spec fn name_key(name: Seq<char>) -> Seq<PartView> {
    seq![(name, Seq::<i64>::empty())]
}

/// A name as a path key of one segment.
pub fn make_name_key(name: &str) -> (key: PathKey)
    ensures
        path_view(key@) == name_key(name@),
{
    let mut key: Vec<NamePart> = Vec::new();
    key.push((owned(name), Vec::new()));
    assert(path_view(key@) =~= name_key(name@));
    key
}

/// One entry of a name map.
pub type Named<V> = (Seq<char>, V);

/// Whether some entry has this name.
pub open spec fn named<V>(entries: Seq<Named<V>>, name: Seq<char>) -> bool {
    exists|i: int| 0 <= i < entries.len() && (#[trigger] entries[i]).0 == name
}

/// The position of the entry with this name.
pub open spec fn index_of_name<V>(entries: Seq<Named<V>>, name: Seq<char>) -> int {
    choose|i: int| 0 <= i < entries.len() && (#[trigger] entries[i]).0 == name
}

/// The value under a name, where there is one.
pub open spec fn value_of_name<V>(entries: Seq<Named<V>>, name: Seq<char>) -> Option<V> {
    if named(entries, name) {
        Some(entries[index_of_name(entries, name)].1)
    } else {
        None
    }
}

/// Whether no two entries have the same name.
pub open spec fn distinct_names<V>(entries: Seq<Named<V>>) -> bool {
    forall|i: int, j: int|
        0 <= i < j < entries.len() ==> (#[trigger] entries[i]).0 != (#[trigger] entries[j]).0
}

/// The entries after giving `name` the value `value`: in place where the name
/// is there, else at the end.
pub open spec fn with_named<V>(entries: Seq<Named<V>>, name: Seq<char>, value: V) -> Seq<Named<V>> {
    if named(entries, name) {
        entries.update(index_of_name(entries, name), (name, value))
    } else {
        entries.push((name, value))
    }
}

/// The entries after giving `name` the value `value` unless it has one.
pub open spec fn with_new_name<V>(entries: Seq<Named<V>>, name: Seq<char>, value: V) -> Seq<
    Named<V>,
> {
    if named(entries, name) {
        entries
    } else {
        entries.push((name, value))
    }
}

/// The entry with a name stands where the name stands.
pub proof fn lemma_index_of_name<V>(entries: Seq<Named<V>>, name: Seq<char>, i: int)
    requires
        distinct_names(entries),
        0 <= i < entries.len(),
        entries[i].0 == name,
    ensures
        named(entries, name),
        index_of_name(entries, name) == i,
        value_of_name(entries, name) == Some(entries[i].1),
{
    let k = index_of_name(entries, name);
    assert(0 <= k < entries.len() && entries[k].0 == name);
    if k < i {
        assert(entries[k].0 != entries[i].0);
    } else if i < k {
        assert(entries[i].0 != entries[k].0);
    }
}

/// Giving a name a value: the name is there then, and so is every name that was there.
pub proof fn lemma_with_named_keeps<V>(
    entries: Seq<Named<V>>,
    name: Seq<char>,
    value: V,
    other: Seq<char>,
)
    ensures
        named(with_named(entries, name, value), name),
        named(entries, other) ==> named(with_named(entries, name, value), other),
{
    let after = with_named(entries, name, value);
    if named(entries, name) {
        let i = index_of_name(entries, name);
        assert(after[i].0 == name);
    } else {
        assert(after[entries.len() as int].0 == name);
    }
    if named(entries, other) {
        let i = choose|i: int| 0 <= i < entries.len() && (#[trigger] entries[i]).0 == other;
        assert(after[i].0 == other);
    }
}

/// Giving a name a value: the name has it then, and every other name keeps its
/// own.
pub proof fn lemma_with_named_values<V>(
    entries: Seq<Named<V>>,
    name: Seq<char>,
    value: V,
    other: Seq<char>,
)
    requires
        distinct_names(entries),
    ensures
        distinct_names(with_named(entries, name, value)),
        value_of_name(with_named(entries, name, value), other) == if other == name {
            Some(value)
        } else {
            value_of_name(entries, other)
        },
{
    let after = with_named(entries, name, value);
    let at = if named(entries, name) {
        index_of_name(entries, name)
    } else {
        entries.len() as int
    };
    if named(entries, name) {
        assert(0 <= at < entries.len() && entries[at].0 == name);
    }
    assert(after[at] == (name, value));
    assert forall|i: int, j: int| 0 <= i < j < after.len() implies (#[trigger] after[i]).0 != (
    #[trigger] after[j]).0 by {
        if j < entries.len() {
            assert(entries[i].0 != entries[j].0);
        } else {
            assert(entries[i].0 != name);
        }
    }
    if other == name {
        lemma_index_of_name(after, name, at);
    } else if named(entries, other) {
        let k = index_of_name(entries, other);
        assert(entries[k].0 == other);
        assert(after[k] == entries[k]);
        lemma_index_of_name(after, other, k);
    } else if named(after, other) {
        let k = index_of_name(after, other);
        assert(after[k].0 == other);
        assert(k != at);
        assert(entries[k].0 == other);
    }
}

/// A map from names to values that keeps the order in which names came.
pub struct NameMap<V> {
    cells: PathMap<V>,
}

impl<V> NameMap<V> {
    /// The entries in order.
    pub closed spec fn entries(self) -> Seq<Named<V>> {
        self.cells.entries().map_values(|e: Entry<V>| (e.0[0].0, e.1))
    }

    /// Every key is a name and none occurs twice.
    pub closed spec fn wf(self) -> bool {
        &&& self.cells.wf()
        &&& forall|i: int|
            0 <= i < self.cells.entries().len() ==> (#[trigger] self.cells.entries()[i]).0
                == name_key(self.cells.entries()[i].0[0].0)
    }

    proof fn lemma_same_names(self, name: Seq<char>)
        requires
            self.wf(),
        ensures
            named(self.entries(), name) == has_key(self.cells.entries(), name_key(name)),
    {
        let cells = self.cells.entries();
        if named(self.entries(), name) {
            let i = choose|i: int|
                0 <= i < self.entries().len() && (#[trigger] self.entries()[i]).0 == name;
            assert(cells[i].0 == name_key(name));
        }
        if has_key(cells, name_key(name)) {
            let i = choose|i: int|
                0 <= i < cells.len() && (#[trigger] cells[i]).0 == name_key(name);
            assert(cells[i].0[0].0 == name);
            assert(self.entries()[i].0 == name);
        }
    }

    /// In a well-formed map no name occurs twice.
    pub proof fn lemma_distinct(self)
        requires
            self.wf(),
        ensures
            distinct_names(self.entries()),
    {
        self.cells.lemma_distinct();
        assert forall|i: int, j: int|
            0 <= i < j < self.entries().len() implies (#[trigger] self.entries()[i]).0 != (
        #[trigger] self.entries()[j]).0 by {
            let cells = self.cells.entries();
            assert(cells[i].0 != cells[j].0);
            assert(cells[i].0 == name_key(cells[i].0[0].0));
            assert(cells[j].0 == name_key(cells[j].0[0].0));
        }
    }

    /// A map without entries.
    pub fn new() -> (m: NameMap<V>)
        ensures
            m.wf(),
            m.entries() == Seq::<Named<V>>::empty(),
    {
        let m = NameMap { cells: PathMap::new() };
        assert(m.entries() =~= Seq::<Named<V>>::empty());
        m
    }

    /// Number of entries.
    pub fn len(&self) -> (n: usize)
        ensures
            n == self.entries().len(),
    {
        self.cells.len()
    }

    /// Position of a name.
    pub fn position(&self, name: &str) -> (r: Option<usize>)
        requires
            self.wf(),
        ensures
            match r {
                Some(i) => named(self.entries(), name@) && i == index_of_name(self.entries(), name@)
                    && i < self.entries().len() && self.entries()[i as int].0 == name@,
                None => !named(self.entries(), name@),
            },
    {
        let r = self.cells.position(&make_name_key(name));
        proof {
            self.lemma_same_names(name@);
            self.lemma_distinct();
            if let Some(i) = r {
                assert(self.cells.entries()[i as int].0[0].0 == name@);
                assert(self.entries()[i as int].0 == name@);
                lemma_index_of_name(self.entries(), name@, i as int);
            }
        }
        r
    }

    /// Whether the map has an entry with this name.
    pub fn contains_key(&self, name: &str) -> (r: bool)
        requires
            self.wf(),
        ensures
            r == named(self.entries(), name@),
    {
        self.position(name).is_some()
    }

    /// The value at a position.
    pub fn value_at(&self, index: usize) -> (v: &V)
        requires
            index < self.entries().len(),
        ensures
            *v == self.entries()[index as int].1,
    {
        self.cells.value_at(index)
    }

    /// The name at a position.
    pub fn name_at(&self, index: usize) -> (name: &str)
        requires
            self.wf(),
            index < self.entries().len(),
        ensures
            name@ == self.entries()[index as int].0,
    {
        let key = self.cells.key_at(index);
        assert(path_view(key@) == name_key(self.cells.entries()[index as int].0[0].0));
        assert(path_view(key@).len() == 1);
        assert(path_view(key@)[0] == (key@[0].0@, key@[0].1@));
        key[0].0.as_str()
    }

    /// The value under a name.
    pub fn get(&self, name: &str) -> (r: Option<&V>)
        requires
            self.wf(),
        ensures
            match r {
                Some(v) => value_of_name(self.entries(), name@) == Some(*v),
                None => !named(self.entries(), name@),
            },
    {
        match self.position(name) {
            Some(i) => Some(self.cells.value_at(i)),
            None => None,
        }
    }

    /// Gives a name a value: in place where the name is there, else at the end.
    pub fn insert(&mut self, name: &str, value: V)
        requires
            old(self).wf(),
        ensures
            final(self).wf(),
            final(self).entries() == with_named(old(self).entries(), name@, value),
    {
        let ghost before = self.entries();
        let ghost cells = self.cells.entries();
        match self.position(name) {
            Some(i) => {
                self.cells.replace_at(i, value);
                proof {
                    assert(self.entries() =~= before.update(i as int, (name@, value)));
                }
            },
            None => {
                proof {
                    self.lemma_same_names(name@);
                }
                self.cells.insert(make_name_key(name), value);
                proof {
                    assert(self.cells.entries() == cells.push((name_key(name@), value)));
                    assert(self.entries() =~= before.push((name@, value)));
                    assert forall|i: int| 0 <= i < self.cells.entries().len() implies (
                    #[trigger] self.cells.entries()[i]).0 == name_key(
                        self.cells.entries()[i].0[0].0,
                    ) by {
                        if i < cells.len() {
                            assert(self.cells.entries()[i] == cells[i]);
                        }
                    }
                }
            },
        }
    }

    /// Gives a name a value unless it has one.
    pub fn insert_if_absent(&mut self, name: &str, value: V)
        requires
            old(self).wf(),
        ensures
            final(self).wf(),
            final(self).entries() == with_new_name(old(self).entries(), name@, value),
    {
        if !self.contains_key(name) {
            self.insert(name, value);
        }
    }

    /// Replaces the value at a position.
    pub fn replace_at(&mut self, index: usize, value: V)
        requires
            old(self).wf(),
            index < old(self).entries().len(),
        ensures
            final(self).wf(),
            final(self).entries() == old(self).entries().update(
                index as int,
                (old(self).entries()[index as int].0, value),
            ),
    {
        let ghost before = self.entries();
        let ghost cells = self.cells.entries();
        self.cells.replace_at(index, value);
        proof {
            assert forall|i: int| 0 <= i < self.cells.entries().len() implies (
            #[trigger] self.cells.entries()[i]).0 == name_key(self.cells.entries()[i].0[0].0) by {
                assert(self.cells.entries()[i].0 == cells[i].0);
            }
            assert(self.entries() =~= before.update(
                index as int,
                (before[index as int].0, value),
            ));
        }
    }
}

impl<V: View> NameMap<V> {
    /// The entries in order, each value by its content.
    pub open spec fn views(self) -> Seq<Named<V::V>> {
        self.entries().map_values(|e: Named<V>| (e.0, e.1@))
    }

    /// Names and their positions do not depend on how values are seen.
    pub proof fn lemma_views(self, name: Seq<char>)
        requires
            self.wf(),
        ensures
            distinct_names(self.views()),
            self.views().len() == self.entries().len(),
            named(self.views(), name) == named(self.entries(), name),
            named(self.entries(), name) ==> index_of_name(self.views(), name) == index_of_name(
                self.entries(),
                name,
            ),
            value_of_name(self.views(), name) == match value_of_name(self.entries(), name) {
                Some(v) => Some(v@),
                None => None,
            },
    {
        self.lemma_distinct();
        let entries = self.entries();
        let views = self.views();
        assert(distinct_names(views)) by {
            assert forall|i: int, j: int| 0 <= i < j < views.len() implies (#[trigger] views[i]).0
                != (#[trigger] views[j]).0 by {
                assert(entries[i].0 != entries[j].0);
            }
        }
        if named(entries, name) {
            let i = index_of_name(entries, name);
            assert(0 <= i < entries.len() && entries[i].0 == name);
            assert(views[i].0 == name);
            lemma_index_of_name(views, name, i);
        }
        if named(views, name) {
            let i = index_of_name(views, name);
            assert(0 <= i < views.len() && views[i].0 == name);
            assert(entries[i].0 == name);
        }
    }

    /// Giving a name a value and seeing the values go together.
    pub proof fn lemma_with_named(self, name: Seq<char>, value: V)
        requires
            self.wf(),
        ensures
            with_named(self.entries(), name, value).map_values(|e: Named<V>| (e.0, e.1@))
                == with_named(self.views(), name, value@),
    {
        self.lemma_views(name);
        assert(with_named(self.entries(), name, value).map_values(|e: Named<V>| (e.0, e.1@))
            =~= with_named(self.views(), name, value@));
    }
}

} // verus!
