//! Maps keyed by paths, in insertion order.
//!
//! The keys live in an [`indexmap::IndexSet`], which finds the position of a
//! key; the values stand in a vector at the same positions.
use crate::ir::name::{path_view, NamePart, PartView};
use indexmap::IndexSet;
use vstd::prelude::*;

verus! {

/// A path as a key.
pub type PathKey = Vec<NamePart>;

/// `indexmap::IndexSet`, an opaque type.
#[verifier::external_type_specification]
#[verifier::external_body]
#[verifier::reject_recursive_types(T)]
#[verifier::reject_recursive_types(S)]
pub struct ExIndexSet<T, S>(IndexSet<T, S>);

/// The keys that an index set holds, in their order.
pub uninterp spec fn index_keys(s: IndexSet<Vec<(String, Vec<i64>)>>) -> Seq<
    Seq<(Seq<char>, Seq<i64>)>,
>;

/// `IndexSet::new`: a set without keys.
#[verifier::external_body]
fn index_set_new() -> (s: IndexSet<PathKey>)
    ensures
        index_keys(s) == Seq::<Seq<PartView>>::empty(),
{
    IndexSet::new()
}

/// `IndexSet::get_index_of`: the position of a key, or nothing where the key is
/// not in the set.
#[verifier::external_body]
fn index_set_get_index_of(s: &IndexSet<PathKey>, key: &PathKey) -> (r: Option<usize>)
    ensures
        match r {
            Some(i) => i < index_keys(*s).len() && index_keys(*s)[i as int] == path_view(key@),
            None => !index_keys(*s).contains(path_view(key@)),
        },
{
    s.get_index_of(key)
}

/// `IndexSet::insert_full`: a key that is there stays where it is, any other
/// comes last; the result is its position and whether it is new.
#[verifier::external_body]
fn index_set_insert_full(s: &mut IndexSet<PathKey>, key: PathKey) -> (r: (usize, bool))
    ensures
        if index_keys(*old(s)).contains(path_view(key@)) {
            &&& !r.1
            &&& index_keys(*final(s)) == index_keys(*old(s))
            &&& r.0 < index_keys(*old(s)).len()
            &&& index_keys(*old(s))[r.0 as int] == path_view(key@)
        } else {
            &&& r.1
            &&& r.0 == index_keys(*old(s)).len()
            &&& index_keys(*final(s)) == index_keys(*old(s)).push(path_view(key@))
        },
{
    s.insert_full(key)
}

/// `IndexSet::shift_remove_index`: takes out the key at a position and moves
/// the later ones up by one; nothing happens past the end.
#[verifier::external_body]
fn index_set_shift_remove_index(s: &mut IndexSet<PathKey>, index: usize) -> (r: Option<PathKey>)
    ensures
        if index < index_keys(*old(s)).len() {
            &&& r is Some
            &&& path_view(r->0@) == index_keys(*old(s))[index as int]
            &&& index_keys(*final(s)) == index_keys(*old(s)).remove(index as int)
        } else {
            r is None && index_keys(*final(s)) == index_keys(*old(s))
        },
{
    s.shift_remove_index(index)
}

/// `IndexSet::get_index`: the key at a position, or nothing past the end.
#[verifier::external_body]
fn index_set_get_index(s: &IndexSet<PathKey>, index: usize) -> (r: Option<&PathKey>)
    ensures
        match r {
            Some(key) => index < index_keys(*s).len() && path_view(key@) == index_keys(
                *s,
            )[index as int],
            None => index >= index_keys(*s).len(),
        },
{
    s.get_index(index)
}

/// One entry of a path map.
pub type Entry<V> = (Seq<PartView>, V);

/// Whether some entry has this key.
pub open spec fn has_key<V>(entries: Seq<Entry<V>>, key: Seq<PartView>) -> bool {
    exists|i: int| 0 <= i < entries.len() && (#[trigger] entries[i]).0 == key
}

/// Whether no two entries have the same key.
pub open spec fn distinct_keys<V>(entries: Seq<Entry<V>>) -> bool {
    forall|i: int, j: int|
        0 <= i < j < entries.len() ==> (#[trigger] entries[i]).0 != (#[trigger] entries[j]).0
}

/// The entries after giving `key` the value `value`: in place where the key is
/// there, else at the end.
pub open spec fn with_entry<V>(entries: Seq<Entry<V>>, key: Seq<PartView>, value: V) -> Seq<
    Entry<V>,
> {
    if has_key(entries, key) {
        entries.map_values(
            |e: Entry<V>|
                if e.0 == key {
                    (key, value)
                } else {
                    e
                },
        )
    } else {
        entries.push((key, value))
    }
}

/// The entries with every value replaced by its image.
pub open spec fn map_entries<V, W>(entries: Seq<Entry<V>>, f: spec_fn(V) -> W) -> Seq<Entry<W>> {
    entries.map_values(|e: Entry<V>| (e.0, f(e.1)))
}

/// Mapping values and giving a key a value go together.
pub proof fn lemma_map_with_entry<V, W>(
    entries: Seq<Entry<V>>,
    f: spec_fn(V) -> W,
    key: Seq<PartView>,
    value: V,
)
    ensures
        map_entries(with_entry(entries, key, value), f) == with_entry(
            map_entries(entries, f),
            key,
            f(value),
        ),
        has_key(map_entries(entries, f), key) == has_key(entries, key),
{
    let mapped = map_entries(entries, f);
    if has_key(entries, key) {
        let i = choose|i: int| 0 <= i < entries.len() && (#[trigger] entries[i]).0 == key;
        assert(mapped[i].0 == key);
    }
    if has_key(mapped, key) {
        let i = choose|i: int| 0 <= i < mapped.len() && (#[trigger] mapped[i]).0 == key;
        assert(entries[i].0 == key);
    }
    assert(map_entries(with_entry(entries, key, value), f) =~= with_entry(mapped, key, f(value)));
}

/// A map from paths to values that keeps the order in which keys came.
pub struct PathMap<V> {
    keys: IndexSet<PathKey>,
    values: Vec<V>,
}

impl<V> PathMap<V> {
    /// The entries in order.
    pub closed spec fn entries(self) -> Seq<Entry<V>> {
        Seq::new(self.values@.len(), |i: int| (index_keys(self.keys)[i], self.values@[i]))
    }

    /// Keys and values stand side by side and no key occurs twice.
    pub closed spec fn wf(self) -> bool {
        &&& index_keys(self.keys).len() == self.values@.len()
        &&& index_keys(self.keys).no_duplicates()
    }

    /// In a well-formed map no key occurs twice.
    pub proof fn lemma_distinct(self)
        requires
            self.wf(),
        ensures
            distinct_keys(self.entries()),
    {
    }

    /// A map without entries.
    pub fn new() -> (m: PathMap<V>)
        ensures
            m.wf(),
            m.entries() == Seq::<Entry<V>>::empty(),
    {
        let m = PathMap { keys: index_set_new(), values: Vec::new() };
        assert(m.entries() =~= Seq::<Entry<V>>::empty());
        m
    }

    /// Number of entries.
    pub fn len(&self) -> (n: usize)
        ensures
            n == self.entries().len(),
    {
        self.values.len()
    }

    /// Position of a key.
    pub fn position(&self, key: &PathKey) -> (r: Option<usize>)
        requires
            self.wf(),
        ensures
            match r {
                Some(i) => i < self.entries().len() && self.entries()[i as int].0 == path_view(
                    key@,
                ),
                None => !has_key(self.entries(), path_view(key@)),
            },
    {
        index_set_get_index_of(&self.keys, key)
    }

    /// Whether the map has an entry with this key.
    pub fn contains_key(&self, key: &PathKey) -> (r: bool)
        requires
            self.wf(),
        ensures
            r == has_key(self.entries(), path_view(key@)),
    {
        self.position(key).is_some()
    }

    /// The value at a position.
    pub fn value_at(&self, index: usize) -> (v: &V)
        requires
            index < self.entries().len(),
        ensures
            *v == self.entries()[index as int].1,
    {
        &self.values[index]
    }

    /// The key at a position.
    pub fn key_at(&self, index: usize) -> (k: &PathKey)
        requires
            self.wf(),
            index < self.entries().len(),
        ensures
            path_view(k@) == self.entries()[index as int].0,
    {
        index_set_get_index(&self.keys, index).unwrap()
    }

    /// The value of a key.
    pub fn get(&self, key: &PathKey) -> (r: Option<&V>)
        requires
            self.wf(),
        ensures
            match r {
                Some(v) => exists|i: int|
                    0 <= i < self.entries().len() && #[trigger] self.entries()[i] == (
                        path_view(key@),
                        *v,
                    ),
                None => !has_key(self.entries(), path_view(key@)),
            },
    {
        match self.position(key) {
            Some(i) => {
                assert(self.entries()[i as int] == (path_view(key@), self.values@[i as int]));
                Some(&self.values[i])
            },
            None => None,
        }
    }

    /// Gives a key a value: in place where the key is there, else at the end.
    pub fn insert(&mut self, key: PathKey, value: V)
        requires
            old(self).wf(),
        ensures
            final(self).wf(),
            final(self).entries() == with_entry(old(self).entries(), path_view(key@), value),
    {
        let ghost before = self.entries();
        let ghost k = path_view(key@);
        let (index, added) = index_set_insert_full(&mut self.keys, key);
        if added {
            self.values.push(value);
            proof {
                assert(!has_key(before, k)) by {
                    if has_key(before, k) {
                        let i = choose|i: int|
                            0 <= i < before.len() && (#[trigger] before[i]).0 == k;
                        assert(index_keys(old(self).keys)[i] == k);
                    }
                }
                assert(self.entries() =~= before.push((k, value)));
            }
        } else {
            self.values.set(index, value);
            proof {
                assert(before[index as int].0 == k);
                assert(self.entries() =~= with_entry(before, k, value));
            }
        }
    }

    /// Gives a key a value unless it has one.
    pub fn insert_if_absent(&mut self, key: PathKey, value: V)
        requires
            old(self).wf(),
        ensures
            final(self).wf(),
            final(self).entries() == if has_key(old(self).entries(), path_view(key@)) {
                old(self).entries()
            } else {
                old(self).entries().push((path_view(key@), value))
            },
    {
        if !self.contains_key(&key) {
            self.insert(key, value);
        }
    }

    /// Replaces the value at a position.
    pub fn replace_at(&mut self, index: usize, value: V)
        requires
            old(self).wf(),
            index < old(self).entries().len(),
        ensures
            final(self).wf(),
            final(self).entries() == old(self).entries().update(
                index as int,
                (old(self).entries()[index as int].0, value),
            ),
    {
        let ghost before = self.entries();
        self.values.set(index, value);
        assert(self.entries() =~= before.update(index as int, (before[index as int].0, value)));
    }

    /// Takes out the entry at a position; later entries move up by one.
    pub fn remove_at(&mut self, index: usize) -> (v: V)
        requires
            old(self).wf(),
            index < old(self).entries().len(),
        ensures
            final(self).wf(),
            v == old(self).entries()[index as int].1,
            final(self).entries() == old(self).entries().remove(index as int),
    {
        let ghost before = self.entries();
        let _ = index_set_shift_remove_index(&mut self.keys, index);
        let v = self.values.remove(index);
        proof {
            let old_keys = index_keys(old(self).keys);
            let new_keys = index_keys(self.keys);
            assert forall|i: int, j: int|
                0 <= i < new_keys.len() && 0 <= j < new_keys.len() && i != j implies new_keys[i]
                != new_keys[j] by {
                let oi = if i < index {
                    i
                } else {
                    i + 1
                };
                let oj = if j < index {
                    j
                } else {
                    j + 1
                };
                assert(new_keys[i] == old_keys[oi] && new_keys[j] == old_keys[oj]);
            }
            assert(self.entries() =~= before.remove(index as int));
        }
        v
    }

    /// Keeps the first `n` entries.
    pub fn truncate(&mut self, n: usize)
        requires
            old(self).wf(),
            n <= old(self).entries().len(),
        ensures
            final(self).wf(),
            final(self).entries() == old(self).entries().take(n as int),
    {
        let ghost before = self.entries();
        assert(before.take(before.len() as int) =~= before);
        while self.len() > n
            invariant
                self.wf(),
                before == old(self).entries(),
                n <= self.entries().len() <= before.len(),
                self.entries() == before.take(self.entries().len() as int),
            decreases self.entries().len(),
        {
            let last: usize = self.len() - 1;
            let _ = self.remove_at(last);
            assert(self.entries() =~= before.take(last as int));
        }
    }
}

} // verus!
