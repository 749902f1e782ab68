//! A map with string keys that keeps its entries from the least to the most
//! recently used.
use crate::ir::name::PartView;
use crate::ir::name_map::{make_name_key, name_key};
use crate::ir::path_map::{distinct_keys, has_key, Entry, PathMap};
use vstd::prelude::*;

verus! {

/// The entries without the one at key `key`.
pub open spec fn without_key<V>(entries: Seq<Entry<V>>, key: Seq<PartView>) -> Seq<Entry<V>>
    decreases entries.len(),
{
    if entries.len() == 0 {
        entries
    } else if entries.last().0 == key {
        without_key(entries.drop_last(), key)
    } else {
        without_key(entries.drop_last(), key).push(entries.last())
    }
}

/// Without a key that is not there nothing changes.
pub proof fn lemma_without_absent_key<V>(entries: Seq<Entry<V>>, key: Seq<PartView>)
    requires
        !has_key(entries, key),
    ensures
        without_key(entries, key) == entries,
    decreases entries.len(),
{
    if entries.len() > 0 {
        assert(entries.last() == entries[entries.len() - 1]);
        assert(!has_key(entries.drop_last(), key)) by {
            if has_key(entries.drop_last(), key) {
                let i = choose|i: int|
                    0 <= i < entries.drop_last().len() && (#[trigger] entries.drop_last()[i]).0
                        == key;
                assert(entries[i].0 == key);
            }
        }
        lemma_without_absent_key(entries.drop_last(), key);
        assert(entries =~= entries.drop_last().push(entries.last()));
    }
}

/// Without a key that is there once, the entry at its position is gone.
pub proof fn lemma_without_key_at<V>(entries: Seq<Entry<V>>, key: Seq<PartView>, i: int)
    requires
        0 <= i < entries.len(),
        entries[i].0 == key,
        distinct_keys(entries),
    ensures
        without_key(entries, key) == entries.remove(i),
    decreases entries.len(),
{
    let last = entries.len() - 1;
    if i == last {
        assert(!has_key(entries.drop_last(), key)) by {
            if has_key(entries.drop_last(), key) {
                let j = choose|j: int|
                    0 <= j < entries.drop_last().len() && (#[trigger] entries.drop_last()[j]).0
                        == key;
                assert(entries[j].0 == entries[i].0);
            }
        }
        lemma_without_absent_key(entries.drop_last(), key);
        assert(entries.remove(i) =~= entries.drop_last());
    } else {
        assert(entries[i].0 != entries[last].0);
        assert(entries.drop_last()[i].0 == key);
        assert(distinct_keys(entries.drop_last())) by {
            assert forall|a: int, b: int|
                0 <= a < b < entries.drop_last().len() implies (#[trigger] entries.drop_last()[a]).0
                != (#[trigger] entries.drop_last()[b]).0 by {
                assert(entries[a].0 != entries[b].0);
            }
        }
        lemma_without_key_at(entries.drop_last(), key, i);
        assert(entries.remove(i) =~= entries.drop_last().remove(i).push(entries.last()));
    }
}

/// Entries from the least to the most recently used.
pub struct LruMap<V> {
    pub cells: PathMap<V>,
}

impl<V> LruMap<V> {
    pub open spec fn wf(self) -> bool {
        self.cells.wf()
    }

    /// The entries, least recently used first.
    pub open spec fn entries(self) -> Seq<Entry<V>> {
        self.cells.entries()
    }

    /// A map without entries.
    pub fn new() -> (m: LruMap<V>)
        ensures
            m.wf(),
            m.entries() == Seq::<Entry<V>>::empty(),
    {
        LruMap { cells: PathMap::new() }
    }

    /// Number of entries.
    pub fn len(&self) -> (n: usize)
        ensures
            n == self.entries().len(),
    {
        self.cells.len()
    }

    /// Takes out an entry; the others keep their order.
    pub fn shift_remove(&mut self, key: &str) -> (r: Option<V>)
        requires
            old(self).wf(),
        ensures
            final(self).wf(),
            final(self).entries() == without_key(old(self).entries(), name_key(key@)),
            match r {
                Some(v) => exists|i: int|
                    0 <= i < old(self).entries().len() && #[trigger] old(self).entries()[i] == (
                        name_key(key@),
                        v,
                    ),
                None => !has_key(old(self).entries(), name_key(key@)),
            },
    {
        let path = make_name_key(key);
        proof {
            self.cells.lemma_distinct();
        }
        match self.cells.position(&path) {
            Some(i) => {
                proof {
                    lemma_without_key_at(self.entries(), name_key(key@), i as int);
                }
                let v = self.cells.remove_at(i);
                assert(old(self).entries()[i as int] == (name_key(key@), v));
                Some(v)
            },
            None => {
                proof {
                    lemma_without_absent_key(self.entries(), name_key(key@));
                }
                None
            },
        }
    }

    /// Makes an entry the most recently used one, replacing what was there.
    pub fn insert(&mut self, key: String, value: V)
        requires
            old(self).wf(),
        ensures
            final(self).wf(),
            final(self).entries() == without_key(old(self).entries(), name_key(key@)).push(
                (name_key(key@), value),
            ),
    {
        let _ = self.shift_remove(key.as_str());
        proof {
            lemma_key_is_gone(old(self).entries(), name_key(key@));
        }
        self.cells.insert(make_name_key(key.as_str()), value);
    }

    /// Drops the least recently used entries until at most `max_entries` are left.
    pub fn trim_to(&mut self, max_entries: usize)
        requires
            old(self).wf(),
        ensures
            final(self).wf(),
            final(self).entries() == if old(self).entries().len() > max_entries {
                old(self).entries().skip(old(self).entries().len() - max_entries)
            } else {
                old(self).entries()
            },
    {
        let ghost before = self.entries();
        let ghost mut dropped: int = 0;
        assert(before.skip(0) =~= before);
        while self.cells.len() > max_entries
            invariant
                self.wf(),
                0 <= dropped <= before.len(),
                self.entries() == before.skip(dropped),
                dropped > 0 ==> self.entries().len() >= max_entries,
            decreases before.len() - dropped,
        {
            let _ = self.cells.remove_at(0);
            proof {
                assert(before.skip(dropped).remove(0) =~= before.skip(dropped + 1));
                dropped = dropped + 1;
            }
        }
    }

    /// The value of a key; reading does not count as use.
    pub fn get(&self, key: &str) -> (r: Option<&V>)
        requires
            self.wf(),
        ensures
            match r {
                Some(v) => exists|i: int|
                    0 <= i < self.entries().len() && #[trigger] self.entries()[i] == (
                        name_key(key@),
                        *v,
                    ),
                None => !has_key(self.entries(), name_key(key@)),
            },
    {
        let path = make_name_key(key);
        match self.cells.position(&path) {
            Some(i) => {
                let v = self.cells.value_at(i);
                assert(self.entries()[i as int] == (name_key(key@), *v));
                Some(v)
            },
            None => None,
        }
    }

    /// Inserts an entry and drops the least recently used ones beyond the limit.
    pub fn insert_lru_cache_entry(&mut self, key: String, value: V, max_entries: usize)
        requires
            old(self).wf(),
        ensures
            final(self).wf(),
            ({
                let all = without_key(old(self).entries(), name_key(key@)).push(
                    (name_key(key@), value),
                );
                final(self).entries() == if all.len() > max_entries {
                    all.skip(all.len() - max_entries)
                } else {
                    all
                }
            }),
    {
        self.insert(key, value);
        self.trim_to(max_entries);
    }

    /// Makes an entry the most recently used one and tells whether it is there.
    pub fn get_lru_cache_entry(&mut self, key: &str) -> (r: bool)
        requires
            old(self).wf(),
        ensures
            final(self).wf(),
            r == has_key(old(self).entries(), name_key(key@)),
            !r ==> final(self).entries() == old(self).entries(),
            r ==> exists|i: int|
                0 <= i < old(self).entries().len() && (#[trigger] old(self).entries()[i]).0
                    == name_key(key@) && final(self).entries() == without_key(
                    old(self).entries(),
                    name_key(key@),
                ).push(old(self).entries()[i]),
    {
        match self.shift_remove(key) {
            Some(v) => {
                proof {
                    lemma_key_is_gone(old(self).entries(), name_key(key@));
                }
                self.cells.insert(make_name_key(key), v);
                true
            },
            None => {
                proof {
                    lemma_without_absent_key(old(self).entries(), name_key(key@));
                }
                false
            },
        }
    }
}

/// A key that was taken out is not there.
pub proof fn lemma_key_is_gone<V>(entries: Seq<Entry<V>>, key: Seq<PartView>)
    ensures
        !has_key(without_key(entries, key), key),
    decreases entries.len(),
{
    if entries.len() > 0 {
        lemma_key_is_gone(entries.drop_last(), key);
        let rest = without_key(entries.drop_last(), key);
        if entries.last().0 != key {
            assert forall|i: int| 0 <= i < rest.push(entries.last()).len() implies (#[trigger] rest.push(
                entries.last(),
            )[i]).0 != key by {
                if i < rest.len() {
                    assert(rest[i].0 != key);
                }
            }
        }
    }
}

/// The most recently used entry survives trimming to any positive size.
pub proof fn law_latest_entry_survives_trim<V>(
    entries: Seq<Entry<V>>,
    key: Seq<PartView>,
    value: V,
    max_entries: nat,
)
    requires
        max_entries > 0,
    ensures
        ({
            let all = without_key(entries, key).push((key, value));
            let kept = if all.len() > max_entries {
                all.skip(all.len() - max_entries)
            } else {
                all
            };
            kept.len() <= max_entries && kept.last() == (key, value)
        }),
{
}

} // verus!
