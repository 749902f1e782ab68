//! The modification environment: which value a modifier gives to a target.
use crate::expr::tree::{copy_optional, ExprView, Expression};
use crate::ir::name::{copy_parts, PartView, QualifiedName};
use crate::ir::path_map::{distinct_keys, has_key, Entry, PathMap};
use crate::text::held;
use vstd::prelude::*;

verus! {

/// A value that a modifier gives.
#[derive(Debug)]
pub struct ModificationValue {
    /// The resolved value.
    pub value: Expression,
    /// The modifier as it was written, where it differs.
    pub source: Option<Expression>,
    /// The scope in which the modifier was written.
    pub source_scope: Option<QualifiedName>,
    /// Whether the modifier applies to every element of an array.
    pub each: bool,
    /// Whether the modifier may not be modified again.
    pub final_: bool,
}

/// The mathematical content of a [`ModificationValue`].
pub struct ModificationView {
    pub value: ExprView,
    pub source: Option<ExprView>,
    pub source_scope: Option<Seq<PartView>>,
    pub each: bool,
    pub final_: bool,
}

impl View for ModificationValue {
    type V = ModificationView;

    open spec fn view(&self) -> ModificationView {
        ModificationView {
            value: self.value@,
            source: held(self.source),
            source_scope: held(self.source_scope),
            each: self.each,
            final_: self.final_,
        }
    }
}

impl Clone for ModificationValue {
    fn clone(&self) -> (r: Self)
        ensures
            r@ == self@,
    {
        ModificationValue {
            value: self.value.clone(),
            source: copy_optional(&self.source),
            source_scope: match &self.source_scope {
                Some(scope) => Some(scope.clone()),
                None => None,
            },
            each: self.each,
            final_: self.final_,
        }
    }
}

/// The contents of modifications.
pub open spec fn modification_views(entries: Seq<Entry<ModificationValue>>) -> Seq<
    Entry<ModificationView>,
> {
    Seq::new(entries.len(), |i: int| (entries[i].0, entries[i].1@))
}

impl ModificationValue {
    /// A value without prefixes.
    pub fn simple(value: Expression) -> (r: ModificationValue)
        ensures
            r == (ModificationValue {
                value,
                source: None,
                source_scope: None,
                each: false,
                final_: false,
            }),
    {
        ModificationValue { value, source: None, source_scope: None, each: false, final_: false }
    }

    /// A value that may apply to every element.
    pub fn with_each(value: Expression, each: bool) -> (r: ModificationValue)
        ensures
            r == (ModificationValue {
                value,
                source: None,
                source_scope: None,
                each,
                final_: false,
            }),
    {
        ModificationValue { value, source: None, source_scope: None, each, final_: false }
    }

    /// A value with both prefixes.
    pub fn with_prefixes(value: Expression, each: bool, final_: bool) -> (r: ModificationValue)
        ensures
            r == (ModificationValue { value, source: None, source_scope: None, each, final_ }),
    {
        ModificationValue { value, source: None, source_scope: None, each, final_ }
    }

    /// A value with the expression it was written as.
    pub fn with_source(value: Expression, source: Option<Expression>) -> (r: ModificationValue)
        ensures
            r == (ModificationValue {
                value,
                source,
                source_scope: None,
                each: false,
                final_: false,
            }),
    {
        ModificationValue::with_source_scope(value, source, None)
    }

    /// A value with the expression it was written as and the scope it was
    /// written in.
    pub fn with_source_scope(
        value: Expression,
        source: Option<Expression>,
        source_scope: Option<QualifiedName>,
    ) -> (r: ModificationValue)
        ensures
            r == (ModificationValue { value, source, source_scope, each: false, final_: false }),
    {
        ModificationValue::with_source_scope_and_prefixes(value, source, source_scope, false, false)
    }

    /// A value with everything said.
    pub fn with_source_scope_and_prefixes(
        value: Expression,
        source: Option<Expression>,
        source_scope: Option<QualifiedName>,
        each: bool,
        final_: bool,
    ) -> (r: ModificationValue)
        ensures
            r == (ModificationValue { value, source, source_scope, each, final_ }),
    {
        ModificationValue { value, source, source_scope, each, final_ }
    }
}

/// Active modifications by target, in the order in which they were added.
pub struct ModificationEnvironment {
    pub active: PathMap<ModificationValue>,
}

/// The modification of a target, where it has one.
pub open spec fn modification_of<V>(entries: Seq<Entry<V>>, target: Seq<PartView>) -> Option<V> {
    if has_key(entries, target) {
        Some(
            entries[choose|i: int| 0 <= i < entries.len() && (#[trigger] entries[i]).0 == target].1,
        )
    } else {
        None
    }
}

/// The modifications after adding one: what a target has already stays.
pub open spec fn with_modification<V>(entries: Seq<Entry<V>>, target: Seq<PartView>, value: V) -> Seq<
    Entry<V>,
> {
    if has_key(entries, target) {
        entries
    } else {
        entries.push((target, value))
    }
}

/// Looking up a modification and looking up its content go together.
pub proof fn lemma_modification_views(
    entries: Seq<Entry<ModificationValue>>,
    target: Seq<PartView>,
)
    requires
        distinct_keys(entries),
    ensures
        has_key(modification_views(entries), target) == has_key(entries, target),
        modification_of(modification_views(entries), target) == held(
            modification_of(entries, target),
        ),
{
    let contents = modification_views(entries);
    if has_key(entries, target) {
        let i = choose|i: int| 0 <= i < entries.len() && (#[trigger] entries[i]).0 == target;
        assert(contents[i].0 == target);
        let k = choose|k: int| 0 <= k < contents.len() && (#[trigger] contents[k]).0 == target;
        assert(entries[k].0 == target);
        if i < k {
            assert(entries[i].0 != entries[k].0);
        } else if k < i {
            assert(entries[k].0 != entries[i].0);
        }
    }
    if has_key(contents, target) {
        let i = choose|i: int| 0 <= i < contents.len() && (#[trigger] contents[i]).0 == target;
        assert(entries[i].0 == target);
    }
}

/// Whether an entry is for a target outside the named component.
pub open spec fn outside_prefix(entry: Entry<ModificationValue>, prefix: Seq<char>) -> bool {
    !QualifiedName::starts_with_spec(entry.0, prefix)
}

impl ModificationEnvironment {
    pub open spec fn wf(self) -> bool {
        self.active.wf()
    }

    /// The modifications in order.
    pub open spec fn entries(self) -> Seq<Entry<ModificationValue>> {
        self.active.entries()
    }

    /// An environment without modifications.
    pub fn new() -> (r: ModificationEnvironment)
        ensures
            r.wf(),
            r.entries() == Seq::<Entry<ModificationValue>>::empty(),
    {
        ModificationEnvironment { active: PathMap::new() }
    }

    /// Adds a modification unless the target has one: what an outer scope has
    /// said stays.
    pub fn add(&mut self, target: QualifiedName, value: ModificationValue)
        requires
            old(self).wf(),
        ensures
            final(self).wf(),
            final(self).entries() == with_modification(old(self).entries(), target@, value),
    {
        self.active.insert_if_absent(target.parts, value);
    }

    /// The modification of a target.
    pub fn get(&self, target: &QualifiedName) -> (r: Option<&ModificationValue>)
        requires
            self.wf(),
        ensures
            match r {
                Some(v) => modification_of(self.entries(), target@) == Some(*v) && exists|i: int|
                    0 <= i < self.entries().len() && #[trigger] self.entries()[i] == (target@, *v),
                None => !has_key(self.entries(), target@),
            },
    {
        let r = self.active.get(&target.parts);
        proof {
            self.active.lemma_distinct();
            if let Some(v) = r {
                let entries = self.entries();
                let i = choose|i: int|
                    0 <= i < entries.len() && #[trigger] entries[i] == (target@, *v);
                assert(entries[i].0 == target@);
                let k = choose|k: int|
                    0 <= k < entries.len() && (#[trigger] entries[k]).0 == target@;
                assert(entries[k].0 == target@);
                if i < k {
                    assert(entries[i].0 != entries[k].0);
                } else if k < i {
                    assert(entries[k].0 != entries[i].0);
                }
            }
        }
        r
    }

    /// The value that a modification gives to an attribute of a component.
    pub fn get_attr(&self, comp_name: &str, attr_name: &str) -> (r: Option<&Expression>)
        requires
            self.wf(),
        ensures
            ({
                let target = seq![
                    (comp_name@, Seq::<i64>::empty()),
                    (attr_name@, Seq::<i64>::empty()),
                ];
                match r {
                    Some(e) => exists|i: int|
                        0 <= i < self.entries().len() && (#[trigger] self.entries()[i]).0 == target
                            && self.entries()[i].1.value == *e,
                    None => !has_key(self.entries(), target),
                }
            }),
    {
        let path = QualifiedName::from_ident(comp_name).child(attr_name);
        assert(path@ =~= seq![
            (comp_name@, Seq::<i64>::empty()),
            (attr_name@, Seq::<i64>::empty()),
        ]);
        match self.get(&path) {
            Some(v) => Some(&v.value),
            None => None,
        }
    }

    /// Drops every modification of the named component; the others keep their
    /// order.
    pub fn remove_with_prefix(&mut self, prefix_name: &str)
        requires
            old(self).wf(),
        ensures
            final(self).wf(),
            final(self).entries() == old(self).entries().filter(
                |e: Entry<ModificationValue>| outside_prefix(e, prefix_name@),
            ),
    {
        let ghost before = self.entries();
        let ghost keep = |e: Entry<ModificationValue>| outside_prefix(e, prefix_name@);
        let ghost mut seen: int = 0;
        let mut i: usize = 0;
        proof {
            assert(before.take(0).filter(keep) =~= Seq::empty()) by {
                reveal(Seq::filter);
            }
            assert(before =~= before.take(0).filter(keep) + before.skip(0));
        }
        while i < self.active.len()
            invariant
                self.wf(),
                0 <= seen <= before.len(),
                keep == (|e: Entry<ModificationValue>| outside_prefix(e, prefix_name@)),
                i == before.take(seen).filter(keep).len(),
                self.entries() == before.take(seen).filter(keep) + before.skip(seen),
            decreases before.len() - seen,
        {
            let ghost kept = before.take(seen).filter(keep);
            let ghost entry = before[seen];
            proof {
                reveal(Seq::filter);
                assert(before.take(seen + 1).drop_last() =~= before.take(seen));
                assert(before.take(seen + 1).last() == entry);
                assert(self.entries()[i as int] == entry);
                assert(before.skip(seen) =~= seq![entry] + before.skip(seen + 1));
            }
            let key = self.active.key_at(i);
            let name = QualifiedName { parts: copy_parts(key, 0, key.len()) };
            assert(name@ =~= entry.0);
            if name.starts_with(prefix_name) {
                let _ = self.active.remove_at(i);
                assert(self.entries() =~= kept + before.skip(seen + 1));
            } else {
                i = i + 1;
                assert(self.entries() =~= kept.push(entry) + before.skip(seen + 1));
            }
            proof {
                seen = seen + 1;
            }
        }
        proof {
            assert(before.skip(seen).len() == 0);
            assert(before.take(seen) =~= before);
            assert(self.entries() =~= before.filter(keep));
        }
    }
}

/// After adding a modification its target has one: the one that was there
/// before, else the one that was added. Other targets keep theirs.
pub proof fn law_outer_modification_wins<V>(
    before: Seq<Entry<V>>,
    target: Seq<PartView>,
    value: V,
    other: Seq<PartView>,
)
    ensures
        ({
            let after = with_modification(before, target, value);
            &&& modification_of(after, target) == match modification_of(before, target) {
                Some(there) => Some(there),
                None => Some(value),
            }
            &&& other != target ==> (has_key(after, other) <==> has_key(before, other))
            &&& other != target && distinct_keys(before) ==> modification_of(after, other)
                == modification_of(before, other)
        }),
{
    if !has_key(before, target) {
        let after = before.push((target, value));
        assert(after[before.len() as int].0 == target);
        let i = choose|i: int| 0 <= i < after.len() && (#[trigger] after[i]).0 == target;
        if i < before.len() {
            assert(before[i].0 == target);
        }
        if other != target {
            if has_key(before, other) {
                let k = choose|k: int|
                    0 <= k < before.len() && (#[trigger] before[k]).0 == other;
                assert(after[k].0 == other);
                let j = choose|j: int| 0 <= j < after.len() && (#[trigger] after[j]).0 == other;
                assert(before[j].0 == other);
                if distinct_keys(before) {
                    if j < k {
                        assert(before[j].0 != before[k].0);
                    } else if k < j {
                        assert(before[k].0 != before[j].0);
                    }
                }
            }
            if has_key(after, other) {
                let j = choose|j: int| 0 <= j < after.len() && (#[trigger] after[j]).0 == other;
                assert(before[j].0 == other);
            }
        }
    }
}

} // verus!
