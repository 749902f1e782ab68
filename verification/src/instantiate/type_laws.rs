//! Where the classes of components are found.
use crate::instantiate::tree::{
    class_defined, class_defined_in, class_named, class_named_in, full_type, leaf, leaf_from, name_in_scope,
    scoped_name, type_definition, ClassView, ComponentView,
};
use crate::ir::name::{DefId, PartView};
use crate::text::join_text;
use vstd::prelude::*;

verus! {

/// Whether class `i` is the first one with a name.
pub open spec fn is_first_named(tree: Seq<ClassView>, name: Seq<char>, i: int) -> bool {
    &&& 0 <= i < tree.len()
    &&& tree[i].name == name
    &&& forall|k: int| 0 <= k < i ==> (#[trigger] tree[k]).name != name
}

/// Whether class `i` is the first one with a definition.
pub open spec fn is_first_defined(tree: Seq<ClassView>, def_id: DefId, i: int) -> bool {
    &&& 0 <= i < tree.len()
    &&& tree[i].def_id == Some(def_id)
    &&& forall|k: int| 0 <= k < i ==> (#[trigger] tree[k]).def_id != Some(def_id)
}

/// Whether a class with a name is there.
pub open spec fn knows(tree: Seq<ClassView>, name: Seq<char>) -> bool {
    exists|i: int| 0 <= i < tree.len() && (#[trigger] tree[i]).name == name
}

proof fn lemma_named(tree: Seq<ClassView>, name: Seq<char>, n: int)
    requires
        0 <= n <= tree.len(),
    ensures
        match class_named_in(tree, name, n) {
            Some(i) => i < n && is_first_named(tree, name, i),
            None => forall|k: int| 0 <= k < n ==> (#[trigger] tree[k]).name != name,
        },
    decreases n,
{
    if n > 0 {
        lemma_named(tree, name, n - 1);
    }
}

proof fn lemma_defined(tree: Seq<ClassView>, def_id: DefId, n: int)
    requires
        0 <= n <= tree.len(),
    ensures
        match class_defined_in(tree, def_id, n) {
            Some(i) => i < n && is_first_defined(tree, def_id, i),
            None => forall|k: int| 0 <= k < n ==> (#[trigger] tree[k]).def_id != Some(def_id),
        },
    decreases n,
{
    if n > 0 {
        lemma_defined(tree, def_id, n - 1);
    }
}

/// A class is found by its name and by its definition: the first one that has it, and none
/// where no class does.
pub proof fn law_classes_are_found(tree: Seq<ClassView>, name: Seq<char>, def_id: DefId)
    ensures
        match class_named(tree, name) {
            Some(i) => is_first_named(tree, name, i),
            None => !knows(tree, name),
        },
        match class_defined(tree, def_id) {
            Some(i) => is_first_defined(tree, def_id, i),
            None => forall|k: int|
                0 <= k < tree.len() ==> (#[trigger] tree[k]).def_id != Some(def_id),
        },
{
    lemma_named(tree, name, tree.len() as int);
    lemma_defined(tree, def_id, tree.len() as int);
}

/// A name with the first `k` segments of a scope before it, all separated by dots.
pub open spec fn name_inside(scope: Seq<PartView>, k: int, name: Seq<char>) -> Seq<char> {
    join_text(scope.take(k).map_values(|p: PartView| p.0).push(name), "."@)
}

proof fn lemma_name_inside(scope: Seq<PartView>, k: int, name: Seq<char>)
    requires
        0 <= k <= scope.len(),
    ensures
        name_inside(scope, k, name) == scoped_name(scope, k, name),
{
    let front = scope.take(k).map_values(|p: PartView| p.0);
    assert(front =~= Seq::new(k as nat, |i: int| scope[i].0));
    assert(front.push(name).drop_last() =~= front);
}

/// A name is looked up in the scopes around it from the inside out: what is found is the name
/// in the innermost scope that knows it.
pub proof fn law_names_are_found_in_the_nearest_scope(
    tree: Seq<ClassView>,
    name: Seq<char>,
    scope: Seq<PartView>,
    n: int,
)
    requires
        0 <= n <= scope.len(),
    ensures
        match name_in_scope(tree, name, scope, n) {
            Some(found) => exists|k: int|
                0 <= k <= n && found == #[trigger] name_inside(scope, k, name) && knows(tree, found)
                    && forall|j: int|
                    k < j <= n ==> !knows(tree, #[trigger] name_inside(scope, j, name)),
            None => forall|k: int|
                0 <= k <= n ==> !knows(tree, #[trigger] name_inside(scope, k, name)),
        },
    decreases n,
{
    let here = name_inside(scope, n, name);
    lemma_name_inside(scope, n, name);
    lemma_named(tree, here, tree.len() as int);
    if class_named(tree, here) is Some {
        assert(knows(tree, here));
    } else if n > 0 {
        law_names_are_found_in_the_nearest_scope(tree, name, scope, n - 1);
        if let Some(found) = name_in_scope(tree, name, scope, n - 1) {
            let k = choose|k: int|
                0 <= k <= n - 1 && found == #[trigger] name_inside(scope, k, name) && knows(
                    tree,
                    found,
                ) && forall|j: int|
                    k < j <= n - 1 ==> !knows(tree, #[trigger] name_inside(scope, j, name));
            assert(found == name_inside(scope, k, name));
        }
    } else {
        assert(name_in_scope(tree, name, scope, -1) is None);
    }
}

/// The type of a component is the class whose full name is written; else the resolved class,
/// where its last segment is the written one; else what the scopes around the
/// declaration know; else what is written.
pub proof fn law_types_are_named_in_full(tree: Seq<ClassView>, comp: ComponentView, i: int)
    ensures
        knows(tree, comp.type_text) ==> full_type(tree, comp) == comp.type_text,
        !knows(tree, comp.type_text) && comp.type_def_id is Some && is_first_defined(
            tree,
            comp.type_def_id->0,
            i,
        ) && leaf(tree[i].name) == leaf(comp.type_text) ==> full_type(tree, comp) == tree[i].name,
        !knows(tree, comp.type_text) && comp.type_def_id is None ==> match comp.declaration_scope {
            None => full_type(tree, comp) == comp.type_text,
            Some(scope) => match name_in_scope(tree, comp.type_text, scope, scope.len() as int) {
                Some(found) => full_type(tree, comp) == found,
                None => full_type(tree, comp) == comp.type_text,
            },
        },
{
    lemma_named(tree, comp.type_text, tree.len() as int);
    if comp.type_def_id is Some {
        lemma_defined(tree, comp.type_def_id->0, tree.len() as int);
        if is_first_defined(tree, comp.type_def_id->0, i) {
            let j = class_defined(tree, comp.type_def_id->0)->0;
            assert(tree[i].def_id == comp.type_def_id && tree[j].def_id == comp.type_def_id);
            assert(i == j);
        }
    }
}

/// The definition of a component's type is that of the class with its full name, and the
/// resolved one where there is no such class or it has none.
pub proof fn law_types_have_their_definition(tree: Seq<ClassView>, comp: ComponentView, i: int)
    ensures
        is_first_named(tree, full_type(tree, comp), i) && tree[i].def_id is Some
            ==> type_definition(tree, comp) == tree[i].def_id,
        is_first_named(tree, full_type(tree, comp), i) && tree[i].def_id is None
            ==> type_definition(tree, comp) == comp.type_def_id,
        !knows(tree, full_type(tree, comp)) ==> type_definition(tree, comp) == comp.type_def_id,
{
    let full = full_type(tree, comp);
    lemma_named(tree, full, tree.len() as int);
    if is_first_named(tree, full, i) {
        let j = class_named(tree, full)->0;
        assert(tree[i].name == full && tree[j].name == full);
        assert(i == j);
    }
}

proof fn lemma_leaf(front: Seq<char>, last: Seq<char>, i: int)
    requires
        forall|k: int| 0 <= k < last.len() ==> #[trigger] last[k] != '.',
        0 <= i <= last.len(),
    ensures
        leaf_from(last, i) == last,
        leaf_from(front + seq!['.'] + last, front.len() + 1 + i) == last,
    decreases i,
{
    let name = front + seq!['.'] + last;
    if i > 0 {
        lemma_leaf(front, last, i - 1);
        assert(name[front.len() + i] == last[i - 1]);
    } else {
        assert(name[front.len() as int] == '.');
        assert(name.skip(0int + front.len() + 1) =~= last);
    }
}

/// The last segment of a name is what comes behind its last dot, and all of a name without
/// a dot.
pub proof fn law_last_segments_come_behind_the_last_dot(front: Seq<char>, last: Seq<char>)
    requires
        forall|k: int| 0 <= k < last.len() ==> #[trigger] last[k] != '.',
    ensures
        leaf(last) == last,
        leaf(front + seq!['.'] + last) == last,
{
    lemma_leaf(front, last, last.len() as int);
    assert((front + seq!['.'] + last).len() == front.len() + 1 + last.len());
}

} // verus!
