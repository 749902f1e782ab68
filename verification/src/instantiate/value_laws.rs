//! Values that are known before a simulation are what the declarations say.
use crate::dae::meaning::{
    choice, constant, law_constants_have_their_value, meaning, Value, World,
};
use crate::expr::tree::{ExprView, NodeView};
use crate::instantiate::structural::{
    branch_value, component_named_in, declared_value, index_value, local_value, own_value_in,
    recorded_value, reference_path, structural_value, value_at, EvalPlace,
};
use crate::instantiate::tree::ComponentView;
use crate::ir::instance::InstanceView;
use crate::ir::modification::{modification_of, ModificationView};
use crate::ir::name::PartView;
use crate::ir::path_map::Entry;
use vstd::prelude::*;

verus! {

/// Whether a name is the index of a loop with a value: that of the innermost loop with
/// such an index.
pub open spec fn is_index(locals: Seq<(Seq<char>, i64)>, path: Seq<PartView>, v: i64) -> bool {
    &&& path.len() == 1
    &&& path[0].1.len() == 0
    &&& exists|k: int|
        0 <= k < locals.len() && #[trigger] locals[k] == (path[0].0, v) && forall|j: int|
            k < j < locals.len() ==> (#[trigger] locals[j]).0 != path[0].0
}

/// Whether a name is the index of some loop.
pub open spec fn is_some_index(locals: Seq<(Seq<char>, i64)>, path: Seq<PartView>) -> bool {
    exists|v: i64| is_index(locals, path, v)
}

/// Whether a component is the first of its name.
pub open spec fn is_first(components: Seq<ComponentView>, name: Seq<char>, i: int) -> bool {
    &&& 0 <= i < components.len()
    &&& components[i].name == name
    &&& forall|j: int| 0 <= j < i ==> (#[trigger] components[j]).name != name
}

/// Whether a modification is the first of a target, and says a value.
pub open spec fn first_says(
    own: Seq<Entry<ModificationView>>,
    target: Seq<PartView>,
    value: ExprView,
) -> bool {
    exists|k: int|
        0 <= k < own.len() && (#[trigger] own[k]).0 == target && own[k].1.value == value
            && forall|j: int| 0 <= j < k ==> (#[trigger] own[j]).0 != target
}

/// Whether components declare a value of a path: the component that it names has that
/// binding and does not change in a simulation, or the component that it starts with
/// modifies the rest of it to that value.
pub open spec fn is_declared_as(
    path: Seq<PartView>,
    components: Seq<ComponentView>,
    value: ExprView,
) -> bool {
    &&& path.len() > 0
    &&& path[0].1.len() == 0
    &&& exists|i: int| #[trigger]
        is_first(components, path[0].0, i) && if path.len() == 1 {
            &&& components[i].variability is Parameter || components[i].variability is Constant
                || components[i].is_structural
            &&& components[i].binding == Some(value)
        } else {
            first_says(components[i].modifications, path.skip(1), value)
        }
}

/// Whether components declare some value of a path.
pub open spec fn is_somehow_declared(path: Seq<PartView>, components: Seq<ComponentView>) -> bool {
    exists|value: ExprView| is_declared_as(path, components, value)
}

/// Whether the last instance at a path does not change in a simulation and has a value.
pub open spec fn is_recorded_as(
    recorded: Seq<(u32, InstanceView)>,
    path: Seq<PartView>,
    value: ExprView,
) -> bool {
    exists|k: int|
        0 <= k < recorded.len() && (#[trigger] recorded[k]).1.qualified_name == path && (
        recorded[k].1.variability is Parameter || recorded[k].1.variability is Constant)
            && recorded[k].1.binding == Some(value) && forall|j: int|
            k < j < recorded.len() ==> (#[trigger] recorded[j]).1.qualified_name != path
}

/// Whether a reference has, in a world, the value that a place says: that of the loop
/// index it names, else that of the modification of it, else that which is declared of
/// it, else that of the instance it names.
pub open spec fn has_said_value(w: World, at: EvalPlace, e: ExprView) -> bool {
    reference_path(e) matches Some(path) ==> {
        let modified = modification_of(at.mods, at.path + path);
        &&& forall|v: i64|
            #[trigger] is_index(at.locals, path, v) ==> meaning(e, w, 0) == Value::Integer(
                v as int,
            )
        &&& !is_some_index(at.locals, path) ==> (modified matches Some(m) ==> meaning(e, w, 0)
            == meaning(m.value, w, 0))
        &&& !is_some_index(at.locals, path) && modified is None ==> forall|d: ExprView|
            #[trigger] is_declared_as(path, at.components, d) ==> meaning(e, w, 0) == meaning(
                d,
                w,
                0,
            )
        &&& !is_some_index(at.locals, path) && modified is None && !is_somehow_declared(
            path,
            at.components,
        ) ==> forall|d: ExprView|
            #[trigger] is_recorded_as(at.recorded, at.path + path, d) ==> meaning(e, w, 0)
                == meaning(d, w, 0)
    }
}

/// Whether a world is one in which every reference has the value that a place says.
pub open spec fn is_as_said(w: World, at: EvalPlace) -> bool {
    forall|e: ExprView| #[trigger] has_said_value(w, at, e)
}

proof fn lemma_local(locals: Seq<(Seq<char>, i64)>, path: Seq<PartView>, n: int)
    requires
        path.len() == 1,
        path[0].1.len() == 0,
        0 <= n <= locals.len(),
        forall|j: int| n <= j < locals.len() ==> (#[trigger] locals[j]).0 != path[0].0,
    ensures
        local_value(locals, path[0].0, n) matches Some(v) ==> is_index(locals, path, v),
        local_value(locals, path[0].0, n) is None ==> !is_some_index(locals, path),
    decreases n,
{
    if n > 0 {
        if locals[n - 1].0 == path[0].0 {
            assert(locals[n - 1] == (path[0].0, locals[n - 1].1));
        } else {
            lemma_local(locals, path, n - 1);
        }
    }
}

proof fn lemma_index(at: EvalPlace, path: Seq<PartView>)
    ensures
        index_value(path, at) matches Some(v) ==> is_index(at.locals, path, v),
        index_value(path, at) is None ==> !is_some_index(at.locals, path),
{
    if path.len() == 1 && path[0].1.len() == 0 {
        lemma_local(at.locals, path, at.locals.len() as int);
    }
}

proof fn lemma_named(components: Seq<ComponentView>, name: Seq<char>, n: int)
    requires
        0 <= n <= components.len(),
    ensures
        component_named_in(components, name, n) matches Some(i) ==> i < n && is_first(
            components,
            name,
            i,
        ),
        component_named_in(components, name, n) is None ==> forall|j: int|
            0 <= j < n ==> (#[trigger] components[j]).name != name,
    decreases n,
{
    if n > 0 {
        lemma_named(components, name, n - 1);
    }
}

proof fn lemma_own(own: Seq<Entry<ModificationView>>, target: Seq<PartView>, n: int)
    requires
        0 <= n <= own.len(),
    ensures
        own_value_in(own, target, n) matches Some(value) ==> first_says(own, target, value),
        own_value_in(own, target, n) is None ==> forall|j: int|
            0 <= j < n ==> (#[trigger] own[j]).0 != target,
    decreases n,
{
    if n > 0 {
        lemma_own(own, target, n - 1);
        if own_value_in(own, target, n - 1) is None && own[n - 1].0 == target {
            assert(own[n - 1].0 == target && own[n - 1].1.value == own[n - 1].1.value);
        }
    }
}

proof fn lemma_declared(path: Seq<PartView>, components: Seq<ComponentView>)
    ensures
        declared_value(path, components) matches Some(value) ==> is_declared_as(
            path,
            components,
            value,
        ),
        declared_value(path, components) is None ==> !is_somehow_declared(path, components),
{
    if path.len() > 0 && path[0].1.len() == 0 {
        let name = path[0].0;
        lemma_named(components, name, components.len() as int);
        if let Some(i) = component_named_in(components, name, components.len() as int) {
            let own = components[i].modifications;
            lemma_own(own, path.skip(1), own.len() as int);
            assert(is_first(components, name, i));
            if declared_value(path, components) is None && is_somehow_declared(path, components) {
                let value = choose|value: ExprView| is_declared_as(path, components, value);
                let j = choose|j: int| #[trigger]
                    is_first(components, name, j) && if path.len() == 1 {
                        &&& components[j].variability is Parameter
                            || components[j].variability is Constant || components[j].is_structural
                        &&& components[j].binding == Some(value)
                    } else {
                        first_says(components[j].modifications, path.skip(1), value)
                    };
                assert(i == j) by {
                    if i < j {
                        assert(components[i].name != name);
                    } else if j < i {
                        assert(components[j].name != name);
                    }
                }
            }
        }
    }
}

proof fn lemma_recorded(recorded: Seq<(u32, InstanceView)>, path: Seq<PartView>, n: int)
    requires
        0 <= n <= recorded.len(),
        forall|j: int| n <= j < recorded.len() ==> (#[trigger] recorded[j]).1.qualified_name != path,
    ensures
        recorded_value(recorded, path, n) matches Some(value) ==> is_recorded_as(
            recorded,
            path,
            value,
        ),
    decreases n,
{
    if n > 0 {
        if recorded[n - 1].1.qualified_name != path {
            lemma_recorded(recorded, path, n - 1);
        } else {
            assert(recorded[n - 1].1.qualified_name == path);
        }
    }
}

proof fn lemma_branches(e: ExprView, k: int, at: EvalPlace, fuel: nat, w: World)
    requires
        is_as_said(w, at),
        0 <= k,
    ensures
        branch_value(e, k, at, fuel) matches Some(v) ==> choice(e, w, 0, k) == constant(v),
    decreases fuel, e, e.args.len() - k,
{
    let n = e.args.len();
    if k < n {
        lemma_known(e.args[k], at, fuel, w);
        if k + 1 < n {
            lemma_known(e.args[k + 1], at, fuel, w);
            lemma_branches(e, k + 2, at, fuel, w);
        }
    }
}

#[verifier::rlimit(40)]
proof fn lemma_known(e: ExprView, at: EvalPlace, fuel: nat, w: World)
    requires
        is_as_said(w, at),
    ensures
        value_at(e, at, fuel) matches Some(v) ==> meaning(e, w, 0) == constant(v),
    decreases fuel, e, e.args.len() + 1,
{
    match e.node {
        NodeView::SubscriptExpr => {
            if e.args.len() == 1 {
                lemma_known(e.args[0], at, fuel, w);
            }
        },
        NodeView::Unary(op) => {
            if e.args.len() == 1 {
                lemma_known(e.args[0], at, fuel, w);
            }
        },
        NodeView::Binary(op) => {
            if e.args.len() == 2 {
                lemma_known(e.args[0], at, fuel, w);
                lemma_known(e.args[1], at, fuel, w);
            }
        },
        NodeView::If => {
            lemma_branches(e, 0, at, fuel, w);
        },
        NodeView::Literal(_) => {},
        NodeView::SubscriptIndex(_) => {},
        _ => {
            if let Some(path) = reference_path(e) {
                lemma_reference(e, path, at, fuel, w);
            }
        },
    }
}

proof fn lemma_reference(e: ExprView, path: Seq<PartView>, at: EvalPlace, fuel: nat, w: World)
    requires
        is_as_said(w, at),
        reference_path(e) == Some(path),
        e.node is VarRef || e.node is FieldAccess,
    ensures
        value_at(e, at, fuel) matches Some(v) ==> meaning(e, w, 0) == constant(v),
    decreases fuel, e, 0int,
{
    assert(has_said_value(w, at, e));
    lemma_index(at, path);
    lemma_declared(path, at.components);
    if index_value(path, at) is None {
        match modification_of(at.mods, at.path + path) {
            Some(m) => {
                law_constants_have_their_value(m.value, w, 0);
            },
            None => match declared_value(path, at.components) {
                Some(value) => {
                    if fuel > 0 {
                        lemma_known(value, at, (fuel - 1) as nat, w);
                        assert(is_declared_as(path, at.components, value));
                    }
                },
                None => {
                    lemma_recorded(at.recorded, at.path + path, at.recorded.len() as int);
                    if let Some(value) = recorded_value(
                        at.recorded,
                        at.path + path,
                        at.recorded.len() as int,
                    ) {
                        law_constants_have_their_value(value, w, 0);
                        assert(is_recorded_as(at.recorded, at.path + path, value));
                    }
                },
            },
        }
    }
}

/// A value that is known of an expression at a place is the value that the expression has
/// in every world in which references have the values that the place says.
pub proof fn law_known_values_are_right(e: ExprView, at: EvalPlace, w: World)
    requires
        is_as_said(w, at),
    ensures
        structural_value(e, at) matches Some(v) ==> meaning(e, w, 0) == constant(v),
{
    lemma_known(e, at, crate::instantiate::structural::reach(at), w);
}

} // verus!
