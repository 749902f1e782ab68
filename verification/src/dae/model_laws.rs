//! Which models pass the checks on their shapes.
use crate::dae::model::{
    functions_error, params_error, partition_error, Dae, DaeVariablePartition,
    Function, FunctionParam,
};
use crate::dae::variable::{shape_error, usable_dimension, VariableView};
use crate::ir::name_map::Named;
use crate::span::Span;
use vstd::prelude::*;

verus! {

/// Whether no dimension is negative, and each can be counted.
pub open spec fn can_be_counted(dims: Seq<i64>) -> bool {
    forall|k: int| 0 <= k < dims.len() ==> 0 <= #[trigger] dims[k] <= usize::MAX
}

/// Whether every variable of a partition stands under its own name and has dimensions
/// that can be counted.
pub open spec fn is_sound(entries: Seq<Named<VariableView>>) -> bool {
    forall|i: int|
        0 <= i < entries.len() ==> (#[trigger] entries[i]).0 == entries[i].1.name
            && can_be_counted(entries[i].1.dims)
}

/// Whether every parameter of a function has dimensions that can be counted.
pub open spec fn all_counted(params: Seq<FunctionParam>) -> bool {
    forall|i: int| 0 <= i < params.len() ==> can_be_counted((#[trigger] params[i]).dims@)
}

/// Whether every function stands under its own name and has parameters with dimensions
/// that can be counted.
pub open spec fn functions_are_sound(entries: Seq<Named<Function>>) -> bool {
    forall|i: int|
        0 <= i < entries.len() ==> (#[trigger] entries[i]).0 == entries[i].1.name@ && all_counted(
            entries[i].1.inputs@,
        ) && all_counted(entries[i].1.outputs@)
}

proof fn lemma_counted(name: Seq<char>, dims: Seq<i64>, span: Span)
    ensures
        shape_error(name, dims, span) is None <==> can_be_counted(dims),
{
    assert(forall|k: int|
        0 <= k < dims.len() ==> (usable_dimension(#[trigger] dims[k]) <==> 0 <= dims[k]
            <= usize::MAX));
    if !can_be_counted(dims) {
        let k = choose|k: int|
            0 <= k < dims.len() && !(0 <= #[trigger] dims[k] <= usize::MAX);
        assert(!usable_dimension(dims[k]));
    }
}

proof fn lemma_partition(
    partition: DaeVariablePartition,
    entries: Seq<Named<VariableView>>,
    n: int,
)
    requires
        0 <= n <= entries.len(),
    ensures
        partition_error(partition, entries, n) is None <==> is_sound(entries.take(n)),
    decreases n,
{
    if n > 0 {
        lemma_partition(partition, entries, n - 1);
        let v = entries[n - 1].1;
        lemma_counted(v.name, v.dims, v.source_span);
        let front = entries.take(n - 1);
        let all = entries.take(n);
        if is_sound(all) {
            assert forall|i: int| 0 <= i < front.len() implies (#[trigger] front[i]).0
                == front[i].1.name && can_be_counted(front[i].1.dims) by {
                assert(front[i] == all[i]);
            }
            assert(all[n - 1] == entries[n - 1]);
        }
        if is_sound(front) && entries[n - 1].0 == v.name && can_be_counted(v.dims) {
            assert forall|i: int| 0 <= i < all.len() implies (#[trigger] all[i]).0
                == all[i].1.name && can_be_counted(all[i].1.dims) by {
                if i < n - 1 {
                    assert(front[i] == all[i]);
                }
            }
        }
    }
}

proof fn lemma_whole_partition(
    partition: DaeVariablePartition,
    entries: Seq<Named<VariableView>>,
)
    ensures
        partition_error(partition, entries, entries.len() as int) is None <==> is_sound(entries),
{
    lemma_partition(partition, entries, entries.len() as int);
    assert(entries.take(entries.len() as int) =~= entries);
}

proof fn lemma_params(params: Seq<FunctionParam>, n: int)
    requires
        0 <= n <= params.len(),
    ensures
        params_error(params, n) is None <==> all_counted(params.take(n)),
    decreases n,
{
    if n > 0 {
        lemma_params(params, n - 1);
        let p = params[n - 1];
        lemma_counted(p.name@, p.dims@, p.span);
        let front = params.take(n - 1);
        let all = params.take(n);
        if all_counted(all) {
            assert forall|i: int| 0 <= i < front.len() implies can_be_counted(
                (#[trigger] front[i]).dims@,
            ) by {
                assert(front[i] == all[i]);
            }
            assert(all[n - 1] == p);
        }
        if all_counted(front) && can_be_counted(p.dims@) {
            assert forall|i: int| 0 <= i < all.len() implies can_be_counted(
                (#[trigger] all[i]).dims@,
            ) by {
                if i < n - 1 {
                    assert(front[i] == all[i]);
                }
            }
        }
    }
}

proof fn lemma_functions(entries: Seq<Named<Function>>, n: int)
    requires
        0 <= n <= entries.len(),
    ensures
        functions_error(entries, n) is None <==> functions_are_sound(entries.take(n)),
    decreases n,
{
    if n > 0 {
        lemma_functions(entries, n - 1);
        let f = entries[n - 1].1;
        lemma_params(f.inputs@, f.inputs@.len() as int);
        lemma_params(f.outputs@, f.outputs@.len() as int);
        assert(f.inputs@.take(f.inputs@.len() as int) =~= f.inputs@);
        assert(f.outputs@.take(f.outputs@.len() as int) =~= f.outputs@);
        let front = entries.take(n - 1);
        let all = entries.take(n);
        if functions_are_sound(all) {
            assert forall|i: int| 0 <= i < front.len() implies (#[trigger] front[i]).0
                == front[i].1.name@ && all_counted(front[i].1.inputs@) && all_counted(
                front[i].1.outputs@,
            ) by {
                assert(front[i] == all[i]);
            }
            assert(all[n - 1] == entries[n - 1]);
        }
        if functions_are_sound(front) && entries[n - 1].0 == f.name@ && all_counted(f.inputs@)
            && all_counted(f.outputs@) {
            assert forall|i: int| 0 <= i < all.len() implies (#[trigger] all[i]).0
                == all[i].1.name@ && all_counted(all[i].1.inputs@) && all_counted(
                all[i].1.outputs@,
            ) by {
                if i < n - 1 {
                    assert(front[i] == all[i]);
                }
            }
        }
    }
}

/// A model passes the check on its shapes exactly where every variable, of whatever role,
/// and every function stands under its own name, and all dimensions can be counted.
pub proof fn law_sound_models_pass(d: Dae)
    ensures
        d.shape_error() is None <==> {
            let v = d@.variables;
            &&& is_sound(v.states)
            &&& is_sound(v.algebraics)
            &&& is_sound(v.inputs)
            &&& is_sound(v.outputs)
            &&& is_sound(v.parameters)
            &&& is_sound(v.constants)
            &&& is_sound(v.discrete_reals)
            &&& is_sound(v.discrete_valued)
            &&& functions_are_sound(d.symbols.functions.entries())
        },
{
    let v = d@.variables;
    lemma_whole_partition(DaeVariablePartition::State, v.states);
    lemma_whole_partition(DaeVariablePartition::Algebraic, v.algebraics);
    lemma_whole_partition(DaeVariablePartition::Input, v.inputs);
    lemma_whole_partition(DaeVariablePartition::Output, v.outputs);
    lemma_whole_partition(DaeVariablePartition::Parameter, v.parameters);
    lemma_whole_partition(DaeVariablePartition::Constant, v.constants);
    lemma_whole_partition(DaeVariablePartition::DiscreteReal, v.discrete_reals);
    lemma_whole_partition(DaeVariablePartition::DiscreteValued, v.discrete_valued);
    let f = d.symbols.functions.entries();
    lemma_functions(f, f.len() as int);
    assert(f.take(f.len() as int) =~= f);
}

} // verus!
