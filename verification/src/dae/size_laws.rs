//! Sizes of variables and of the roles that hold them.
use crate::dae::model::{partition_size, total_size};
use crate::dae::shape::ints_of;
use crate::dae::variable::{size_of_shape, VariableView};
use crate::ir::name_map::Named;
use vstd::prelude::*;

verus! {

/// A scalar has one element, and a further dimension multiplies the elements by its length.
pub proof fn law_dimensions_multiply(dims: Seq<i64>, d: i64)
    requires
        size_of_shape(dims) < usize::MAX,
        0 <= size_of_shape(dims) * d <= usize::MAX,
    ensures
        size_of_shape(Seq::empty()) == 1,
        size_of_shape(dims.push(d)) == size_of_shape(dims) * d,
{
    assert(ints_of(Seq::<i64>::empty()) =~= Seq::empty());
    assert(ints_of(dims.push(d)).drop_last() =~= ints_of(dims));
    assert(ints_of(dims.push(d)).last() == d);
}

proof fn lemma_sizes_add_up(
    first: Seq<Named<VariableView>>,
    second: Seq<Named<VariableView>>,
    n: int,
)
    requires
        0 <= n <= first.len() + second.len(),
    ensures
        n <= first.len() ==> total_size(first + second, n) == total_size(first, n),
        n >= first.len() ==> total_size(first + second, n) == partition_size(first) + total_size(
            second,
            n - first.len(),
        ),
    decreases n,
{
    if n > 0 {
        lemma_sizes_add_up(first, second, n - 1);
        if n <= first.len() {
            assert((first + second)[n - 1] == first[n - 1]);
        } else {
            assert((first + second)[n - 1] == second[n - 1 - first.len()]);
        }
    }
}

/// The size of a role is the size of its variables taken together: that of the only one,
/// and that of some and of the rest added up.
pub proof fn law_sizes_add_up(
    first: Seq<Named<VariableView>>,
    second: Seq<Named<VariableView>>,
    only: Named<VariableView>,
)
    ensures
        partition_size(first + second) == partition_size(first) + partition_size(second),
        partition_size(seq![only]) == size_of_shape(only.1.dims),
{
    lemma_sizes_add_up(first, second, first.len() + second.len() as int);
    reveal_with_fuel(total_size, 2);
}

} // verus!
