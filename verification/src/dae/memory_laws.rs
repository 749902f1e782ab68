//! Which scalar remembers which relation.
use crate::dae::equation::EquationView;
use crate::dae::error::ToDaeErrorView;
use crate::dae::meaning::World;
use crate::dae::meaning_laws::{remembers, remembers_one};
use crate::dae::model::VariablesView;
use crate::dae::relation_memory::{
    as_indices, equation_memories, relation_count, relation_memories, relation_offset, Memory,
};
use crate::dae::shape::{
    flat_position, in_shape, ints_of, lemma_positions_have_subscripts,
    nats_of, position_subscripts,
};
use crate::dae::variable::VariableView;
use crate::expr::tree::{ExprView, NodeView};
use crate::ir::name::part_text;
use crate::ir::name_map::value_of_name;
use crate::text::join_text;
use vstd::prelude::*;

verus! {

/// Number of scalars that a condition equation defines.
pub open spec fn scalars_of(eq: EquationView) -> int {
    if eq.scalar_count == 0 {
        1
    } else {
        eq.scalar_count as int
    }
}

/// Number of scalars that the first `n` condition equations define.
pub open spec fn scalars_before(equations: Seq<EquationView>, n: int) -> int
    decreases n,
{
    if n <= 0 {
        0
    } else {
        scalars_before(equations, n - 1) + scalars_of(equations[n - 1])
    }
}

/// The name of the variable that a condition equation defines, and the subscripts that it
/// has there: what the reference says up to the subscripts at its end, or the name alone
/// where there is no reference.
pub open spec fn defined(eq: EquationView) -> (Seq<char>, Seq<i64>) {
    let lhs = eq.lhs->0;
    match lhs.component_ref {
        None => (lhs.name, Seq::empty()),
        Some(reference) => {
            let last = reference.parts.len() - 1;
            (
                join_text(
                    Seq::new(
                        reference.parts.len(),
                        |i: int|
                            if i == last {
                                reference.parts[i].ident
                            } else {
                                part_text((reference.parts[i].ident, reference.parts[i].subs))
                            },
                    ),
                    "."@,
                ),
                reference.parts[last].subs,
            )
        },
    }
}

/// Whether a variable is discrete and has a name.
pub open spec fn is_discrete(vars: VariablesView, name: Seq<char>, v: VariableView) -> bool {
    ||| value_of_name(vars.discrete_valued, name) == Some(v)
    ||| value_of_name(vars.discrete_reals, name) == Some(v)
}

/// Whether subscripts are fixed ones with these values.
pub open spec fn are_fixed(subs: Seq<ExprView>, values: Seq<i64>) -> bool {
    &&& subs.len() == values.len()
    &&& forall|i: int|
        0 <= i < subs.len() ==> (#[trigger] subs[i]).node == NodeView::SubscriptIndex(values[i])
}

/// Whether an expression refers to scalar `j` of what a condition equation defines: to
/// the variable itself where it defines one scalar, and else to the element that stands
/// at place `j`, row by row.
pub open spec fn is_scalar_of(r: ExprView, vars: VariablesView, eq: EquationView, j: int) -> bool {
    let (name, subs) = defined(eq);
    &&& r.node == (NodeView::VarRef { name })
    &&& if scalars_of(eq) == 1 {
        are_fixed(r.args, subs)
    } else {
        exists|v: VariableView, at: Seq<i64>|
            is_discrete(vars, name, v) && #[trigger] in_shape(ints_of(v.dims), ints_of(at))
                && flat_position(ints_of(v.dims), ints_of(at)) == j && are_fixed(r.args, at)
    }
}

/// Whether a memory is that of scalar `j` of condition equation `i`: the relations stand
/// in the order of the scalars.
pub open spec fn is_memory_of(
    memory: Memory,
    vars: VariablesView,
    relations: Seq<ExprView>,
    equations: Seq<EquationView>,
    i: int,
    j: int,
) -> bool {
    &&& 0 <= i < equations.len()
    &&& equations[i].lhs is Some
    &&& 0 <= j < scalars_of(equations[i])
    &&& scalars_before(equations, i) + j < relations.len()
    &&& memory.0 == relations[scalars_before(equations, i) + j]
    &&& is_scalar_of(memory.1, vars, equations[i], j)
}

proof fn lemma_offsets(equations: Seq<EquationView>, n: int)
    ensures
        relation_offset(equations, n) == scalars_before(equations, n),
        0 <= scalars_before(equations, n),
    decreases n,
{
    if n > 0 {
        lemma_offsets(equations, n - 1);
    }
}

proof fn lemma_placed(dims: Seq<i64>, j: usize)
    ensures
        position_subscripts(dims, j) matches Some(subs) ==> in_shape(
            ints_of(dims),
            ints_of(as_indices(subs)),
        ) && flat_position(ints_of(dims), ints_of(as_indices(subs))) == j,
{
    if let Some(subs) = position_subscripts(dims, j) {
        let sizes = ints_of(dims);
        lemma_positions_have_subscripts(sizes, j as int);
        let found = choose|found: Seq<int>|
            in_shape(sizes, found) && #[trigger] flat_position(sizes, found) == j;
        let counted = found.map_values(|s: int| s as usize);
        assert forall|i: int| 0 <= i < found.len() implies nats_of(counted)[i]
            == #[trigger] found[i] by {
            assert(1 <= found[i] <= sizes[i]);
            assert(dims[i] <= usize::MAX);
        }
        assert(nats_of(counted) =~= found);
        assert(in_shape(sizes, nats_of(counted)) && flat_position(sizes, nats_of(counted)) == j);
        assert(in_shape(sizes, nats_of(subs)));
        assert forall|i: int| 0 <= i < subs.len() implies ints_of(as_indices(subs))[i]
            == #[trigger] nats_of(subs)[i] by {
            assert(1 <= nats_of(subs)[i] <= sizes[i]);
            assert(subs[i] <= i64::MAX);
        }
        assert(ints_of(as_indices(subs)) =~= nats_of(subs));
    }
}

proof fn lemma_scalar(
    vars: VariablesView,
    eq: EquationView,
    j: int,
)
    requires
        eq.lhs is Some,
        0 <= j < scalars_of(eq),
    ensures
        crate::dae::relation_memory::scalar_memory(
            vars,
            eq.lhs->0,
            j as usize,
            relation_count(eq),
            eq.span,
        ) matches Ok(r) ==> is_scalar_of(r, vars, eq, j),
{
    let made = crate::dae::relation_memory::scalar_memory(
        vars,
        eq.lhs->0,
        j as usize,
        relation_count(eq),
        eq.span,
    );
    if let Ok(r) = made {
        let lhs = eq.lhs->0;
        let (name, subs) = defined(eq);
        let target = crate::dae::relation_memory::memory_target(lhs, eq.span)->Ok_0;
        if let Some(reference) = lhs.component_ref {
            let parts = reference.parts;
            let texts = Seq::new(
                parts.len(),
                |i: int|
                    if i == parts.len() - 1 {
                        parts[i].ident
                    } else {
                        part_text((parts[i].ident, parts[i].subs))
                    },
            );
            assert(texts =~= crate::dae::relation_memory::parts_texts(parts.drop_last()).push(
                parts.last().ident,
            ));
            if parts.len() == 1 {
                reveal_with_fuel(join_text, 2);
                assert(join_text(texts, "."@) =~= parts[0].ident);
            }
        }
        assert(target.variable_name == name);
        assert(target.subscripts == subs);
        if scalars_of(eq) > 1 {
            let v = crate::dae::relation_memory::memory_variable(vars, name)->0;
            let at = as_indices(position_subscripts(v.dims, j as usize)->0);
            lemma_placed(v.dims, j as usize);
            assert(is_discrete(vars, name, v));
            assert(are_fixed(r.args, at));
            assert(in_shape(ints_of(v.dims), ints_of(at)));
        }
    }
}

proof fn lemma_equation(
    vars: VariablesView,
    relations: Seq<ExprView>,
    equations: Seq<EquationView>,
    i: int,
    k: int,
)
    requires
        0 <= i < equations.len(),
        0 <= k <= scalars_of(equations[i]),
    ensures
        equation_memories(
            vars,
            relations,
            equations[i],
            relation_offset(equations, i),
            k,
        ) matches Ok(list) ==> {
            &&& list.len() <= k
            &&& forall|q: int|
                0 <= q < list.len() ==> is_memory_of(
                    #[trigger] list[q],
                    vars,
                    relations,
                    equations,
                    i,
                    q,
                )
            &&& equations[i].lhs is Some && scalars_before(equations, i) + k <= relations.len()
                ==> list.len() == k
        },
    decreases k,
{
    lemma_offsets(equations, i);
    if k > 0 && equations[i].lhs is Some {
        lemma_equation(vars, relations, equations, i, k - 1);
        lemma_scalar(vars, equations[i], k - 1);
    }
}

/// Whether a memory is that of some scalar of the first `n` condition equations.
pub open spec fn is_some_memory(
    memory: Memory,
    vars: VariablesView,
    relations: Seq<ExprView>,
    equations: Seq<EquationView>,
    n: int,
) -> bool {
    exists|i: int, j: int| i < n && #[trigger]
        is_memory_of(memory, vars, relations, equations, i, j)
}

proof fn lemma_memories(
    vars: VariablesView,
    relations: Seq<ExprView>,
    equations: Seq<EquationView>,
    n: int,
)
    requires
        0 <= n <= equations.len(),
    ensures
        relation_memories(vars, relations, equations, n) matches Ok(list) ==> {
            &&& forall|q: int|
                0 <= q < list.len() ==> is_some_memory(
                    #[trigger] list[q],
                    vars,
                    relations,
                    equations,
                    n,
                )
            &&& (forall|i: int| 0 <= i < n ==> (#[trigger] equations[i]).lhs is Some)
                && scalars_before(equations, n) <= relations.len() ==> list.len()
                == scalars_before(equations, n)
        },
    decreases n,
{
    if n > 0 {
        lemma_memories(vars, relations, equations, n - 1);
        let eq = equations[n - 1];
        lemma_equation(vars, relations, equations, n - 1, scalars_of(eq));
        if let Ok(list) = relation_memories(vars, relations, equations, n) {
            let front = relation_memories(vars, relations, equations, n - 1)->Ok_0;
            let more = equation_memories(
                vars,
                relations,
                eq,
                relation_offset(equations, n - 1),
                relation_count(eq) as int,
            )->Ok_0;
            assert forall|q: int| 0 <= q < list.len() implies is_some_memory(
                #[trigger] list[q],
                vars,
                relations,
                equations,
                n,
            ) by {
                if q < front.len() {
                    assert(list[q] == front[q]);
                    let (i, j) = choose|i: int, j: int| i < n - 1 && #[trigger]
                        is_memory_of(front[q], vars, relations, equations, i, j);
                    assert(i < n && is_memory_of(list[q], vars, relations, equations, i, j));
                } else {
                    assert(list[q] == more[q - front.len()]);
                    assert(is_memory_of(
                        list[q],
                        vars,
                        relations,
                        equations,
                        n - 1,
                        q - front.len(),
                    ));
                }
            }
        }
    }
}

/// Relations are remembered in order: what remembers a relation is the scalar, of what a
/// condition equation defines, that stands in the place of the relation, counted over all
/// condition equations; and where every condition equation defines something and there
/// are enough relations, every scalar remembers one.
pub proof fn law_relations_are_remembered_in_order(
    vars: VariablesView,
    relations: Seq<ExprView>,
    equations: Seq<EquationView>,
    memories: Seq<Memory>,
)
    requires
        relation_memories(vars, relations, equations, equations.len() as int) == Ok::<
            _,
            ToDaeErrorView,
        >(memories),
    ensures
        forall|q: int|
            0 <= q < memories.len() ==> is_some_memory(
                #[trigger] memories[q],
                vars,
                relations,
                equations,
                equations.len() as int,
            ),
        (forall|i: int| 0 <= i < equations.len() ==> (#[trigger] equations[i]).lhs is Some)
            && scalars_before(equations, equations.len() as int) <= relations.len()
            ==> memories.len() == scalars_before(equations, equations.len() as int),
{
    let n = equations.len() as int;
    lemma_memories(vars, relations, equations, n);
    let list = relation_memories(vars, relations, equations, n)->Ok_0;
    assert(list == memories);
    assert forall|q: int| 0 <= q < memories.len() implies is_some_memory(
        #[trigger] memories[q],
        vars,
        relations,
        equations,
        n,
    ) by {
        assert(is_some_memory(list[q], vars, relations, equations, n));
    }
}

/// Whether a world is one in which every scalar that a condition equation defines is as
/// the relation in its place is, and its left limit as that of the relation.
pub open spec fn keeps_conditions(
    w: World,
    vars: VariablesView,
    relations: Seq<ExprView>,
    equations: Seq<EquationView>,
) -> bool {
    forall|memory: Memory, i: int, j: int, k: nat| #[trigger]
        is_memory_of(memory, vars, relations, equations, i, j) ==> #[trigger] remembers_one(
            w,
            memory,
            k,
        )
}

/// In a world in which the condition equations hold, relations are remembered rightly.
pub proof fn law_kept_conditions_are_remembered(
    w: World,
    vars: VariablesView,
    relations: Seq<ExprView>,
    equations: Seq<EquationView>,
    memories: Seq<Memory>,
)
    requires
        relation_memories(vars, relations, equations, equations.len() as int) == Ok::<
            _,
            ToDaeErrorView,
        >(memories),
        keeps_conditions(w, vars, relations, equations),
    ensures
        remembers(w, memories),
{
    law_relations_are_remembered_in_order(vars, relations, equations, memories);
    assert forall|q: int, k: nat| 0 <= q < memories.len() implies #[trigger] remembers_one(
        w,
        memories[q],
        k,
    ) by {
        assert(is_some_memory(
            memories[q],
            vars,
            relations,
            equations,
            equations.len() as int,
        ));
        let (i, j) = choose|i: int, j: int| i < equations.len() && #[trigger]
            is_memory_of(memories[q], vars, relations, equations, i, j);
        assert(is_memory_of(memories[q], vars, relations, equations, i, j));
    }
}

} // verus!
