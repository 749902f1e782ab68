//! Which variable remembers the truth of which relation.
use crate::dae::equation::{equation_views, Equation, EquationView, Reference, TargetView};
use crate::dae::error::{missing_provenance, missing_provenance_error, ToDaeError, ToDaeErrorView};
use crate::dae::model::{DaeVariables, VariablesView};
use crate::dae::pre_targets::{index_subscripts, make_index_subscripts};
use crate::dae::shape::{
    flat_index_to_subscripts, in_shape, ints_of, lemma_position_subscripts, nats_of,
    position_subscripts,
};
use crate::dae::variable::{Variable, VariableView};
use crate::expr::tree::{expr_views, ExprView, Expression, NodeView};
use crate::ir::name::{copy_subscripts, part_text, render_part, ReferencePartView};
use crate::ir::name_map::value_of_name;
use crate::span::Span;
use crate::text::{int_text, join, join_text, nat_text, owned, push_int, push_usize, views};
use vstd::prelude::*;

verus! {

/// A variable and the subscripts of the element that remembers a relation.
pub struct RelationMemoryTarget {
    pub variable_name: String,
    pub subscripts: Vec<i64>,
    pub span: Span,
}

pub struct MemoryTargetView {
    pub variable_name: Seq<char>,
    pub subscripts: Seq<i64>,
    pub span: Span,
}

impl View for RelationMemoryTarget {
    type V = MemoryTargetView;

    open spec fn view(&self) -> MemoryTargetView {
        MemoryTargetView {
            variable_name: self.variable_name@,
            subscripts: self.subscripts@,
            span: self.span,
        }
    }
}

/// Text of the first `n` parts of a reference.
pub open spec fn parts_texts(parts: Seq<ReferencePartView>) -> Seq<Seq<char>> {
    parts.map_values(|p: ReferencePartView| part_text((p.ident, p.subs)))
}

/// A contract violation with this message.
pub open spec fn violation(message: Seq<char>, span: Span) -> ToDaeErrorView {
    ToDaeErrorView::RuntimeContractViolation { message, span }
}

/// The variable that a condition equation defines, and the subscripts at the
/// end of its reference.
pub open spec fn memory_target(lhs: TargetView, span: Span) -> Result<
    MemoryTargetView,
    ToDaeErrorView,
> {
    match lhs.component_ref {
        None => Ok(
            MemoryTargetView { variable_name: lhs.name, subscripts: Seq::empty(), span },
        ),
        Some(reference) => if reference.parts.len() == 0 {
            Err(
                violation(
                    "relation memory target `"@ + lhs.name + "` has empty component reference"@,
                    span,
                ),
            )
        } else {
            let last = reference.parts.last();
            Ok(
                MemoryTargetView {
                    variable_name: if reference.parts.len() == 1 {
                        last.ident
                    } else {
                        join_text(
                            parts_texts(reference.parts.drop_last()).push(last.ident),
                            "."@,
                        )
                    },
                    subscripts: last.subs,
                    span: last.span,
                },
            )
        },
    }
}

fn memory_error(lhs: &str, tail: &str, span: Span) -> (e: ToDaeError)
    ensures
        e@ == violation("relation memory target `"@ + lhs@ + tail@, span),
{
    let mut message = owned("relation memory target `");
    message.append(lhs);
    message.append(tail);
    ToDaeError::RuntimeContractViolation { message, span }
}

fn relation_memory_target(lhs: &Reference, span: Span) -> (r: Result<
    RelationMemoryTarget,
    ToDaeError,
>)
    ensures
        match r {
            Ok(t) => memory_target(lhs@, span) == Ok::<_, ToDaeErrorView>(t@),
            Err(x) => memory_target(lhs@, span) == Err::<MemoryTargetView, _>(x@),
        },
{
    let reference = match &lhs.component_ref {
        Some(reference) => reference,
        None => {
            let none: Vec<i64> = Vec::new();
            assert(none@ =~= Seq::<i64>::empty());
            return Ok(
                RelationMemoryTarget {
                    variable_name: lhs.name.clone(),
                    subscripts: none,
                    span,
                },
            );
        },
    };
    let n: usize = reference.parts.len();
    assert(reference@.parts.len() == n);
    if n == 0 {
        return Err(memory_error(lhs.name.as_str(), "` has empty component reference", span));
    }
    let last = &reference.parts[n - 1];
    assert(reference@.parts.last() == last@);
    let variable_name: String = if n == 1 {
        last.ident.clone()
    } else {
        let ghost front = parts_texts(reference@.parts.drop_last());
        let mut texts: Vec<String> = Vec::new();
        let mut i: usize = 0;
        assert(views(texts@) =~= front.take(0));
        while i < n - 1
            invariant
                n == reference.parts@.len(),
                reference@.parts.len() == n,
                i <= n - 1,
                front == parts_texts(reference@.parts.drop_last()),
                views(texts@) == front.take(i as int),
            decreases n - i,
        {
            let part = &reference.parts[i];
            assert(reference@.parts[i as int] == part@);
            assert(front[i as int] == part_text((part.ident@, part.subs@)));
            let ghost before = views(texts@);
            texts.push(render_part(part.ident.as_str(), &part.subs));
            assert(views(texts@) =~= before.push(front[i as int]));
            i = i + 1;
            assert(views(texts@) =~= front.take(i as int));
        }
        assert(front.take(i as int) =~= front);
        let ghost before = views(texts@);
        texts.push(last.ident.clone());
        assert(views(texts@) =~= before.push(last.ident@));
        join(&texts, ".")
    };
    Ok(
        RelationMemoryTarget {
            variable_name,
            subscripts: copy_subscripts(&last.subs),
            span: last.span,
        },
    )
}

/// A list of integers as it is shown for people.
pub open spec fn shown_list(dims: Seq<i64>) -> Seq<char> {
    "["@ + join_text(dims.map_values(|d: i64| int_text(d as int)), ", "@) + "]"@
}

fn show_list(out: &mut String, dims: &Vec<i64>)
    ensures
        final(out)@ == old(out)@ + shown_list(dims@),
{
    let ghost texts = dims@.map_values(|d: i64| int_text(d as int));
    out.append("[");
    let ghost head = out@;
    let mut i: usize = 0;
    assert(out@ =~= head + join_text(texts.take(0), ", "@));
    while i < dims.len()
        invariant
            i <= dims.len(),
            texts == dims@.map_values(|d: i64| int_text(d as int)),
            out@ == head + join_text(texts.take(i as int), ", "@),
        decreases dims.len() - i,
    {
        assert(texts.take(i as int + 1).drop_last() =~= texts.take(i as int));
        if i > 0 {
            out.append(", ");
        }
        push_int(out, dims[i]);
        i = i + 1;
        assert(out@ =~= head + join_text(texts.take(i as int), ", "@));
    }
    assert(texts.take(i as int) =~= texts);
    out.append("]");
    assert(out@ =~= old(out)@ + shown_list(dims@));
}

/// The discrete variable of a name, discrete-valued ones first.
pub open spec fn memory_variable(vars: VariablesView, name: Seq<char>) -> Option<VariableView> {
    match value_of_name(vars.discrete_valued, name) {
        Some(v) => Some(v),
        None => value_of_name(vars.discrete_reals, name),
    }
}

/// A list of counted subscripts as machine integers.
pub open spec fn as_indices(subs: Seq<usize>) -> Seq<i64> {
    subs.map_values(|s: usize| s as i64)
}

/// The reference to the scalar that remembers one relation of a condition
/// equation.
pub open spec fn scalar_memory(
    vars: VariablesView,
    lhs: TargetView,
    flat_index: usize,
    scalar_count: usize,
    span: Span,
) -> Result<ExprView, ToDaeErrorView> {
    match memory_target(lhs, span) {
        Err(x) => Err(x),
        Ok(target) => match memory_variable(vars, target.variable_name) {
            None => Err(
                violation(
                    "relation memory target `"@ + lhs.name + "` has scalar_count="@ + nat_text(
                        scalar_count as nat,
                    ) + " but no DAE variable metadata"@,
                    span,
                ),
            ),
            Some(variable) => {
                let node = NodeView::VarRef { name: target.variable_name };
                if scalar_count <= 1 {
                    Ok(
                        ExprView {
                            node,
                            args: index_subscripts(target.subscripts, target.span),
                            span,
                        },
                    )
                } else if target.subscripts.len() > 0 {
                    Err(
                        violation(
                            "relation memory target `"@ + lhs.name
                                + "` has both explicit lhs subscripts and scalar_count="@
                                + nat_text(scalar_count as nat),
                            span,
                        ),
                    )
                } else {
                    match position_subscripts(variable.dims, flat_index) {
                        None => Err(
                            violation(
                                "relation memory target `"@ + lhs.name
                                    + "` cannot map flat index "@ + nat_text(flat_index as nat)
                                    + " of "@ + nat_text(scalar_count as nat) + " through dims "@
                                    + shown_list(variable.dims),
                                span,
                            ),
                        ),
                        Some(subs) => if span == Span::dummy_spec() {
                            Err(missing_provenance("relation memory target subscript"@))
                        } else {
                            Ok(
                                ExprView {
                                    node,
                                    args: index_subscripts(as_indices(subs), span),
                                    span,
                                },
                            )
                        },
                    }
                }
            },
        },
    }
}

fn indices_of(subs: &Vec<usize>, dims: Ghost<Seq<i64>>) -> (r: Vec<i64>)
    requires
        in_shape(ints_of(dims@), nats_of(subs@)),
    ensures
        r@ == as_indices(subs@),
{
    let mut r: Vec<i64> = Vec::new();
    let mut i: usize = 0;
    assert(r@ =~= as_indices(subs@).take(0));
    while i < subs.len()
        invariant
            i <= subs.len(),
            in_shape(ints_of(dims@), nats_of(subs@)),
            r@ == as_indices(subs@).take(i as int),
        decreases subs.len() - i,
    {
        assert(nats_of(subs@)[i as int] <= ints_of(dims@)[i as int]);
        assert(subs@[i as int] <= dims@[i as int]);
        r.push(subs[i] as i64);
        i = i + 1;
        assert(r@ =~= as_indices(subs@).take(i as int));
    }
    assert(as_indices(subs@).take(i as int) =~= as_indices(subs@));
    r
}

/// The reference to the scalar that remembers one relation of a condition
/// equation.
pub fn relation_memory_scalar_expr(
    vars: &DaeVariables,
    lhs: &Reference,
    flat_index: usize,
    scalar_count: usize,
    span: Span,
) -> (r: Result<Expression, ToDaeError>)
    requires
        vars.wf(),
    ensures
        match r {
            Ok(e) => scalar_memory(vars@, lhs@, flat_index, scalar_count, span) == Ok::<
                _,
                ToDaeErrorView,
            >(e@),
            Err(x) => scalar_memory(vars@, lhs@, flat_index, scalar_count, span) == Err::<
                ExprView,
                _,
            >(x@),
        },
{
    let target = match relation_memory_target(lhs, span) {
        Ok(target) => target,
        Err(x) => {
            return Err(x);
        },
    };
    proof {
        vars.discrete_valued.lemma_views(target.variable_name@);
        vars.discrete_reals.lemma_views(target.variable_name@);
    }
    let found: Option<&Variable> = match vars.discrete_valued.get(target.variable_name.as_str()) {
        Some(v) => Some(v),
        None => vars.discrete_reals.get(target.variable_name.as_str()),
    };
    let variable = match found {
        Some(v) => v,
        None => {
            let mut message = owned("relation memory target `");
            message.append(lhs.name.as_str());
            message.append("` has scalar_count=");
            push_usize(&mut message, scalar_count);
            message.append(" but no DAE variable metadata");
            return Err(ToDaeError::RuntimeContractViolation { message, span });
        },
    };
    if scalar_count <= 1 {
        let subs = make_index_subscripts(&target.subscripts, target.span);
        return Ok(Expression::var_ref(target.variable_name.as_str(), subs, span));
    }
    if target.subscripts.len() > 0 {
        let mut message = owned("relation memory target `");
        message.append(lhs.name.as_str());
        message.append("` has both explicit lhs subscripts and scalar_count=");
        push_usize(&mut message, scalar_count);
        return Err(ToDaeError::RuntimeContractViolation { message, span });
    }
    let subs = match subscripts_at(&variable.dims, flat_index) {
        Some(subs) => subs,
        None => {
            let mut message = owned("relation memory target `");
            message.append(lhs.name.as_str());
            message.append("` cannot map flat index ");
            push_usize(&mut message, flat_index);
            message.append(" of ");
            push_usize(&mut message, scalar_count);
            message.append(" through dims ");
            show_list(&mut message, &variable.dims);
            return Err(ToDaeError::RuntimeContractViolation { message, span });
        },
    };
    if span.is_dummy() {
        return Err(missing_provenance_error("relation memory target subscript"));
    }
    let indices = indices_of(&subs, Ghost(variable.dims@));
    let args = make_index_subscripts(&indices, span);
    Ok(Expression::var_ref(target.variable_name.as_str(), args, span))
}

fn subscripts_at(dims: &Vec<i64>, flat_index: usize) -> (r: Option<Vec<usize>>)
    ensures
        match r {
            Some(subs) => position_subscripts(dims@, flat_index) == Some(subs@) && in_shape(
                ints_of(dims@),
                nats_of(subs@),
            ),
            None => position_subscripts(dims@, flat_index) is None,
        },
{
    let r = flat_index_to_subscripts(dims.as_slice(), flat_index);
    proof {
        if r is Some {
            lemma_position_subscripts(dims@, flat_index, r->0@);
        }
    }
    r
}

/// Number of relations that a condition equation stands for.
pub open spec fn relation_count(eq: EquationView) -> usize {
    if eq.scalar_count == 0 {
        1
    } else {
        eq.scalar_count
    }
}

/// Position of the first relation of the equation after the first `n`.
pub open spec fn relation_offset(equations: Seq<EquationView>, n: int) -> int
    decreases n,
{
    if n <= 0 {
        0
    } else {
        relation_offset(equations, n - 1) + relation_count(equations[n - 1])
    }
}

proof fn lemma_offset_grows(equations: Seq<EquationView>, k: int, n: int)
    requires
        0 <= k <= n,
    ensures
        0 <= relation_offset(equations, k) <= relation_offset(equations, n),
    decreases n,
{
    if n > 0 {
        if k < n {
            lemma_offset_grows(equations, k, n - 1);
        } else {
            lemma_offset_grows(equations, n - 1, n - 1);
        }
    }
}

/// A relation and the scalar that remembers it.
pub type Memory = (ExprView, ExprView);

/// The memories of the first `k` relations of an equation whose relations start
/// at `offset`.
pub open spec fn equation_memories(
    vars: VariablesView,
    relations: Seq<ExprView>,
    eq: EquationView,
    offset: int,
    k: int,
) -> Result<Seq<Memory>, ToDaeErrorView>
    decreases k,
{
    if k <= 0 || eq.lhs is None {
        Ok(Seq::empty())
    } else {
        match equation_memories(vars, relations, eq, offset, k - 1) {
            Err(x) => Err(x),
            Ok(front) => if offset + k - 1 < relations.len() {
                match scalar_memory(
                    vars,
                    eq.lhs->0,
                    (k - 1) as usize,
                    relation_count(eq),
                    eq.span,
                ) {
                    Ok(memory) => Ok(front.push((relations[offset + k - 1], memory))),
                    Err(x) => Err(x),
                }
            } else {
                Ok(front)
            },
        }
    }
}

/// The memories of the relations of the first `n` condition equations.
pub open spec fn relation_memories(
    vars: VariablesView,
    relations: Seq<ExprView>,
    equations: Seq<EquationView>,
    n: int,
) -> Result<Seq<Memory>, ToDaeErrorView>
    decreases n,
{
    if n <= 0 {
        Ok(Seq::empty())
    } else {
        match relation_memories(vars, relations, equations, n - 1) {
            Err(x) => Err(x),
            Ok(front) => match equation_memories(
                vars,
                relations,
                equations[n - 1],
                relation_offset(equations, n - 1),
                relation_count(equations[n - 1]) as int,
            ) {
                Ok(more) => Ok(front + more),
                Err(x) => Err(x),
            },
        }
    }
}

/// The content of a list of memories.
pub open spec fn memory_views(list: Seq<(Expression, Expression)>) -> Seq<Memory> {
    list.map_values(|m: (Expression, Expression)| (m.0@, m.1@))
}

proof fn lemma_equation_error_stays(
    vars: VariablesView,
    relations: Seq<ExprView>,
    eq: EquationView,
    offset: int,
    j: int,
    k: int,
)
    requires
        0 <= j <= k,
        equation_memories(vars, relations, eq, offset, j) is Err,
    ensures
        equation_memories(vars, relations, eq, offset, k) == equation_memories(
            vars,
            relations,
            eq,
            offset,
            j,
        ),
    decreases k,
{
    if j < k {
        lemma_equation_error_stays(vars, relations, eq, offset, j, k - 1);
    }
}

proof fn lemma_memories_error_stays(
    vars: VariablesView,
    relations: Seq<ExprView>,
    equations: Seq<EquationView>,
    k: int,
    n: int,
)
    requires
        0 <= k <= n,
        relation_memories(vars, relations, equations, k) is Err,
    ensures
        relation_memories(vars, relations, equations, n) == relation_memories(
            vars,
            relations,
            equations,
            k,
        ),
    decreases n,
{
    if k < n {
        lemma_memories_error_stays(vars, relations, equations, k, n - 1);
    }
}

fn add_equation_memories(
    vars: &DaeVariables,
    relations: &Vec<Expression>,
    equation: &Equation,
    offset: usize,
    memories: &mut Vec<(Expression, Expression)>,
) -> (r: Result<(), ToDaeError>)
    requires
        vars.wf(),
        offset + relation_count(equation@) <= usize::MAX,
    ensures
        match r {
            Ok(()) => equation_memories(
                vars@,
                expr_views(relations@),
                equation@,
                offset as int,
                relation_count(equation@) as int,
            ) matches Ok(more) && memory_views(final(memories)@) == memory_views(old(memories)@)
                + more,
            Err(x) => equation_memories(
                vars@,
                expr_views(relations@),
                equation@,
                offset as int,
                relation_count(equation@) as int,
            ) == Err::<Seq<Memory>, _>(x@),
        },
{
    let count: usize = if equation.scalar_count == 0 {
        1
    } else {
        equation.scalar_count
    };
    let ghost all = expr_views(relations@);
    let ghost start = memory_views(memories@);
    let lhs = match &equation.lhs {
        Some(lhs) => lhs,
        None => {
            proof {
                assert(start + Seq::<Memory>::empty() =~= start);
            }
            return Ok(());
        },
    };
    let mut k: usize = 0;
    let ghost mut more: Seq<Memory> = Seq::empty();
    assert(memory_views(memories@) =~= start + more);
    while k < count
        invariant
            vars.wf(),
            k <= count,
            count == relation_count(equation@),
            offset + count <= usize::MAX,
            all == expr_views(relations@),
            start == memory_views(old(memories)@),
            equation@.lhs == Some(lhs@),
            equation_memories(vars@, all, equation@, offset as int, k as int) == Ok::<
                _,
                ToDaeErrorView,
            >(more),
            memory_views(memories@) == start + more,
        decreases count - k,
    {
        if offset + k < relations.len() {
            assert(all[offset + k] == relations@[offset + k]@);
            match relation_memory_scalar_expr(vars, lhs, k, count, equation.span) {
                Ok(memory) => {
                    let relation = relations[offset + k].clone();
                    let ghost pair = (relation@, memory@);
                    let ghost before = memory_views(memories@);
                    memories.push((relation, memory));
                    proof {
                        assert(memory_views(memories@) =~= before.push(pair));
                        more = more.push(pair);
                        assert(memory_views(memories@) =~= start + more);
                    }
                },
                Err(x) => {
                    proof {
                        lemma_equation_error_stays(
                            vars@,
                            all,
                            equation@,
                            offset as int,
                            k + 1,
                            count as int,
                        );
                    }
                    return Err(x);
                },
            }
        }
        k = k + 1;
    }
    Ok(())
}

/// Pairs every relation of a condition equation with the scalar that remembers
/// it.
pub fn relation_memory_exprs(
    vars: &DaeVariables,
    equations: &Vec<Equation>,
    relations: &Vec<Expression>,
) -> (r: Result<Vec<(Expression, Expression)>, ToDaeError>)
    requires
        vars.wf(),
        relation_offset(equation_views(equations@), equations@.len() as int) <= usize::MAX,
    ensures
        match r {
            Ok(list) => relation_memories(
                vars@,
                expr_views(relations@),
                equation_views(equations@),
                equations@.len() as int,
            ) == Ok::<_, ToDaeErrorView>(memory_views(list@)),
            Err(x) => relation_memories(
                vars@,
                expr_views(relations@),
                equation_views(equations@),
                equations@.len() as int,
            ) == Err::<Seq<Memory>, _>(x@),
        },
{
    let ghost eqs = equation_views(equations@);
    let mut memories: Vec<(Expression, Expression)> = Vec::new();
    let mut offset: usize = 0;
    let mut i: usize = 0;
    assert(memory_views(memories@) =~= Seq::<Memory>::empty());
    while i < equations.len()
        invariant
            vars.wf(),
            i <= equations@.len(),
            eqs == equation_views(equations@),
            relation_offset(eqs, equations@.len() as int) <= usize::MAX,
            offset == relation_offset(eqs, i as int),
            relation_memories(vars@, expr_views(relations@), eqs, i as int) == Ok::<
                _,
                ToDaeErrorView,
            >(memory_views(memories@)),
        decreases equations.len() - i,
    {
        let equation = &equations[i];
        assert(eqs[i as int] == equation@);
        proof {
            lemma_offset_grows(eqs, i + 1, equations@.len() as int);
        }
        if let Err(x) = add_equation_memories(vars, relations, equation, offset, &mut memories) {
            proof {
                lemma_memories_error_stays(
                    vars@,
                    expr_views(relations@),
                    eqs,
                    i + 1,
                    equations@.len() as int,
                );
            }
            return Err(x);
        }
        offset = offset + if equation.scalar_count == 0 {
            1
        } else {
            equation.scalar_count
        };
        i = i + 1;
    }
    Ok(memories)
}

} // verus!
