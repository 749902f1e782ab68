//! Which connections clauses make.
use crate::dae::const_eval::ConstValue;
use crate::expr::tree::ExprView;
use crate::instantiate::connections::{
    chosen_branch, connections_of, end_path, items_made, rounds_made, ClauseView,
    ConnectionKindView,
};
use crate::instantiate::structural::{known_integers, structural_value, EvalPlace};
use crate::ir::instance::InstanceConnectionView;
use crate::ir::name::{path_text, PartView};
use vstd::prelude::*;

verus! {

/// Lists one after the other.
pub open spec fn one_after_another(
    lists: Seq<Seq<InstanceConnectionView>>,
) -> Seq<InstanceConnectionView>
    decreases lists.len(),
{
    if lists.len() == 0 {
        Seq::empty()
    } else {
        one_after_another(lists.drop_last()) + lists.last()
    }
}

/// The connections that a clause makes, where it makes them.
pub open spec fn made_by(c: ClauseView, at: EvalPlace) -> Seq<InstanceConnectionView> {
    connections_of(c, at)->Ok_0
}

/// The connections that all clauses inside one make, one clause after the other.
pub open spec fn made_inside(c: ClauseView, at: EvalPlace) -> Seq<InstanceConnectionView> {
    one_after_another(Seq::new(c.items.len(), |i: int| made_by(c.items[i], at)))
}

/// A place inside a loop whose index has a value.
pub open spec fn inside_loop(at: EvalPlace, index: Seq<char>, value: int) -> EvalPlace {
    EvalPlace {
        mods: at.mods,
        path: at.path,
        components: at.components,
        locals: at.locals.push((index, value as i64)),
        recorded: at.recorded,
    }
}

/// The connections that all clauses inside a loop make, once for each value of its index
/// from the first to the last; none where the last comes before the first.
pub open spec fn made_in_rounds(
    c: ClauseView,
    at: EvalPlace,
    index: Seq<char>,
    from: i64,
    to: i64,
) -> Seq<InstanceConnectionView> {
    one_after_another(
        Seq::new(
            (if from <= to {
                to - from + 1
            } else {
                0
            }) as nat,
            |k: int| made_inside(c, inside_loop(at, index, from + k)),
        ),
    )
}

/// Whether an expression is known to be a truth value.
pub open spec fn is_known(e: ExprView, at: EvalPlace, truth: bool) -> bool {
    structural_value(e, at) == Some(ConstValue::Boolean(truth))
}

/// Whether one condition is the first that holds.
pub open spec fn is_first_true(conditions: Seq<ExprView>, at: EvalPlace, k: int) -> bool {
    &&& 0 <= k < conditions.len()
    &&& is_known(conditions[k], at, true)
    &&& forall|j: int| 0 <= j < k ==> is_known(#[trigger] conditions[j], at, false)
}

/// Whether subscripts are known to be integers.
pub open spec fn are_known(subs: Seq<ExprView>, at: EvalPlace, values: Seq<i64>) -> bool {
    &&& values.len() == subs.len()
    &&& forall|i: int|
        0 <= i < subs.len() ==> structural_value(#[trigger] subs[i], at) == Some(
            ConstValue::Integer(values[i]),
        )
}

/// Whether a path is that of an end, with its subscripts as they are at a place.
pub open spec fn is_end(
    end: Seq<(Seq<char>, Seq<ExprView>)>,
    at: EvalPlace,
    path: Seq<PartView>,
) -> bool {
    &&& path.len() == end.len()
    &&& forall|i: int|
        0 <= i < end.len() ==> (#[trigger] path[i]).0 == end[i].0 && are_known(
            end[i].1,
            at,
            path[i].1,
        )
}

/// Whether a connection is the one that a clause says: of its two ends, in their order,
/// inside the instance at the place.
pub open spec fn is_connection(
    a: Seq<(Seq<char>, Seq<ExprView>)>,
    b: Seq<(Seq<char>, Seq<ExprView>)>,
    at: EvalPlace,
    made: InstanceConnectionView,
) -> bool {
    &&& made.a.len() == at.path.len() + a.len()
    &&& made.a.take(at.path.len() as int) == at.path
    &&& is_end(a, at, made.a.skip(at.path.len() as int))
    &&& made.b.len() == at.path.len() + b.len()
    &&& made.b.take(at.path.len() as int) == at.path
    &&& is_end(b, at, made.b.skip(at.path.len() as int))
    &&& made.scope == path_text(at.path)
}

proof fn lemma_items(c: ClauseView, at: EvalPlace, n: int)
    requires
        0 <= n <= c.items.len(),
        items_made(c, at, n) is Ok,
    ensures
        items_made(c, at, n)->Ok_0 == one_after_another(
            Seq::new(n as nat, |i: int| made_by(c.items[i], at)),
        ),
        forall|i: int| 0 <= i < n ==> connections_of(#[trigger] c.items[i], at) is Ok,
    decreases n,
{
    let lists = Seq::new(n as nat, |i: int| made_by(c.items[i], at));
    if n > 0 {
        lemma_items(c, at, n - 1);
        assert(lists.drop_last() =~= Seq::new((n - 1) as nat, |i: int| made_by(c.items[i], at)));
        assert(connections_of(c.items[n - 1], at) is Ok);
    }
}

proof fn lemma_rounds(c: ClauseView, at: EvalPlace, index: Seq<char>, from: i64, n: int)
    requires
        0 <= n,
        rounds_made(c, at, index, from, n) is Ok,
    ensures
        rounds_made(c, at, index, from, n)->Ok_0 == one_after_another(
            Seq::new(n as nat, |k: int| made_inside(c, inside_loop(at, index, from + k))),
        ),
    decreases n,
{
    let lists = Seq::new(n as nat, |k: int| made_inside(c, inside_loop(at, index, from + k)));
    if n > 0 {
        lemma_rounds(c, at, index, from, n - 1);
        lemma_items(c, inside_loop(at, index, from + n - 1), c.items.len() as int);
        assert(lists.drop_last() =~= Seq::new(
            (n - 1) as nat,
            |k: int| made_inside(c, inside_loop(at, index, from + k)),
        ));
    }
}

proof fn lemma_branch(conditions: Seq<ExprView>, at: EvalPlace, k: int)
    requires
        0 <= k <= conditions.len(),
        forall|j: int| 0 <= j < k ==> is_known(#[trigger] conditions[j], at, false),
    ensures
        chosen_branch(conditions, at, k) matches Some(found) ==> if found < conditions.len() {
            is_first_true(conditions, at, found)
        } else {
            found == conditions.len() && forall|j: int|
                0 <= j < conditions.len() ==> is_known(#[trigger] conditions[j], at, false)
        },
    decreases conditions.len() - k,
{
    if k < conditions.len() && is_known(conditions[k], at, false) {
        lemma_branch(conditions, at, k + 1);
    }
}

proof fn lemma_integers(subs: Seq<ExprView>, at: EvalPlace, n: int)
    requires
        0 <= n <= subs.len(),
    ensures
        known_integers(subs, at, n) matches Some(values) ==> {
            &&& values.len() == n
            &&& forall|i: int|
                0 <= i < n ==> structural_value(#[trigger] subs[i], at) == Some(
                    ConstValue::Integer(values[i]),
                )
        },
    decreases n,
{
    if n > 0 {
        lemma_integers(subs, at, n - 1);
    }
}

proof fn lemma_end(end: Seq<(Seq<char>, Seq<ExprView>)>, at: EvalPlace, n: int)
    requires
        0 <= n <= end.len(),
    ensures
        end_path(end, at, n) matches Some(path) ==> is_end(end.take(n), at, path),
    decreases n,
{
    if n > 0 {
        lemma_end(end, at, n - 1);
        lemma_integers(end[n - 1].1, at, end[n - 1].1.len() as int);
        if let Some(path) = end_path(end, at, n) {
            let front = end_path(end, at, n - 1)->0;
            assert forall|i: int| 0 <= i < n implies (#[trigger] path[i]).0 == end.take(n)[i].0
                && are_known(end.take(n)[i].1, at, path[i].1) by {
                if i < n - 1 {
                    assert(path[i] == front[i]);
                    assert(end.take(n - 1)[i] == end.take(n)[i]);
                }
            }
        }
    }
}

/// The connections that a clause makes, where all that it depends on is known: a block
/// makes those of the clauses inside it, in their order; a choice those of the clause in
/// the place of the first condition that holds, or of the one behind the conditions; a
/// loop those of the clauses inside it once for each value of its index, from the first
/// to the last; and a connection makes itself.
pub proof fn law_clauses_make_their_connections(c: ClauseView, at: EvalPlace)
    requires
        connections_of(c, at) is Ok,
    ensures
        match c.kind {
            ConnectionKindView::Block => made_by(c, at) == made_inside(c, at),
            ConnectionKindView::If { conditions, .. } => {
                &&& forall|k: int| #[trigger]
                    is_first_true(conditions, at, k) && k < c.items.len() ==> made_by(c, at)
                        == made_by(c.items[k], at)
                &&& (forall|k: int| !#[trigger] is_first_true(conditions, at, k)) ==> (forall|
                    j: int,
                |
                    0 <= j < conditions.len() ==> is_known(#[trigger] conditions[j], at, false))
                    && made_by(c, at) == if conditions.len() < c.items.len() {
                    made_by(c.items[conditions.len() as int], at)
                } else {
                    Seq::empty()
                }
            },
            ConnectionKindView::For { index, first, last, .. } => exists|from: i64, to: i64|
                structural_value(first, at) == Some(ConstValue::Integer(from))
                    && structural_value(last, at) == Some(ConstValue::Integer(to)) && made_by(c, at)
                    == #[trigger] made_in_rounds(c, at, index, from, to),
            ConnectionKindView::Connect { a, b, connector_type, span } => made_by(c, at).len() == 1
                && is_connection(a, b, at, made_by(c, at)[0]) && made_by(
                c,
                at,
            )[0].connector_type == connector_type && made_by(c, at)[0].span == span,
        },
{
    match c.kind {
        ConnectionKindView::Block => {
            lemma_items(c, at, c.items.len() as int);
        },
        ConnectionKindView::If { conditions, .. } => {
            lemma_branch(conditions, at, 0);
            let found = chosen_branch(conditions, at, 0)->0;
            assert forall|k: int| #[trigger]
                is_first_true(conditions, at, k) && k < c.items.len() implies made_by(c, at)
                == made_by(c.items[k], at) by {
                if k < found {
                    assert(is_known(conditions[k], at, false));
                } else if found < k {
                    assert(is_first_true(conditions, at, found));
                    assert(is_known(conditions[found], at, false));
                }
            }
            if forall|k: int| !#[trigger] is_first_true(conditions, at, k) {
                assert(!is_first_true(conditions, at, found));
            }
        },
        ConnectionKindView::For { index, first, last, .. } => {
            let from = structural_value(first, at)->0->Integer_0;
            let to = structural_value(last, at)->0->Integer_0;
            let n = if from <= to {
                to - from + 1
            } else {
                0
            };
            lemma_rounds(c, at, index, from, n);
            assert(made_by(c, at) == made_in_rounds(c, at, index, from, to));
        },
        ConnectionKindView::Connect { a, b, .. } => {
            lemma_end(a, at, a.len() as int);
            lemma_end(b, at, b.len() as int);
            assert(a.take(a.len() as int) =~= a);
            assert(b.take(b.len() as int) =~= b);
            let x = end_path(a, at, a.len() as int)->0;
            let y = end_path(b, at, b.len() as int)->0;
            let n = at.path.len() as int;
            assert((at.path + x).take(n) =~= at.path);
            assert((at.path + x).skip(n) =~= x);
            assert((at.path + y).take(n) =~= at.path);
            assert((at.path + y).skip(n) =~= y);
        },
    }
}

} // verus!
