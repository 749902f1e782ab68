//! Connections that a class makes.
//!
//! A class may make connections under conditions and in loops. Which ones an instance
//! makes is known once its components are there.
use crate::dae::const_eval::ConstValue;
use crate::expr::tree::{expr_views, ExprView, Expression};
use crate::instantiate::error::{InstantiateError, InstantiateErrorView};
use crate::instantiate::structural::{
    evaluate_integers, evaluate_structural, known_integers, local_views, structural_value,
    EvalPlace, EvalScope,
};
use crate::ir::instance::{list_views, InstanceConnection, InstanceConnectionView};
use crate::ir::name::{path_text, path_view, DefId, NamePart, PartView, QualifiedName};
use crate::span::Span;
use vstd::prelude::*;

verus! {

/// One end of a connection: names from the class, with subscripts.
#[derive(Debug)]
pub struct ConnectionEnd {
    pub parts: Vec<(String, Vec<Expression>)>,
}

impl View for ConnectionEnd {
    type V = Seq<(Seq<char>, Seq<ExprView>)>;

    open spec fn view(&self) -> Seq<(Seq<char>, Seq<ExprView>)> {
        self.parts@.map_values(|p: (String, Vec<Expression>)| (p.0@, expr_views(p.1@)))
    }
}

/// What a clause does with the clauses inside it.
#[derive(Debug)]
pub enum ConnectionKind {
    /// Makes them all.
    Block,
    /// Makes the one in the place of the first condition that holds, or the one behind
    /// the conditions where none does.
    If { conditions: Vec<Expression>, span: Span },
    /// Makes them all for each value of an index, from the first to the last.
    For { index: String, first: Expression, last: Expression, span: Span },
    /// Makes one connection. There are no clauses inside it.
    Connect { a: ConnectionEnd, b: ConnectionEnd, connector_type: Option<DefId>, span: Span },
}

pub enum ConnectionKindView {
    Block,
    If { conditions: Seq<ExprView>, span: Span },
    For { index: Seq<char>, first: ExprView, last: ExprView, span: Span },
    Connect {
        a: Seq<(Seq<char>, Seq<ExprView>)>,
        b: Seq<(Seq<char>, Seq<ExprView>)>,
        connector_type: Option<DefId>,
        span: Span,
    },
}

impl View for ConnectionKind {
    type V = ConnectionKindView;

    open spec fn view(&self) -> ConnectionKindView {
        match *self {
            ConnectionKind::Block => ConnectionKindView::Block,
            ConnectionKind::If { conditions, span } => ConnectionKindView::If {
                conditions: expr_views(conditions@),
                span,
            },
            ConnectionKind::For { index, first, last, span } => ConnectionKindView::For {
                index: index@,
                first: first@,
                last: last@,
                span,
            },
            ConnectionKind::Connect { a, b, connector_type, span } => ConnectionKindView::Connect {
                a: a@,
                b: b@,
                connector_type,
                span,
            },
        }
    }
}

/// A clause that makes connections.
#[derive(Debug)]
pub struct ConnectionClause {
    pub kind: ConnectionKind,
    pub items: Vec<ConnectionClause>,
}

/// The mathematical content of a [`ConnectionClause`].
pub struct ClauseView {
    pub kind: ConnectionKindView,
    pub items: Seq<ClauseView>,
}

/// The content of a clause, item by item.
pub open spec fn clause_view(c: ConnectionClause) -> ClauseView
    decreases c,
{
    ClauseView {
        kind: c.kind@,
        items: Seq::new(
            c.items@.len(),
            |i: int|
                if 0 <= i < c.items@.len() {
                    clause_view(c.items@[i])
                } else {
                    arbitrary()
                },
        ),
    }
}

impl View for ConnectionClause {
    type V = ClauseView;

    open spec fn view(&self) -> ClauseView {
        clause_view(*self)
    }
}

impl ConnectionClause {
    /// No connections.
    pub fn none() -> (c: ConnectionClause)
        ensures
            c@.kind is Block,
            c@.items == Seq::<ClauseView>::empty(),
    {
        let c = ConnectionClause { kind: ConnectionKind::Block, items: Vec::new() };
        proof {
            lemma_clause_items(c);
        }
        assert(c@.items =~= Seq::<ClauseView>::empty());
        c
    }
}

proof fn lemma_clause_items(c: ConnectionClause)
    ensures
        c@.kind == c.kind@,
        c@.items.len() == c.items@.len(),
        forall|i: int| 0 <= i < c.items@.len() ==> #[trigger] c@.items[i] == c.items@[i]@,
{
    reveal_with_fuel(clause_view, 2);
}

/// The path of the first `n` parts of an end, where all subscripts are known.
pub open spec fn end_path(end: Seq<(Seq<char>, Seq<ExprView>)>, at: EvalPlace, n: int) -> Option<
    Seq<PartView>,
>
    decreases n,
{
    if n <= 0 {
        Some(Seq::empty())
    } else {
        match (
            end_path(end, at, n - 1),
            known_integers(end[n - 1].1, at, end[n - 1].1.len() as int),
        ) {
            (Some(front), Some(subs)) => Some(front.push((end[n - 1].0, subs))),
            _ => None,
        }
    }
}

/// The error of a connection that depends on something that is not known.
pub open spec fn unknown_connection(at: EvalPlace, span: Span) -> InstantiateErrorView {
    InstantiateErrorView::UnknownConnection { path: path_text(at.path), span }
}

/// The place of an expression inside a loop.
pub open spec fn with_index(at: EvalPlace, index: Seq<char>, value: i64) -> EvalPlace {
    EvalPlace { locals: at.locals.push((index, value)), ..at }
}

/// The connections that two lists make one after the other.
pub open spec fn joined(
    a: Result<Seq<InstanceConnectionView>, InstantiateErrorView>,
    b: Result<Seq<InstanceConnectionView>, InstantiateErrorView>,
) -> Result<Seq<InstanceConnectionView>, InstantiateErrorView> {
    match a {
        Err(e) => Err(e),
        Ok(x) => match b {
            Err(e) => Err(e),
            Ok(y) => Ok(x + y),
        },
    }
}

/// Which of the conditions from one on holds first, or how many there are where none
/// does; nothing where one before that is not known.
pub open spec fn chosen_branch(conditions: Seq<ExprView>, at: EvalPlace, k: int) -> Option<int>
    decreases conditions.len() - k,
{
    if k < 0 || k >= conditions.len() {
        Some(conditions.len() as int)
    } else {
        match structural_value(conditions[k], at) {
            Some(ConstValue::Boolean(true)) => Some(k),
            Some(ConstValue::Boolean(false)) => chosen_branch(conditions, at, k + 1),
            _ => None,
        }
    }
}

/// The connections that a clause makes at a place.
pub open spec fn connections_of(c: ClauseView, at: EvalPlace) -> Result<
    Seq<InstanceConnectionView>,
    InstantiateErrorView,
>
    decreases c, 2int, 0int,
{
    match c.kind {
        ConnectionKindView::Block => items_made(c, at, c.items.len() as int),
        ConnectionKindView::If { conditions, span } => match chosen_branch(conditions, at, 0) {
            None => Err(unknown_connection(at, span)),
            Some(k) => if 0 <= k < c.items.len() {
                connections_of(c.items[k], at)
            } else {
                Ok(Seq::empty())
            },
        },
        ConnectionKindView::For { index, first, last, span } => match (
            structural_value(first, at),
            structural_value(last, at),
        ) {
            (Some(ConstValue::Integer(from)), Some(ConstValue::Integer(to))) => rounds_made(
                c,
                at,
                index,
                from,
                if from <= to {
                    to - from + 1
                } else {
                    0
                },
            ),
            _ => Err(unknown_connection(at, span)),
        },
        ConnectionKindView::Connect { a, b, connector_type, span } => match (
            end_path(a, at, a.len() as int),
            end_path(b, at, b.len() as int),
        ) {
            (Some(x), Some(y)) => Ok(
                seq![
                    InstanceConnectionView {
                        a: at.path + x,
                        b: at.path + y,
                        connector_type,
                        span,
                        scope: path_text(at.path),
                    },
                ],
            ),
            _ => Err(unknown_connection(at, span)),
        },
    }
}

/// The connections that the first `n` clauses inside one make.
pub open spec fn items_made(c: ClauseView, at: EvalPlace, n: int) -> Result<
    Seq<InstanceConnectionView>,
    InstantiateErrorView,
>
    decreases c, 0int, n,
{
    if n <= 0 || n > c.items.len() {
        Ok(Seq::empty())
    } else {
        joined(items_made(c, at, n - 1), connections_of(c.items[n - 1], at))
    }
}

/// The connections that the first `n` rounds of a loop make.
pub open spec fn rounds_made(
    c: ClauseView,
    at: EvalPlace,
    index: Seq<char>,
    from: i64,
    n: int,
) -> Result<Seq<InstanceConnectionView>, InstantiateErrorView>
    decreases c, 1int, n,
{
    if n <= 0 {
        Ok(Seq::empty())
    } else {
        joined(
            rounds_made(c, at, index, from, n - 1),
            items_made(c, with_index(at, index, (from + n - 1) as i64), c.items.len() as int),
        )
    }
}

/// What a step of making connections gives.
pub open spec fn made(
    r: Result<Vec<InstanceConnection>, InstantiateError>,
    expected: Result<Seq<InstanceConnectionView>, InstantiateErrorView>,
) -> bool {
    match r {
        Ok(list) => expected == Ok::<_, InstantiateErrorView>(list_views(list@)),
        Err(e) => expected == Err::<Seq<InstanceConnectionView>, _>(e@),
    }
}

proof fn lemma_unknown_end_stays(
    end: Seq<(Seq<char>, Seq<ExprView>)>,
    at: EvalPlace,
    k: int,
    n: int,
)
    requires
        0 <= k <= n,
        end_path(end, at, k) is None,
    ensures
        end_path(end, at, n) is None,
    decreases n,
{
    if k < n {
        lemma_unknown_end_stays(end, at, k, n - 1);
    }
}

fn make_end(end: &ConnectionEnd, at: &EvalScope<'_>) -> (r: Option<QualifiedName>)
    requires
        at.wf(),
    ensures
        match r {
            Some(path) => end_path(end@, at.place(), end@.len() as int) == Some(path@),
            None => end_path(end@, at.place(), end@.len() as int) is None,
        },
{
    let ghost place = at.place();
    let mut parts: Vec<NamePart> = Vec::new();
    let mut i: usize = 0;
    assert(path_view(parts@) =~= Seq::<PartView>::empty());
    while i < end.parts.len()
        invariant
            at.wf(),
            place == at.place(),
            i <= end.parts@.len(),
            end@.len() == end.parts@.len(),
            end_path(end@, place, i as int) == Some(path_view(parts@)),
        decreases end.parts.len() - i,
    {
        assert(end@[i as int] == (end.parts@[i as int].0@, expr_views(end.parts@[i as int].1@)));
        match evaluate_integers(&end.parts[i].1, at) {
            Some(subs) => {
                let ghost before = path_view(parts@);
                let ghost new = (end.parts@[i as int].0@, subs@);
                parts.push((end.parts[i].0.clone(), subs));
                assert(path_view(parts@) =~= before.push(new));
            },
            None => {
                proof {
                    lemma_unknown_end_stays(end@, place, i + 1, end@.len() as int);
                }
                return None;
            },
        }
        i = i + 1;
    }
    let r = QualifiedName { parts };
    assert(r@ == path_view(r.parts@));
    Some(r)
}

fn unknown(at: &EvalScope<'_>, span: Span) -> (e: InstantiateError)
    ensures
        e@ == unknown_connection(at.place(), span),
{
    InstantiateError::UnknownConnection { path: at.path.to_flat_string(), span }
}

fn choose_branch(conditions: &Vec<Expression>, at: &EvalScope<'_>) -> (r: Option<usize>)
    requires
        at.wf(),
    ensures
        match r {
            Some(k) => chosen_branch(expr_views(conditions@), at.place(), 0) == Some(k as int),
            None => chosen_branch(expr_views(conditions@), at.place(), 0) is None,
        },
{
    let ghost all = expr_views(conditions@);
    let mut k: usize = 0;
    while k < conditions.len()
        invariant
            at.wf(),
            all == expr_views(conditions@),
            k <= conditions@.len(),
            chosen_branch(all, at.place(), 0) == chosen_branch(all, at.place(), k as int),
        decreases conditions.len() - k,
    {
        assert(all[k as int] == conditions@[k as int]@);
        match evaluate_structural(&conditions[k], at) {
            Some(ConstValue::Boolean(true)) => {
                return Some(k);
            },
            Some(ConstValue::Boolean(false)) => {},
            _ => {
                return None;
            },
        }
        k = k + 1;
    }
    Some(k)
}

/// The connections that a clause makes at a place.
pub fn extract_connections(c: &ConnectionClause, at: &EvalScope<'_>) -> (r: Result<
    Vec<InstanceConnection>,
    InstantiateError,
>)
    requires
        at.wf(),
    ensures
        made(r, connections_of(c@, at.place())),
    decreases c, 2int, 0int,
{
    proof {
        lemma_clause_items(*c);
    }
    match &c.kind {
        ConnectionKind::Block => make_items(c, at),
        ConnectionKind::If { conditions, span } => match choose_branch(conditions, at) {
            None => Err(unknown(at, *span)),
            Some(k) => {
                if k < c.items.len() {
                    extract_connections(&c.items[k], at)
                } else {
                    let none: Vec<InstanceConnection> = Vec::new();
                    assert(list_views(none@) =~= Seq::<InstanceConnectionView>::empty());
                    Ok(none)
                }
            },
        },
        ConnectionKind::For { index, first, last, span } => match (
            evaluate_structural(first, at),
            evaluate_structural(last, at),
        ) {
            (Some(ConstValue::Integer(from)), Some(ConstValue::Integer(to))) => make_rounds(
                c,
                at,
                index,
                from,
                to,
            ),
            _ => Err(unknown(at, *span)),
        },
        ConnectionKind::Connect { a, b, connector_type, span } => {
            let x = make_end(a, at);
            let y = make_end(b, at);
            match (x, y) {
                (Some(x), Some(y)) => {
                    let new = InstanceConnection {
                        a: at.path.join(&x),
                        b: at.path.join(&y),
                        connector_type: *connector_type,
                        span: *span,
                        scope: at.path.to_flat_string(),
                    };
                    let list = vec![new];
                    assert(list_views(list@) =~= seq![new@]);
                    Ok(list)
                },
                _ => Err(unknown(at, *span)),
            }
        },
    }
}

proof fn lemma_items_fail(c: ClauseView, at: EvalPlace, k: int, n: int)
    requires
        0 <= k <= n <= c.items.len(),
        items_made(c, at, k) is Err,
    ensures
        items_made(c, at, n) == items_made(c, at, k),
    decreases n,
{
    if k < n {
        lemma_items_fail(c, at, k, n - 1);
    }
}

proof fn lemma_rounds_fail(
    c: ClauseView,
    at: EvalPlace,
    index: Seq<char>,
    from: i64,
    k: int,
    n: int,
)
    requires
        0 <= k <= n,
        rounds_made(c, at, index, from, k) is Err,
    ensures
        rounds_made(c, at, index, from, n) == rounds_made(c, at, index, from, k),
    decreases n,
{
    if k < n {
        lemma_rounds_fail(c, at, index, from, k, n - 1);
    }
}

fn append_connections(list: &mut Vec<InstanceConnection>, more: Vec<InstanceConnection>)
    ensures
        list_views(final(list)@) == list_views(old(list)@) + list_views(more@),
{
    let mut more = more;
    let ghost a = list_views(list@);
    let ghost b = list_views(more@);
    list.append(&mut more);
    assert(list_views(list@) =~= a + b);
}

fn make_items(c: &ConnectionClause, at: &EvalScope<'_>) -> (r: Result<
    Vec<InstanceConnection>,
    InstantiateError,
>)
    requires
        at.wf(),
    ensures
        made(r, items_made(c@, at.place(), c@.items.len() as int)),
    decreases c, 0int, 0int,
{
    proof {
        lemma_clause_items(*c);
    }
    let ghost place = at.place();
    let mut list: Vec<InstanceConnection> = Vec::new();
    let mut i: usize = 0;
    assert(list_views(list@) =~= Seq::<InstanceConnectionView>::empty());
    while i < c.items.len()
        invariant
            at.wf(),
            place == at.place(),
            i <= c.items@.len(),
            c@.items.len() == c.items@.len(),
            forall|k: int| 0 <= k < c.items@.len() ==> #[trigger] c@.items[k] == c.items@[k]@,
            items_made(c@, place, i as int) == Ok::<_, InstantiateErrorView>(list_views(list@)),
        decreases c.items.len() - i,
    {
        assert(c@.items[i as int] == c.items@[i as int]@);
        match extract_connections(&c.items[i], at) {
            Ok(more) => {
                append_connections(&mut list, more);
            },
            Err(e) => {
                proof {
                    lemma_items_fail(c@, place, i + 1, c@.items.len() as int);
                }
                return Err(e);
            },
        }
        i = i + 1;
    }
    Ok(list)
}

fn make_rounds(
    c: &ConnectionClause,
    at: &EvalScope<'_>,
    index: &String,
    from: i64,
    to: i64,
) -> (r: Result<Vec<InstanceConnection>, InstantiateError>)
    requires
        at.wf(),
    ensures
        made(
            r,
            rounds_made(
                c@,
                at.place(),
                index@,
                from,
                if from <= to {
                    to - from + 1
                } else {
                    0
                },
            ),
        ),
    decreases c, 1int, 0int,
{
    let ghost place = at.place();
    let ghost rounds: int = if from <= to {
        to - from + 1
    } else {
        0
    };
    let mut list: Vec<InstanceConnection> = Vec::new();
    assert(list_views(list@) =~= Seq::<InstanceConnectionView>::empty());
    if from > to {
        return Ok(list);
    }
    let mut value: i64 = from;
    loop
        invariant
            at.wf(),
            place == at.place(),
            from <= value <= to,
            rounds == to - from + 1,
            rounds_made(c@, place, index@, from, value - from) == Ok::<_, InstantiateErrorView>(
                list_views(list@),
            ),
        decreases to - value,
    {
        let locals = with_local(at.locals, index, value);
        let inside = EvalScope {
            env: at.env,
            path: at.path,
            components: at.components,
            locals: &locals,
            recorded: at.recorded,
        };
        assert(inside.place() == with_index(place, index@, value));
        match make_items(c, &inside) {
            Ok(more) => {
                append_connections(&mut list, more);
            },
            Err(e) => {
                proof {
                    lemma_rounds_fail(c@, place, index@, from, value - from + 1, rounds);
                }
                return Err(e);
            },
        }
        if value == to {
            return Ok(list);
        }
        value = value + 1;
    }
}

fn with_local(locals: &Vec<(String, i64)>, index: &String, value: i64) -> (r: Vec<(String, i64)>)
    ensures
        local_views(r@) == local_views(locals@).push((index@, value)),
{
    let ghost all = local_views(locals@);
    let mut r: Vec<(String, i64)> = Vec::new();
    let mut i: usize = 0;
    assert(local_views(r@) =~= all.take(0));
    while i < locals.len()
        invariant
            all == local_views(locals@),
            i <= locals@.len(),
            local_views(r@) == all.take(i as int),
        decreases locals.len() - i,
    {
        let ghost before = local_views(r@);
        r.push((locals[i].0.clone(), locals[i].1));
        assert(local_views(r@) =~= before.push(all[i as int]));
        i = i + 1;
        assert(local_views(r@) =~= all.take(i as int));
    }
    assert(all.take(i as int) =~= all);
    r.push((index.clone(), value));
    assert(local_views(r@) =~= all.push((index@, value)));
    r
}

/// A loop makes as many connections as it has rounds, where there is one connection
/// inside it whose subscripts are known in every round.
pub proof fn law_loop_makes_a_connection_each_round(
    c: ClauseView,
    at: EvalPlace,
    index: Seq<char>,
    from: i64,
    n: int,
)
    requires
        n >= 0,
        c.items.len() == 1,
        c.items[0].kind is Connect,
        rounds_made(c, at, index, from, n) is Ok,
    ensures
        rounds_made(c, at, index, from, n)->Ok_0.len() == n,
    decreases n,
{
    if n > 0 {
        law_loop_makes_a_connection_each_round(c, at, index, from, n - 1);
        let inside = with_index(at, index, (from + n - 1) as i64);
        assert(items_made(c, inside, 0) == Ok::<_, InstantiateErrorView>(
            Seq::<InstanceConnectionView>::empty(),
        ));
        assert(items_made(c, inside, 1) == joined(
            items_made(c, inside, 0),
            connections_of(c.items[0], inside),
        ));
    }
}

} // verus!
