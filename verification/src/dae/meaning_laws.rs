//! Lowering left limits keeps what expressions mean.
use crate::dae::const_eval::static_choice;
use crate::dae::error::ToDaeErrorView;
use crate::dae::meaning::{
    calls_by_name, calls_function, choice, denoted, is_true, law_static_choice_keeps_meaning,
    lemma_operands, lemma_sub_values, meaning, operand_level, operands, sub_values, tick_call,
    values, Value, World,
};
use crate::dae::pre_rewrite::{
    known_target, memory_of, memory_pre, operand_value, pre_free, pre_name, pre_of, pre_ref,
    pre_rewrite, pre_rewrite_args, reached, rebuilt, remembered, rising, value_rewrite,
    value_rewrite_args, walked,
};
use crate::dae::pre_targets::{
    all_fixed, fixed_subscript, fixed_text, index_subscripts, is_pre_name, target_parts,
    temporal_of, Targets, Temporal,
};
use crate::dae::relation_memory::Memory;
use crate::dae::scalar_name::encoded_parts;
use crate::expr::tree::{BuiltinFunction, ExprView, LiteralView, NodeView};
use crate::ir::name_map::value_of_name;
use crate::span::Span;
use crate::text::int_text;
use vstd::prelude::*;

verus! {

/// Whether what stands for the left limit of a name in a world is its left limit.
pub open spec fn knows_name(w: World, targets: Targets, name: Seq<char>) -> bool {
    match value_of_name(targets, name) {
        Some(target) => w.can_move(name) && forall|subs: Seq<Value>| #[trigger]
            w.limit(target.source_name, subs) == w.limit(name, subs),
        None => !w.can_move(name),
    }
}

/// Whether a world is one in which exactly the targets move, each with the left limit
/// that the parameter for it holds.
pub open spec fn knows(w: World, targets: Targets) -> bool {
    forall|name: Seq<char>| #[trigger] knows_name(w, targets, name)
}

/// Whether what remembers a relation is as the relation is, and its left limit as that of
/// the relation.
pub open spec fn remembers_one(w: World, memory: Memory, k: nat) -> bool {
    &&& meaning(memory.1, w, k) == meaning(memory.0, w, k)
    &&& denoted(memory.1) matches Some((name, _)) ==> w.limit(name, sub_values(memory.1, w, k))
        == meaning(memory.0, w, k + 1)
}

/// Whether a world is one in which relations are remembered rightly.
pub open spec fn remembers(w: World, memories: Seq<Memory>) -> bool {
    forall|i: int, k: nat|
        0 <= i < memories.len() ==> #[trigger] remembers_one(w, memories[i], k)
}

/// Whether a node is a call that looks across an event.
pub open spec fn looks_back(node: NodeView) -> bool {
    ||| calls_function(node, BuiltinFunction::Pre, "pre"@)
    ||| calls_function(node, BuiltinFunction::Edge, "edge"@)
    ||| calls_function(node, BuiltinFunction::Change, "change"@)
    ||| calls_function(node, BuiltinFunction::Sample, "sample"@)
    ||| calls_by_name(node, "previous"@)
}

/// Whether a subscript is computed, and from something other than a conditional or a call
/// that looks across an event.
pub open spec fn stays_open(sub: ExprView) -> bool {
    &&& !(sub.node is SubscriptIndex)
    &&& !(sub.node is If)
    &&& !looks_back(sub.node)
    &&& sub.node is SubscriptExpr && sub.args.len() > 0 ==> {
        let inner = sub.args[0].node;
        &&& !(inner matches NodeView::Literal(LiteralView::Integer(_)))
        &&& !(inner is If)
        &&& !looks_back(inner)
    }
}

/// Whether the left limit of an expression can be taken after it is lowered as well as
/// before: no built-in clock ticks in it, what has subscripts or fields is no conditional
/// and no call that looks across an event, and a field is not picked by subscripts that
/// lowering may fix.
pub open spec fn is_regular(e: ExprView) -> bool
    decreases e,
{
    &&& !(e.node == NodeView::BuiltinCall(BuiltinFunction::Sample) && e.args.len() != 1)
    &&& (e.node is Index || e.node is FieldAccess) && e.args.len() > 0 ==> !(e.args[0].node is If)
        && !looks_back(e.args[0].node)
    &&& e.node is FieldAccess && e.args.len() > 0 ==> (denoted(e.args[0]) matches Some((_, subs))
        ==> all_fixed(subs) || exists|i: int|
        0 <= i < subs.len() && stays_open(#[trigger] subs[i]))
    &&& forall|i: int| 0 <= i < e.args.len() ==> is_regular(#[trigger] e.args[i])
}

/// Whether lowering keeps what an expression means: left limits are taken of regular
/// expressions, wherever they are taken after lowering.
pub open spec fn is_lowerable(e: ExprView) -> bool
    decreases e,
{
    if calls_function(e.node, BuiltinFunction::Pre, "pre"@) || calls_function(
        e.node,
        BuiltinFunction::Edge,
        "edge"@,
    ) {
        e.args.len() > 0 ==> is_regular(e.args[0])
    } else if calls_function(e.node, BuiltinFunction::Change, "change"@) {
        e.args.len() > 0 ==> if pre_free(e.args[0]) {
            is_lowerable(e.args[0])
        } else {
            is_regular(e.args[0])
        }
    } else if (calls_function(e.node, BuiltinFunction::Sample, "sample"@) && e.args.len() == 1)
        || (calls_by_name(e.node, "previous"@) && e.args.len() > 0) {
        pre_free(e.args[0]) || is_regular(e.args[0])
    } else {
        forall|i: int| 0 <= i < e.args.len() ==> is_lowerable(#[trigger] e.args[i])
    }
}

/// The calls that look across an event, by what they are.
pub proof fn lemma_temporal(node: NodeView)
    ensures
        temporal_of(node) is Some <==> looks_back(node),
        temporal_of(node) == Some(Temporal::Pre) <==> calls_function(
            node,
            BuiltinFunction::Pre,
            "pre"@,
        ),
        temporal_of(node) == Some(Temporal::Edge) ==> calls_function(
            node,
            BuiltinFunction::Edge,
            "edge"@,
        ) && !calls_function(node, BuiltinFunction::Pre, "pre"@),
        temporal_of(node) == Some(Temporal::Change) ==> calls_function(
            node,
            BuiltinFunction::Change,
            "change"@,
        ) && !calls_function(node, BuiltinFunction::Edge, "edge"@) && !calls_function(
            node,
            BuiltinFunction::Pre,
            "pre"@,
        ),
        temporal_of(node) == Some(Temporal::Sample) ==> calls_function(
            node,
            BuiltinFunction::Sample,
            "sample"@,
        ) && !calls_function(node, BuiltinFunction::Change, "change"@) && !calls_function(
            node,
            BuiltinFunction::Edge,
            "edge"@,
        ) && !calls_function(node, BuiltinFunction::Pre, "pre"@),
        temporal_of(node) == Some(Temporal::Previous) ==> calls_by_name(node, "previous"@)
            && !calls_function(node, BuiltinFunction::Sample, "sample"@) && !calls_function(
            node,
            BuiltinFunction::Change,
            "change"@,
        ) && !calls_function(node, BuiltinFunction::Edge, "edge"@) && !calls_function(
            node,
            BuiltinFunction::Pre,
            "pre"@,
        ),
{
}

/// What a target is made of is what it denotes.
pub proof fn lemma_denoted(e: ExprView)
    ensures
        target_parts(e) matches Ok(parts) ==> denoted(e) == parts,
    decreases e,
{
    if e.args.len() > 0 && (e.node is Index || e.node is FieldAccess) {
        lemma_denoted(e.args[0]);
    }
}

proof fn lemma_pre_ref(name: Seq<char>, subs: Seq<ExprView>, span: Span, w: World, k: nat)
    ensures
        meaning(pre_ref(name, subs, span), w, k) == w.limit(name, values(subs, w, k)),
        denoted(pre_ref(name, subs, span)) is None,
{
    let e = pre_ref(name, subs, span);
    let full = pre_name(name);
    assert(full.take("__pre__."@.len() as int) =~= "__pre__."@);
    assert(full.skip("__pre__."@.len() as int) =~= name);
    lemma_operands(e, w, k, e.args.len() as int);
    assert(operands(e, w, k, e.args.len() as int) =~= values(subs, w, k));
}

/// What moves has the left limit of its name one level up.
proof fn lemma_moving(e: ExprView, w: World, k: nat)
    requires
        denoted(e) is Some,
        w.can_move((denoted(e)->0).0),
    ensures
        meaning(e, w, k + 1) == w.limit((denoted(e)->0).0, values((denoted(e)->0).1, w, k)),
{
    lemma_sub_values(e, w, k);
}

proof fn lemma_value_args(e: ExprView, n: int, targets: Targets)
    requires
        0 <= n <= e.args.len(),
        value_rewrite_args(e, n, targets) is Ok,
    ensures
        value_rewrite_args(e, n, targets)->Ok_0.len() == n,
        forall|i: int|
            0 <= i < n ==> value_rewrite(#[trigger] e.args[i], targets) == Ok::<_, ToDaeErrorView>(
                value_rewrite_args(e, n, targets)->Ok_0[i],
            ),
    decreases n,
{
    if n > 0 {
        lemma_value_args(e, n - 1, targets);
    }
}

proof fn lemma_pre_args(e: ExprView, n: int, targets: Targets, memories: Seq<Memory>)
    requires
        0 <= n <= e.args.len(),
        pre_rewrite_args(e, n, targets, memories) is Ok,
    ensures
        pre_rewrite_args(e, n, targets, memories)->Ok_0.len() == n,
        forall|i: int|
            0 <= i < n ==> pre_rewrite(#[trigger] e.args[i], targets, memories) == Ok::<_, ToDaeErrorView>(
                pre_rewrite_args(e, n, targets, memories)->Ok_0[i],
            ),
    decreases n,
{
    if n > 0 {
        lemma_pre_args(e, n - 1, targets, memories);
    }
}

/// Whether the operands of two nodes have the same values, each node at its level.
spec fn operands_agree(a: ExprView, ka: nat, b: ExprView, kb: nat, w: World) -> bool {
    &&& a.node == b.node
    &&& a.args.len() == b.args.len()
    &&& forall|i: int|
        0 <= i < a.args.len() ==> meaning(#[trigger] a.args[i], w, operand_level(a, i, ka))
            == meaning(b.args[i], w, operand_level(b, i, kb))
}

proof fn lemma_operands_agree(a: ExprView, ka: nat, b: ExprView, kb: nat, w: World)
    requires
        operands_agree(a, ka, b, kb, w),
    ensures
        operands(a, w, ka, a.args.len() as int) == operands(b, w, kb, b.args.len() as int),
{
    let n = a.args.len() as int;
    lemma_operands(a, w, ka, n);
    lemma_operands(b, w, kb, n);
    assert forall|i: int| 0 <= i < n implies operands(a, w, ka, n)[i] == operands(b, w, kb, n)[i] by {
        assert(meaning(a.args[i], w, operand_level(a, i, ka)) == meaning(
            b.args[i],
            w,
            operand_level(b, i, kb),
        ));
    }
    assert(operands(a, w, ka, n) =~= operands(b, w, kb, n));
}

proof fn lemma_choices_agree(a: ExprView, ka: nat, b: ExprView, kb: nat, w: World, c: int)
    requires
        operands_agree(a, ka, b, kb, w),
        a.node is If,
        0 <= c,
    ensures
        choice(a, w, ka, c) == choice(b, w, kb, c),
    decreases a.args.len() - c,
{
    let n = a.args.len() as int;
    if n > 0 {
        assert(meaning(a.args[n - 1], w, ka) == meaning(b.args[n - 1], w, kb));
        if c + 1 < n {
            assert(meaning(a.args[c], w, ka) == meaning(b.args[c], w, kb));
            assert(meaning(a.args[c + 1], w, ka) == meaning(b.args[c + 1], w, kb));
            lemma_choices_agree(a, ka, b, kb, w, c + 2);
        }
    }
}

/// Nodes whose operands agree have the same value, unless they are references to what may
/// move, or clock ticks of which one is over.
proof fn lemma_nodes_agree(a: ExprView, ka: nat, b: ExprView, kb: nat, w: World)
    requires
        operands_agree(a, ka, b, kb, w),
        looks_back(a.node) && a.args.len() > 0 ==> meaning(a.args[0], w, ka + 1) == meaning(
            b.args[0],
            w,
            kb + 1,
        ),
        a.node == NodeView::BuiltinCall(BuiltinFunction::Sample) && a.args.len() != 1 ==> (ka > 0)
            == (kb > 0),
        a.node matches NodeView::VarRef { name } ==> is_pre_name(name),
        !(a.node is Index),
        !(a.node is FieldAccess),
    ensures
        meaning(a, w, ka) == meaning(b, w, kb),
{
    lemma_operands_agree(a, ka, b, kb, w);
    if a.args.len() > 0 {
        assert(meaning(a.args[0], w, operand_level(a, 0, ka)) == meaning(
            b.args[0],
            w,
            operand_level(b, 0, kb),
        ));
        if a.args.len() > 1 {
            assert(meaning(a.args[1], w, operand_level(a, 1, ka)) == meaning(
                b.args[1],
                w,
                operand_level(b, 1, kb),
            ));
        }
    }
    if a.node is If {
        lemma_choices_agree(a, ka, b, kb, w, 0);
    }
}

/// A left limit keeps which subscripts are fixed, and to what.
proof fn lemma_limit_keeps_fixed(s: ExprView, targets: Targets)
    requires
        value_rewrite(s, targets) is Ok,
    ensures
        fixed_subscript(value_rewrite(s, targets)->Ok_0) == fixed_subscript(s),
{
    lemma_denoted(s);
    if !(s.node is VarRef) && !(s.node is Index) && !(s.node is FieldAccess) {
        assert(target_parts(s) == Ok::<
            _,
            ToDaeErrorView,
        >(None::<(Seq<char>, Seq<ExprView>)>));
        if value_rewrite_args(s, walked(s) as int, targets) is Ok {
            lemma_value_args(s, walked(s) as int, targets);
            if s.node is SubscriptExpr && s.args.len() > 0 {
                let arg = s.args[0];
                assert(value_rewrite(arg, targets) is Ok);
                let r = value_rewrite(arg, targets)->Ok_0;
                assert(value_rewrite(s, targets)->Ok_0.args[0] == r);
                if !(arg.node is VarRef) && !(arg.node is Index) && !(arg.node is FieldAccess) {
                    assert(target_parts(arg) == Ok::<
                        _,
                        ToDaeErrorView,
                    >(None::<(Seq<char>, Seq<ExprView>)>));
                }
            }
        }
    }
}

/// What the left limit of a reference still denotes, where it denotes something, is what
/// the reference denotes, and does not move.
proof fn lemma_limit_denotes(e: ExprView, targets: Targets)
    requires
        value_rewrite(e, targets) is Ok,
    ensures
        denoted(value_rewrite(e, targets)->Ok_0) matches Some((name, subs)) ==> {
            &&& denoted(e) is Some
            &&& (denoted(e)->0).0 == name
            &&& value_of_name(targets, name) is None
            &&& (denoted(e)->0).1.len() == subs.len()
            &&& forall|i: int|
                0 <= i < subs.len() ==> fixed_subscript(#[trigger] subs[i]) == fixed_subscript(
                    (denoted(e)->0).1[i],
                )
        },
    decreases e,
{
    let r = value_rewrite(e, targets)->Ok_0;
    lemma_denoted(e);
    let parts = target_parts(e)->Ok_0;
    if known_target(parts, targets) is Some {
        let (name, subs, _) = known_target(parts, targets)->0;
        lemma_pre_ref(name, subs, r.span, arbitrary(), 0);
    } else if e.node is VarRef || e.node is Index || e.node is FieldAccess {
        let n = e.args.len() as int;
        lemma_value_args(e, n, targets);
        let front = value_rewrite_args(e, n, targets)->Ok_0;
        assert(r.args =~= front);
        if denoted(r) is Some {
            let subs = (denoted(r)->0).1;
            match e.node {
                NodeView::VarRef { name } => {
                    let fixed = index_subscripts(encoded_parts(name).1, e.span);
                    assert forall|i: int| 0 <= i < subs.len() implies fixed_subscript(
                        #[trigger] subs[i],
                    ) == fixed_subscript((denoted(e)->0).1[i]) by {
                        if i < fixed.len() {
                            assert(subs[i] == fixed[i]);
                        } else {
                            let j = i - fixed.len();
                            assert(subs[i] == front[j]);
                            assert((denoted(e)->0).1[i] == e.args[j]);
                            lemma_limit_keeps_fixed(e.args[j], targets);
                        }
                    }
                },
                NodeView::Index => {
                    assert(value_rewrite(e.args[0], targets) == Ok::<_, ToDaeErrorView>(front[0]));
                    lemma_limit_denotes(e.args[0], targets);
                    let head = (denoted(r.args[0])->0).1;
                    assert forall|i: int| 0 <= i < subs.len() implies fixed_subscript(
                        #[trigger] subs[i],
                    ) == fixed_subscript((denoted(e)->0).1[i]) by {
                        if i < head.len() {
                            assert(subs[i] == head[i]);
                            assert((denoted(e)->0).1[i] == (denoted(e.args[0])->0).1[i]);
                        } else {
                            let j = i - head.len() + 1;
                            assert(subs[i] == front[j]);
                            assert((denoted(e)->0).1[i] == e.args[j]);
                            lemma_limit_keeps_fixed(e.args[j], targets);
                        }
                    }
                },
                _ => {
                    assert(value_rewrite(e.args[0], targets) == Ok::<_, ToDaeErrorView>(front[0]));
                    lemma_limit_denotes(e.args[0], targets);
                    lemma_same_fixed(
                        (denoted(r.args[0])->0).1,
                        (denoted(e.args[0])->0).1,
                    );
                },
            }
        }
    }
}

/// Lists of subscripts that are fixed alike have the same text.
proof fn lemma_same_fixed(a: Seq<ExprView>, b: Seq<ExprView>)
    requires
        a.len() == b.len(),
        forall|i: int|
            0 <= i < a.len() ==> fixed_subscript(#[trigger] a[i]) == fixed_subscript(b[i]),
    ensures
        all_fixed(a) == all_fixed(b),
        fixed_text(a) == fixed_text(b),
{
    if all_fixed(a) {
        assert forall|i: int| 0 <= i < b.len() implies fixed_subscript(#[trigger] b[i]) is Some by {
            assert(fixed_subscript(a[i]) is Some);
        }
    }
    if all_fixed(b) {
        assert forall|i: int| 0 <= i < a.len() implies fixed_subscript(#[trigger] a[i]) is Some by {
            assert(fixed_subscript(b[i]) is Some);
        }
    }
    let ta = Seq::new(a.len(), |i: int| int_text(fixed_subscript(a[i])->0 as int));
    let tb = Seq::new(b.len(), |i: int| int_text(fixed_subscript(b[i])->0 as int));
    assert forall|i: int| 0 <= i < a.len() implies ta[i] == tb[i] by {
        assert(fixed_subscript(a[i]) == fixed_subscript(b[i]));
    }
    assert(ta =~= tb);
}

/// The left limit of an expression is what the expression was: its value at a level is
/// that of the expression one level up.
pub proof fn law_left_limits_are_read_back(e: ExprView, targets: Targets, w: World, k: nat)
    requires
        knows(w, targets),
        value_rewrite(e, targets) is Ok,
    ensures
        meaning(value_rewrite(e, targets)->Ok_0, w, k) == meaning(e, w, k + 1),
    decreases e,
{
    let r = value_rewrite(e, targets)->Ok_0;
    lemma_denoted(e);
    let parts = target_parts(e)->Ok_0;
    if known_target(parts, targets) is Some {
        let (source, subs, _) = known_target(parts, targets)->0;
        let name = (denoted(e)->0).0;
        lemma_pre_ref(source, subs, r.span, w, k);
        assert(knows_name(w, targets, name));
        lemma_moving(e, w, k);
        assert(w.limit(source, values(subs, w, k)) == w.limit(name, values(subs, w, k)));
    } else if e.node == NodeView::BuiltinCall(BuiltinFunction::Sample) && e.args.len() != 1 {
    } else {
        let n = walked(e) as int;
        lemma_value_args(e, n, targets);
        let front = value_rewrite_args(e, n, targets)->Ok_0;
        assert(r == rebuilt(e, front));
        assert forall|i: int| 0 <= i < r.args.len() implies meaning(
            #[trigger] r.args[i],
            w,
            operand_level(r, i, k),
        ) == meaning(e.args[i], w, operand_level(e, i, k + 1)) by {
            if i < n {
                assert(r.args[i] == front[i]);
                assert(value_rewrite(e.args[i], targets) == Ok::<_, ToDaeErrorView>(front[i]));
                law_left_limits_are_read_back(e.args[i], targets, w, k);
                law_left_limits_are_read_back(e.args[i], targets, w, 0);
            } else {
                assert(r.args[i] == e.args[i]);
            }
        }
        assert(operands_agree(r, k, e, k + 1, w));
        lemma_operands_agree(r, k, e, k + 1, w);
        match e.node {
            NodeView::VarRef { name } => {
                if is_pre_name(name) {
                    lemma_nodes_agree(r, k, e, k + 1, w);
                } else {
                    assert(knows_name(w, targets, encoded_parts(name).0));
                }
            },
            NodeView::Index => {
                lemma_limit_denotes(e, targets);
                if denoted(e) is Some {
                    assert(knows_name(w, targets, (denoted(e)->0).0));
                }
            },
            NodeView::FieldAccess { .. } => {
                lemma_limit_denotes(e, targets);
                if denoted(e) is Some {
                    assert(knows_name(w, targets, (denoted(e)->0).0));
                }
            },
            _ => {
                if looks_back(e.node) && e.args.len() > 0 {
                    assert(r.args[0] == front[0]);
                    assert(value_rewrite(e.args[0], targets) == Ok::<_, ToDaeErrorView>(front[0]));
                    law_left_limits_are_read_back(e.args[0], targets, w, k + 1);
                }
                lemma_nodes_agree(r, k, e, k + 1, w);
            },
        }
    }
}

proof fn lemma_remembered(memories: Seq<Memory>, n: int, relation: ExprView) -> (at: int)
    requires
        0 <= n <= memories.len(),
        memory_of(memories, n, relation) is Some,
    ensures
        0 <= at < n,
        memories[at] == (relation, memory_of(memories, n, relation)->0),
    decreases n,
{
    if memory_of(memories, n - 1, relation) is Some {
        lemma_remembered(memories, n - 1, relation)
    } else {
        n - 1
    }
}

/// The left limit of what remembers a relation is the left limit of the relation.
proof fn lemma_memory(
    memories: Seq<Memory>,
    relation: ExprView,
    span: Span,
    w: World,
    k: nat,
)
    requires
        remembers(w, memories),
        remembered(memories, relation) is Some,
    ensures
        meaning(remembered(memories, relation)->0, w, k) == meaning(relation, w, k),
        memory_pre(remembered(memories, relation)->0, span) matches Ok(p) ==> meaning(p, w, k)
            == meaning(relation, w, k + 1),
{
    let memory = remembered(memories, relation)->0;
    let at = lemma_remembered(memories, memories.len() as int, relation);
    assert(remembers_one(w, memories[at], k));
    lemma_denoted(memory);
    if memory_pre(memory, span) is Ok {
        let (name, subs) = (target_parts(memory)->Ok_0)->0;
        lemma_pre_ref(name, subs, span, w, k);
        lemma_sub_values(memory, w, k);
    }
}

/// Lowering keeps which subscripts are fixed, and leaves open ones open.
proof fn lemma_lowering_keeps_fixed(s: ExprView, targets: Targets, memories: Seq<Memory>)
    requires
        pre_rewrite(s, targets, memories) is Ok,
    ensures
        fixed_subscript(s) is Some ==> fixed_subscript(pre_rewrite(s, targets, memories)->Ok_0)
            == fixed_subscript(s),
        stays_open(s) ==> fixed_subscript(pre_rewrite(s, targets, memories)->Ok_0) is None,
{
    lemma_temporal(s.node);
    if fixed_subscript(s) is Some || stays_open(s) {
        let r = pre_rewrite(s, targets, memories)->Ok_0;
        lemma_pre_args(s, reached(s) as int, targets, memories);
        assert(r.node == s.node);
        if s.node is SubscriptExpr && s.args.len() > 0 {
            assert(reached(s) == s.args.len());
            let arg = s.args[0];
            let new = pre_rewrite(arg, targets, memories)->Ok_0;
            assert(pre_rewrite(arg, targets, memories) is Ok);
            assert(r.args[0] == new);
            lemma_temporal(arg.node);
            assert(new.node == arg.node);
        }
    }
}

/// Whether subscripts are fixed alike, as far as that matters.
spec fn subs_kept(old_subs: Seq<ExprView>, new_subs: Seq<ExprView>) -> bool {
    &&& old_subs.len() == new_subs.len()
    &&& forall|i: int|
        0 <= i < old_subs.len() ==> {
            &&& fixed_subscript(#[trigger] old_subs[i]) is Some ==> fixed_subscript(new_subs[i])
                == fixed_subscript(old_subs[i])
            &&& stays_open(old_subs[i]) ==> fixed_subscript(new_subs[i]) is None
        }
}

/// Lowering a regular reference keeps what it denotes.
proof fn lemma_lowering_denotes(e: ExprView, targets: Targets, memories: Seq<Memory>)
    requires
        is_regular(e),
        !(e.node is If),
        !looks_back(e.node),
        pre_rewrite(e, targets, memories) is Ok,
    ensures
        ({
            let r = pre_rewrite(e, targets, memories)->Ok_0;
            &&& r.node == e.node
            &&& (denoted(r) is Some) == (denoted(e) is Some)
            &&& denoted(e) matches Some((name, subs)) ==> (denoted(r)->0).0 == name && subs_kept(
                subs,
                (denoted(r)->0).1,
            )
        }),
    decreases e,
{
    lemma_temporal(e.node);
    let r = pre_rewrite(e, targets, memories)->Ok_0;
    if e.node is VarRef || e.node is Index || e.node is FieldAccess {
        let n = e.args.len() as int;
        assert(reached(e) == n);
        lemma_pre_args(e, n, targets, memories);
        let front = pre_rewrite_args(e, n, targets, memories)->Ok_0;
        assert(r.args =~= front);
        match e.node {
            NodeView::VarRef { name } => {
                if denoted(e) is Some {
                    let fixed = index_subscripts(encoded_parts(name).1, e.span);
                    let subs = (denoted(e)->0).1;
                    let new_subs = (denoted(r)->0).1;
                    assert forall|i: int| 0 <= i < subs.len() implies {
                        &&& fixed_subscript(#[trigger] subs[i]) is Some ==> fixed_subscript(
                            new_subs[i],
                        ) == fixed_subscript(subs[i])
                        &&& stays_open(subs[i]) ==> fixed_subscript(new_subs[i]) is None
                    } by {
                        if i < fixed.len() {
                            assert(subs[i] == fixed[i] && new_subs[i] == fixed[i]);
                        } else {
                            let j = i - fixed.len();
                            assert(subs[i] == e.args[j] && new_subs[i] == front[j]);
                            lemma_lowering_keeps_fixed(e.args[j], targets, memories);
                        }
                    }
                }
            },
            NodeView::Index => {
                if n > 0 {
                    assert(is_regular(e.args[0]));
                    assert(pre_rewrite(e.args[0], targets, memories) == Ok::<_, ToDaeErrorView>(front[0]));
                    lemma_lowering_denotes(e.args[0], targets, memories);
                    if denoted(e) is Some {
                        let head = (denoted(e.args[0])->0).1;
                        let new_head = (denoted(front[0])->0).1;
                        let subs = (denoted(e)->0).1;
                        let new_subs = (denoted(r)->0).1;
                        assert forall|i: int| 0 <= i < subs.len() implies {
                            &&& fixed_subscript(#[trigger] subs[i]) is Some ==> fixed_subscript(
                                new_subs[i],
                            ) == fixed_subscript(subs[i])
                            &&& stays_open(subs[i]) ==> fixed_subscript(new_subs[i]) is None
                        } by {
                            if i < head.len() {
                                assert(subs[i] == head[i] && new_subs[i] == new_head[i]);
                            } else {
                                let j = i - head.len() + 1;
                                assert(subs[i] == e.args[j] && new_subs[i] == front[j]);
                                lemma_lowering_keeps_fixed(e.args[j], targets, memories);
                            }
                        }
                    }
                }
            },
            _ => {
                if n > 0 {
                    assert(is_regular(e.args[0]));
                    assert(pre_rewrite(e.args[0], targets, memories) == Ok::<_, ToDaeErrorView>(front[0]));
                    lemma_lowering_denotes(e.args[0], targets, memories);
                    if denoted(e.args[0]) is Some {
                        let subs = (denoted(e.args[0])->0).1;
                        let new_subs = (denoted(front[0])->0).1;
                        if all_fixed(subs) {
                            lemma_same_fixed(new_subs, subs);
                        } else {
                            let i = choose|i: int|
                                0 <= i < subs.len() && stays_open(#[trigger] subs[i]);
                            assert(fixed_subscript(new_subs[i]) is None);
                            assert(!all_fixed(new_subs));
                        }
                    }
                }
            },
        }
    } else {
        assert(r.node == e.node);
    }
}

proof fn lemma_tick_is_plain(args: Seq<ExprView>, span: Span, w: World, k: nat)
    ensures
        meaning(ExprView { node: tick_call(), args, span }, w, k) == w.compute(
            tick_call(),
            values(args, w, k),
        ),
{
    reveal_strlit("__rumoca_sample");
    reveal_strlit("pre");
    reveal_strlit("edge");
    reveal_strlit("change");
    reveal_strlit("sample");
    reveal_strlit("previous");
    assert("__rumoca_sample"@.len() == 15);
    assert("pre"@.len() == 3);
    assert("edge"@.len() == 4);
    assert("change"@.len() == 6);
    assert("sample"@.len() == 6);
    assert("previous"@.len() == 8);
    let e = ExprView { node: tick_call(), args, span };
    assert(!looks_back(e.node));
    lemma_operands(e, w, k, args.len() as int);
    assert(operands(e, w, k, args.len() as int) =~= values(args, w, k));
}

/// Lowering a regular expression keeps its value at every level.
proof fn lemma_regular_keeps(
    e: ExprView,
    targets: Targets,
    memories: Seq<Memory>,
    w: World,
    k: nat,
)
    requires
        knows(w, targets),
        remembers(w, memories),
        is_regular(e),
        pre_rewrite(e, targets, memories) is Ok,
    ensures
        meaning(pre_rewrite(e, targets, memories)->Ok_0, w, k) == meaning(e, w, k),
    decreases e, 2int,
{
    lemma_temporal(e.node);
    if looks_back(e.node) {
        lemma_regular_call_keeps(e, targets, memories, w, k);
    } else {
        lemma_regular_node_keeps(e, targets, memories, w, k);
    }
}

#[verifier::rlimit(60)]
proof fn lemma_regular_call_keeps(
    e: ExprView,
    targets: Targets,
    memories: Seq<Memory>,
    w: World,
    k: nat,
)
    requires
        knows(w, targets),
        remembers(w, memories),
        is_regular(e),
        looks_back(e.node),
        pre_rewrite(e, targets, memories) is Ok,
    ensures
        meaning(pre_rewrite(e, targets, memories)->Ok_0, w, k) == meaning(e, w, k),
    decreases e, 1int,
{
    let r = pre_rewrite(e, targets, memories)->Ok_0;
    lemma_temporal(e.node);
    if e.args.len() > 0 {
        assert(is_regular(e.args[0]));
    }
    match temporal_of(e.node) {
        Some(Temporal::Pre) => {
            if e.args.len() > 0 && remembered(memories, e.args[0]) is Some {
                lemma_memory(memories, e.args[0], e.span, w, k);
            } else {
                lemma_pre_args(e, e.args.len() as int, targets, memories);
                let args = pre_rewrite_args(e, e.args.len() as int, targets, memories)->Ok_0;
                assert(pre_rewrite(e.args[0], targets, memories) == Ok::<_, ToDaeErrorView>(args[0]));
                lemma_regular_keeps(e.args[0], targets, memories, w, k + 1);
                lemma_pre_of(args, targets, e.span, w, k);
            }
        },
        Some(Temporal::Edge) => {
            if e.args.len() > 0 {
                match remembered(memories, e.args[0]) {
                    Some(memory) => {
                        lemma_memory(memories, e.args[0], e.span, w, k);
                        lemma_rising(memory, memory_pre(memory, e.span)->Ok_0, e.span, w, k);
                    },
                    None => {
                        let current = pre_rewrite(e.args[0], targets, memories)->Ok_0;
                        lemma_regular_keeps(e.args[0], targets, memories, w, k);
                        lemma_regular_keeps(e.args[0], targets, memories, w, k + 1);
                        law_left_limits_are_read_back(current, targets, w, k);
                        lemma_rising(
                            current,
                            value_rewrite(current, targets)->Ok_0,
                            e.span,
                            w,
                            k,
                        );
                    },
                }
            }
        },
        Some(Temporal::Change) => {
            if e.args.len() > 0 {
                lemma_regular_keeps(e.args[0], targets, memories, w, k);
                lemma_operand_value(e.args[0], targets, memories, w, k);
                let current = pre_rewrite(e.args[0], targets, memories)->Ok_0;
                let previous = operand_value(e.args[0], targets, memories)->Ok_0;
                assert(r.args[0] == current && r.args[1] == previous);
            }
        },
        Some(Temporal::Sample) => {
            if e.args.len() == 1 {
                lemma_operand_value(e.args[0], targets, memories, w, k);
            } else {
                lemma_pre_args(e, e.args.len() as int, targets, memories);
                let args = pre_rewrite_args(e, e.args.len() as int, targets, memories)->Ok_0;
                lemma_tick_is_plain(args, e.span, w, k);
                lemma_operands(e, w, k, e.args.len() as int);
                assert forall|i: int| 0 <= i < args.len() implies meaning(
                    #[trigger] args[i],
                    w,
                    k,
                ) == operands(e, w, k, e.args.len() as int)[i] by {
                    assert(is_regular(e.args[i]));
                    lemma_regular_keeps(e.args[i], targets, memories, w, k);
                }
                assert(values(args, w, k) =~= operands(e, w, k, e.args.len() as int));
            }
        },
        Some(Temporal::Previous) => {
            if e.args.len() > 0 {
                lemma_operand_value(e.args[0], targets, memories, w, k);
            } else {
                assert(r.node == e.node);
            }
        },
        None => {},
    }
}

#[verifier::rlimit(60)]
proof fn lemma_regular_node_keeps(
    e: ExprView,
    targets: Targets,
    memories: Seq<Memory>,
    w: World,
    k: nat,
)
    requires
        knows(w, targets),
        remembers(w, memories),
        is_regular(e),
        !looks_back(e.node),
        pre_rewrite(e, targets, memories) is Ok,
    ensures
        meaning(pre_rewrite(e, targets, memories)->Ok_0, w, k) == meaning(e, w, k),
    decreases e, 1int,
{
    let r = pre_rewrite(e, targets, memories)->Ok_0;
    lemma_temporal(e.node);
    if e.node is If && static_choice(e.args, 0) is Some {
        law_static_choice_keeps_meaning(e, w, k, 0);
        let c = static_choice(e.args, 0)->0;
        assert(is_regular(e.args[c]));
        lemma_regular_keeps(e.args[c], targets, memories, w, k);
    } else {
        let n = reached(e) as int;
        lemma_pre_args(e, n, targets, memories);
        let front = pre_rewrite_args(e, n, targets, memories)->Ok_0;
        assert(r == rebuilt(e, front));
        assert forall|i: int, l: nat| 0 <= i < r.args.len() implies #[trigger] meaning(
            r.args[i],
            w,
            l,
        ) == meaning(e.args[i], w, l) by {
            if i < n {
                assert(r.args[i] == front[i]);
                assert(is_regular(e.args[i]));
                lemma_regular_keeps(e.args[i], targets, memories, w, l);
            } else {
                assert(r.args[i] == e.args[i]);
            }
        }
        assert(operands_agree(r, k, e, k, w));
        lemma_operands_agree(r, k, e, k, w);
        if k > 0 {
            assert(operands_agree(r, (k - 1) as nat, e, (k - 1) as nat, w));
            lemma_operands_agree(r, (k - 1) as nat, e, (k - 1) as nat, w);
        }
        if e.node is VarRef || e.node is Index || e.node is FieldAccess {
            lemma_lowering_denotes(e, targets, memories);
            if k > 0 {
                lemma_sub_values_kept(e, targets, memories, w, (k - 1) as nat);
            }
        } else {
            lemma_nodes_agree(r, k, e, k, w);
        }
    }
}

/// Lowering a regular reference keeps the values of its subscripts.
proof fn lemma_sub_values_kept(
    e: ExprView,
    targets: Targets,
    memories: Seq<Memory>,
    w: World,
    k: nat,
)
    requires
        knows(w, targets),
        remembers(w, memories),
        is_regular(e),
        !(e.node is If),
        !looks_back(e.node),
        pre_rewrite(e, targets, memories) is Ok,
    ensures
        sub_values(pre_rewrite(e, targets, memories)->Ok_0, w, k) == sub_values(e, w, k),
    decreases e, 0int,
{
    let r = pre_rewrite(e, targets, memories)->Ok_0;
    lemma_temporal(e.node);
    lemma_lowering_denotes(e, targets, memories);
    if e.node is VarRef || e.node is Index {
        let n = e.args.len() as int;
        assert(reached(e) == n);
        lemma_pre_args(e, n, targets, memories);
        let front = pre_rewrite_args(e, n, targets, memories)->Ok_0;
        assert(r.args =~= front);
        assert forall|i: int| 0 <= i < r.args.len() implies meaning(
            #[trigger] r.args[i],
            w,
            operand_level(r, i, k),
        ) == meaning(e.args[i], w, operand_level(e, i, k)) by {
            assert(is_regular(e.args[i]));
            lemma_regular_keeps(e.args[i], targets, memories, w, k);
        }
        assert(operands_agree(r, k, e, k, w));
        lemma_operands_agree(r, k, e, k, w);
        if e.node is Index && n > 0 {
            assert(is_regular(e.args[0]));
            lemma_sub_values_kept(e.args[0], targets, memories, w, k);
        }
    }
}

/// A rise is true where the one operand is and the other is not.
proof fn lemma_rising(current: ExprView, previous: ExprView, span: Span, w: World, k: nat)
    ensures
        meaning(rising(current, previous, span), w, k) == Value::Truth(
            is_true(meaning(current, w, k)) && !is_true(meaning(previous, w, k)),
        ),
{
    let e = rising(current, previous, span);
    assert(e.args[0] == current);
    assert(e.args[1].args[0] == previous);
    reveal_with_fuel(meaning, 3);
}

/// The left limit of lowered arguments is the value of the first one level up.
proof fn lemma_pre_of(args: Seq<ExprView>, targets: Targets, span: Span, w: World, k: nat)
    requires
        knows(w, targets),
        pre_of(args, targets, span) is Ok,
    ensures
        args.len() > 0,
        meaning(pre_of(args, targets, span)->Ok_0, w, k) == meaning(args[0], w, k + 1),
{
    lemma_denoted(args[0]);
    let parts = target_parts(args[0])->Ok_0;
    if known_target(parts, targets) is Some {
        let (source, subs, _) = known_target(parts, targets)->0;
        let name = (denoted(args[0])->0).0;
        lemma_pre_ref(source, subs, span, w, k);
        assert(knows_name(w, targets, name));
        lemma_moving(args[0], w, k);
        assert(w.limit(source, values(subs, w, k)) == w.limit(name, values(subs, w, k)));
    } else {
        law_left_limits_are_read_back(args[0], targets, w, k);
    }
}

/// The left limit of an operand is its value one level up.
proof fn lemma_operand_value(
    e: ExprView,
    targets: Targets,
    memories: Seq<Memory>,
    w: World,
    k: nat,
)
    requires
        knows(w, targets),
        remembers(w, memories),
        pre_free(e) || is_regular(e),
        operand_value(e, targets, memories) is Ok,
    ensures
        meaning(operand_value(e, targets, memories)->Ok_0, w, k) == meaning(e, w, k + 1),
    decreases e, 3int,
{
    if pre_free(e) {
        law_left_limits_are_read_back(e, targets, w, k);
    } else {
        let current = pre_rewrite(e, targets, memories)->Ok_0;
        lemma_regular_keeps(e, targets, memories, w, k + 1);
        law_left_limits_are_read_back(current, targets, w, k);
    }
}

/// Lowering keeps what an expression means, in every world in which the parameters for
/// left limits hold these and relations are remembered rightly.
pub proof fn law_lowering_keeps_meaning(
    e: ExprView,
    targets: Targets,
    memories: Seq<Memory>,
    w: World,
)
    requires
        knows(w, targets),
        remembers(w, memories),
        is_lowerable(e),
        pre_rewrite(e, targets, memories) is Ok,
    ensures
        meaning(pre_rewrite(e, targets, memories)->Ok_0, w, 0) == meaning(e, w, 0),
    decreases e, 1int,
{
    lemma_temporal(e.node);
    if looks_back(e.node) {
        lemma_lowered_call_keeps(e, targets, memories, w);
    } else {
        lemma_lowered_node_keeps(e, targets, memories, w);
    }
}

#[verifier::rlimit(60)]
proof fn lemma_lowered_call_keeps(
    e: ExprView,
    targets: Targets,
    memories: Seq<Memory>,
    w: World,
)
    requires
        knows(w, targets),
        remembers(w, memories),
        is_lowerable(e),
        looks_back(e.node),
        pre_rewrite(e, targets, memories) is Ok,
    ensures
        meaning(pre_rewrite(e, targets, memories)->Ok_0, w, 0) == meaning(e, w, 0),
    decreases e, 0int,
{
    let r = pre_rewrite(e, targets, memories)->Ok_0;
    lemma_calls_apart(e.node);
    lemma_temporal(e.node);
    match temporal_of(e.node) {
        Some(Temporal::Pre) => {
            if e.args.len() > 0 && remembered(memories, e.args[0]) is Some {
                lemma_memory(memories, e.args[0], e.span, w, 0);
            } else {
                lemma_pre_args(e, e.args.len() as int, targets, memories);
                let args = pre_rewrite_args(e, e.args.len() as int, targets, memories)->Ok_0;
                lemma_pre_of(args, targets, e.span, w, 0);
                assert(pre_rewrite(e.args[0], targets, memories) == Ok::<_, ToDaeErrorView>(args[0]));
                lemma_regular_keeps(e.args[0], targets, memories, w, 1);
            }
        },
        Some(Temporal::Edge) => {
            if e.args.len() > 0 {
                match remembered(memories, e.args[0]) {
                    Some(memory) => {
                        lemma_memory(memories, e.args[0], e.span, w, 0);
                        lemma_rising(memory, memory_pre(memory, e.span)->Ok_0, e.span, w, 0);
                    },
                    None => {
                        let current = pre_rewrite(e.args[0], targets, memories)->Ok_0;
                        lemma_regular_keeps(e.args[0], targets, memories, w, 0);
                        lemma_regular_keeps(e.args[0], targets, memories, w, 1);
                        law_left_limits_are_read_back(current, targets, w, 0);
                        lemma_rising(
                            current,
                            value_rewrite(current, targets)->Ok_0,
                            e.span,
                            w,
                            0,
                        );
                    },
                }
            }
        },
        Some(Temporal::Change) => {
            if e.args.len() > 0 {
                if pre_free(e.args[0]) {
                    law_lowering_keeps_meaning(e.args[0], targets, memories, w);
                } else {
                    lemma_regular_keeps(e.args[0], targets, memories, w, 0);
                }
                lemma_operand_value(e.args[0], targets, memories, w, 0);
                let current = pre_rewrite(e.args[0], targets, memories)->Ok_0;
                let previous = operand_value(e.args[0], targets, memories)->Ok_0;
                assert(r.args[0] == current && r.args[1] == previous);
            }
        },
        Some(Temporal::Sample) => {
            if e.args.len() == 1 {
                lemma_operand_value(e.args[0], targets, memories, w, 0);
            } else {
                lemma_pre_args(e, e.args.len() as int, targets, memories);
                let args = pre_rewrite_args(e, e.args.len() as int, targets, memories)->Ok_0;
                lemma_tick_is_plain(args, e.span, w, 0);
                lemma_operands(e, w, 0, e.args.len() as int);
                assert forall|i: int| 0 <= i < args.len() implies meaning(
                    #[trigger] args[i],
                    w,
                    0,
                ) == operands(e, w, 0, e.args.len() as int)[i] by {
                    assert(is_lowerable(e.args[i]));
                    law_lowering_keeps_meaning(e.args[i], targets, memories, w);
                }
                assert(values(args, w, 0) =~= operands(e, w, 0, e.args.len() as int));
            }
        },
        Some(Temporal::Previous) => {
            if e.args.len() > 0 {
                lemma_operand_value(e.args[0], targets, memories, w, 0);
            } else {
                assert(r.node == e.node);
            }
        },
        None => {},
    }
}

#[verifier::rlimit(60)]
proof fn lemma_lowered_node_keeps(
    e: ExprView,
    targets: Targets,
    memories: Seq<Memory>,
    w: World,
)
    requires
        knows(w, targets),
        remembers(w, memories),
        is_lowerable(e),
        !looks_back(e.node),
        pre_rewrite(e, targets, memories) is Ok,
    ensures
        meaning(pre_rewrite(e, targets, memories)->Ok_0, w, 0) == meaning(e, w, 0),
    decreases e, 0int,
{
    let r = pre_rewrite(e, targets, memories)->Ok_0;
    lemma_temporal(e.node);
    if e.node is If && static_choice(e.args, 0) is Some {
        law_static_choice_keeps_meaning(e, w, 0, 0);
        let c = static_choice(e.args, 0)->0;
        assert(is_lowerable(e.args[c]));
        law_lowering_keeps_meaning(e.args[c], targets, memories, w);
    } else {
        let n = reached(e) as int;
        lemma_pre_args(e, n, targets, memories);
        let front = pre_rewrite_args(e, n, targets, memories)->Ok_0;
        assert(r == rebuilt(e, front));
        assert forall|i: int| 0 <= i < r.args.len() implies meaning(
            #[trigger] r.args[i],
            w,
            operand_level(r, i, 0),
        ) == meaning(e.args[i], w, operand_level(e, i, 0)) by {
            if i < n {
                assert(r.args[i] == front[i]);
                assert(is_lowerable(e.args[i]));
                law_lowering_keeps_meaning(e.args[i], targets, memories, w);
            } else {
                assert(r.args[i] == e.args[i]);
            }
        }
        assert(operands_agree(r, 0, e, 0, w));
        lemma_operands_agree(r, 0, e, 0, w);
        if !(e.node is VarRef) && !(e.node is Index) && !(e.node is FieldAccess) {
            lemma_nodes_agree(r, 0, e, 0, w);
        }
    }
}

/// A lowered edge is true exactly where its operand is true and its left limit is not.
pub proof fn law_edges_are_rises(
    e: ExprView,
    targets: Targets,
    memories: Seq<Memory>,
    w: World,
)
    requires
        knows(w, targets),
        remembers(w, memories),
        calls_function(e.node, BuiltinFunction::Edge, "edge"@),
        e.args.len() > 0,
        is_regular(e.args[0]),
        pre_rewrite(e, targets, memories) is Ok,
    ensures
        is_true(meaning(pre_rewrite(e, targets, memories)->Ok_0, w, 0)) <==> is_true(
            meaning(e.args[0], w, 0),
        ) && !is_true(meaning(e.args[0], w, 1)),
{
    lemma_calls_apart(e.node);
    law_lowering_keeps_meaning(e, targets, memories, w);
}

/// A lowered change is true exactly where its operand differs from its left limit.
pub proof fn law_changes_are_differences(
    e: ExprView,
    targets: Targets,
    memories: Seq<Memory>,
    w: World,
)
    requires
        knows(w, targets),
        remembers(w, memories),
        calls_function(e.node, BuiltinFunction::Change, "change"@),
        e.args.len() > 0,
        is_regular(e.args[0]) || (pre_free(e.args[0]) && is_lowerable(e.args[0])),
        is_lowerable(e),
        pre_rewrite(e, targets, memories) is Ok,
    ensures
        is_true(meaning(pre_rewrite(e, targets, memories)->Ok_0, w, 0)) <==> meaning(
            e.args[0],
            w,
            0,
        ) != meaning(e.args[0], w, 1),
{
    lemma_calls_apart(e.node);
    law_lowering_keeps_meaning(e, targets, memories, w);
}

/// A lowered left limit is the left limit of its operand.
pub proof fn law_left_limits_are_left_limits(
    e: ExprView,
    targets: Targets,
    memories: Seq<Memory>,
    w: World,
)
    requires
        knows(w, targets),
        remembers(w, memories),
        calls_function(e.node, BuiltinFunction::Pre, "pre"@),
        e.args.len() > 0,
        is_regular(e.args[0]),
        pre_rewrite(e, targets, memories) is Ok,
    ensures
        meaning(pre_rewrite(e, targets, memories)->Ok_0, w, 0) == meaning(e.args[0], w, 1),
{
    law_lowering_keeps_meaning(e, targets, memories, w);
}

proof fn lemma_calls_apart(node: NodeView)
    ensures
        calls_function(node, BuiltinFunction::Edge, "edge"@) ==> !calls_function(
            node,
            BuiltinFunction::Pre,
            "pre"@,
        ),
        calls_function(node, BuiltinFunction::Change, "change"@) ==> !calls_function(
            node,
            BuiltinFunction::Pre,
            "pre"@,
        ) && !calls_function(node, BuiltinFunction::Edge, "edge"@),
        calls_function(node, BuiltinFunction::Sample, "sample"@) ==> !calls_by_name(
            node,
            "previous"@,
        ),
{
    reveal_strlit("pre");
    reveal_strlit("edge");
    reveal_strlit("change");
    reveal_strlit("sample");
    reveal_strlit("previous");
    assert("sample"@.len() == 6);
    assert("previous"@.len() == 8);
    assert("pre"@.len() == 3);
    assert("edge"@.len() == 4);
    assert("change"@.len() == 6);
}

} // verus!
