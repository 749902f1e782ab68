//! What the left limit is taken of: variables, elements and record fields, and
//! finding them all in an expression.
use crate::dae::const_eval::{selected_static_if_branch, static_choice};
use crate::dae::error::{missing_provenance, missing_provenance_error, ToDaeError, ToDaeErrorView};
use crate::dae::scalar_name::{encoded_parts, split_encoded};
use crate::expr::tree::{
    expr_views, lemma_expr_views_push, lemma_view_args, BuiltinFunction, ExprView, Expression,
    Literal, LiteralView, Node, NodeView,
};
use crate::ir::name_map::{value_of_name, with_named, NameMap, Named};
use crate::span::Span;
use crate::text::{int_text, join_text, push_int, same_text};
use vstd::prelude::*;

verus! {

/// Calls that look across an event.
#[derive(Clone, Copy, Debug, PartialEq, Eq, Structural)]
pub enum Temporal {
    Pre,
    Edge,
    Change,
    Sample,
    Previous,
}

/// The temporal call that a function name stands for.
pub open spec fn temporal_name(name: Seq<char>) -> Option<Temporal> {
    if name == "pre"@ {
        Some(Temporal::Pre)
    } else if name == "edge"@ {
        Some(Temporal::Edge)
    } else if name == "change"@ {
        Some(Temporal::Change)
    } else if name == "sample"@ {
        Some(Temporal::Sample)
    } else if name == "previous"@ {
        Some(Temporal::Previous)
    } else {
        None
    }
}

/// The temporal call that a node is, built in or by name.
pub open spec fn temporal_of(node: NodeView) -> Option<Temporal> {
    match node {
        NodeView::BuiltinCall(BuiltinFunction::Pre) => Some(Temporal::Pre),
        NodeView::BuiltinCall(BuiltinFunction::Edge) => Some(Temporal::Edge),
        NodeView::BuiltinCall(BuiltinFunction::Change) => Some(Temporal::Change),
        NodeView::BuiltinCall(BuiltinFunction::Sample) => Some(Temporal::Sample),
        NodeView::FunctionCall { name, .. } => temporal_name(name),
        _ => None,
    }
}

/// The temporal call that a node is, built in or by name.
pub fn temporal_call(node: &Node) -> (r: Option<Temporal>)
    ensures
        r == temporal_of(node@),
{
    match node {
        Node::BuiltinCall(BuiltinFunction::Pre) => Some(Temporal::Pre),
        Node::BuiltinCall(BuiltinFunction::Edge) => Some(Temporal::Edge),
        Node::BuiltinCall(BuiltinFunction::Change) => Some(Temporal::Change),
        Node::BuiltinCall(BuiltinFunction::Sample) => Some(Temporal::Sample),
        Node::FunctionCall { name, .. } => {
            if same_text(name.as_str(), "pre") {
                Some(Temporal::Pre)
            } else if same_text(name.as_str(), "edge") {
                Some(Temporal::Edge)
            } else if same_text(name.as_str(), "change") {
                Some(Temporal::Change)
            } else if same_text(name.as_str(), "sample") {
                Some(Temporal::Sample)
            } else if same_text(name.as_str(), "previous") {
                Some(Temporal::Previous)
            } else {
                None
            }
        },
        _ => None,
    }
}

/// Whether a name is that of a parameter which holds a left limit.
pub open spec fn is_pre_name(name: Seq<char>) -> bool {
    name.len() >= "__pre__."@.len() && name.take("__pre__."@.len() as int) == "__pre__."@
}

/// Whether a name is that of a parameter which holds a left limit.
pub fn is_pre_parameter_name(name: &str) -> (r: bool)
    ensures
        r == is_pre_name(name@),
{
    let prefix = "__pre__.";
    let k: usize = prefix.unicode_len();
    if name.unicode_len() < k {
        return false;
    }
    let head = name.substring_char(0, k);
    assert(head@ =~= name@.take(k as int));
    same_text(head, prefix)
}

/// Subscripts with these fixed values.
pub open spec fn index_subscripts(subs: Seq<i64>, span: Span) -> Seq<ExprView> {
    Seq::new(
        subs.len(),
        |i: int|
            ExprView { node: NodeView::SubscriptIndex(subs[i]), args: Seq::empty(), span },
    )
}

/// Subscripts with these fixed values.
pub fn make_index_subscripts(subs: &Vec<i64>, span: Span) -> (r: Vec<Expression>)
    ensures
        expr_views(r@) == index_subscripts(subs@, span),
{
    let mut r: Vec<Expression> = Vec::new();
    let mut i: usize = 0;
    assert(expr_views(r@) =~= index_subscripts(subs@, span).take(0));
    while i < subs.len()
        invariant
            i <= subs.len(),
            expr_views(r@) == index_subscripts(subs@, span).take(i as int),
        decreases subs.len() - i,
    {
        let e = Expression::subscript_index(subs[i], span);
        proof {
            lemma_expr_views_push(r@, e);
        }
        r.push(e);
        i = i + 1;
        assert(expr_views(r@) =~= index_subscripts(subs@, span).take(i as int));
    }
    assert(index_subscripts(subs@, span).take(i as int) =~= index_subscripts(subs@, span));
    r
}

/// The value of a subscript that is fixed.
pub open spec fn fixed_subscript(sub: ExprView) -> Option<i64> {
    match sub.node {
        NodeView::SubscriptIndex(v) => Some(v),
        NodeView::SubscriptExpr => if sub.args.len() > 0 {
            match sub.args[0].node {
                NodeView::Literal(LiteralView::Integer(v)) => Some(v),
                _ => None,
            }
        } else {
            None
        },
        _ => None,
    }
}

fn static_subscript_index(sub: &Expression) -> (r: Option<i64>)
    ensures
        r == fixed_subscript(sub@),
{
    proof {
        lemma_view_args(*sub);
    }
    match &sub.node {
        Node::SubscriptIndex(v) => Some(*v),
        Node::SubscriptExpr => {
            if sub.args.len() == 0 {
                return None;
            }
            proof {
                lemma_view_args(sub.args@[0]);
            }
            match &sub.args[0].node {
                Node::Literal(Literal::Integer(v)) => Some(*v),
                _ => None,
            }
        },
        _ => None,
    }
}

/// Whether all subscripts are fixed.
pub open spec fn all_fixed(subs: Seq<ExprView>) -> bool {
    forall|i: int| 0 <= i < subs.len() ==> fixed_subscript(#[trigger] subs[i]) is Some
}

/// The values of fixed subscripts, separated by commas.
pub open spec fn fixed_text(subs: Seq<ExprView>) -> Seq<char> {
    join_text(
        Seq::new(subs.len(), |i: int| int_text(fixed_subscript(subs[i])->0 as int)),
        ","@,
    )
}

fn render_static_subscripts(subs: &Vec<Expression>) -> (r: Option<String>)
    ensures
        match r {
            Some(s) => all_fixed(expr_views(subs@)) && s@ == fixed_text(expr_views(subs@)),
            None => !all_fixed(expr_views(subs@)),
        },
{
    let ghost list = expr_views(subs@);
    let ghost texts = Seq::new(
        list.len(),
        |i: int| int_text(fixed_subscript(list[i])->0 as int),
    );
    let mut out = String::new();
    let mut i: usize = 0;
    assert(out@ =~= join_text(texts.take(0), ","@));
    while i < subs.len()
        invariant
            i <= subs.len(),
            list == expr_views(subs@),
            texts == Seq::new(
                list.len(),
                |i: int| int_text(fixed_subscript(list[i])->0 as int),
            ),
            forall|k: int| 0 <= k < i ==> fixed_subscript(#[trigger] list[k]) is Some,
            out@ == join_text(texts.take(i as int), ","@),
        decreases subs.len() - i,
    {
        assert(list[i as int] == subs@[i as int]@);
        match static_subscript_index(&subs[i]) {
            Some(v) => {
                assert(texts.take(i as int + 1).drop_last() =~= texts.take(i as int));
                if i > 0 {
                    out.append(",");
                }
                push_int(&mut out, v);
                i = i + 1;
                assert(out@ =~= join_text(texts.take(i as int), ","@));
            },
            None => {
                return None;
            },
        }
    }
    assert(texts.take(i as int) =~= texts);
    Some(out)
}

/// Name and subscripts of what an expression denotes, where it denotes a
/// variable, an element or a field and not a left limit.
pub open spec fn target_parts(e: ExprView) -> Result<
    Option<(Seq<char>, Seq<ExprView>)>,
    ToDaeErrorView,
>
    decreases e,
{
    match e.node {
        NodeView::VarRef { name } => if is_pre_name(name) {
            Ok(None)
        } else {
            let (stem, subs) = encoded_parts(name);
            if subs.len() > 0 && e.span == Span::dummy_spec() {
                Err(missing_provenance("encoded pre() target subscript"@))
            } else {
                Ok(Some((stem, index_subscripts(subs, e.span) + e.args)))
            }
        },
        NodeView::Index => if e.args.len() == 0 {
            Ok(None)
        } else {
            match target_parts(e.args[0]) {
                Ok(Some((name, subs))) => Ok(Some((name, subs + e.args.skip(1)))),
                Ok(None) => Ok(None),
                Err(x) => Err(x),
            }
        },
        NodeView::FieldAccess { field } => if e.args.len() == 0 {
            Ok(None)
        } else {
            match target_parts(e.args[0]) {
                Ok(Some((name, subs))) => if subs.len() == 0 {
                    Ok(Some((name + "."@ + field, Seq::empty())))
                } else if all_fixed(subs) {
                    Ok(
                        Some(
                            (
                                name + "["@ + fixed_text(subs) + "]."@ + field,
                                Seq::empty(),
                            ),
                        ),
                    )
                } else {
                    Ok(None)
                },
                Ok(None) => Ok(None),
                Err(x) => Err(x),
            }
        },
        _ => Ok(None),
    }
}

/// A list followed by copies of the operands from `from` on.
fn extend_with_operands(list: Vec<Expression>, e: &Expression, from: usize) -> (r: Vec<Expression>)
    requires
        from <= e.args@.len(),
    ensures
        expr_views(r@) == expr_views(list@) + e@.args.skip(from as int),
{
    proof {
        lemma_view_args(*e);
    }
    let ghost front = expr_views(list@);
    let mut r = list;
    let mut i: usize = from;
    assert(expr_views(r@) =~= front + e@.args.subrange(from as int, from as int));
    while i < e.args.len()
        invariant
            from <= i <= e.args@.len(),
            e@.args == expr_views(e.args@),
            expr_views(r@) == front + e@.args.subrange(from as int, i as int),
        decreases e.args.len() - i,
    {
        let copy = e.args[i].clone();
        proof {
            lemma_expr_views_push(r@, copy);
        }
        r.push(copy);
        i = i + 1;
        assert(expr_views(r@) =~= front + e@.args.subrange(from as int, i as int));
    }
    assert(e@.args.subrange(from as int, i as int) =~= e@.args.skip(from as int));
    r
}

/// Name and subscripts of what an expression denotes.
pub fn pre_target_parts(e: &Expression) -> (r: Result<
    Option<(String, Vec<Expression>)>,
    ToDaeError,
>)
    ensures
        match r {
            Ok(Some((name, subs))) => target_parts(e@) == Ok::<_, ToDaeErrorView>(
                Some((name@, expr_views(subs@))),
            ),
            Ok(None) => target_parts(e@) == Ok::<_, ToDaeErrorView>(
                None::<(Seq<char>, Seq<ExprView>)>,
            ),
            Err(x) => target_parts(e@) == Err::<Option<(Seq<char>, Seq<ExprView>)>, _>(x@),
        },
    decreases e,
{
    proof {
        lemma_view_args(*e);
    }
    match &e.node {
        Node::VarRef { name } => {
            if is_pre_parameter_name(name.as_str()) {
                return Ok(None);
            }
            let (stem, subs) = split_encoded(name.as_str());
            if subs.len() > 0 && e.span.is_dummy() {
                return Err(missing_provenance_error("encoded pre() target subscript"));
            }
            let all = extend_with_operands(make_index_subscripts(&subs, e.span), e, 0);
            assert(e@.args.skip(0) =~= e@.args);
            Ok(Some((stem, all)))
        },
        Node::Index => {
            if e.args.len() == 0 {
                return Ok(None);
            }
            match pre_target_parts(&e.args[0]) {
                Ok(Some((name, subs))) => Ok(Some((name, extend_with_operands(subs, e, 1)))),
                Ok(None) => Ok(None),
                Err(x) => Err(x),
            }
        },
        Node::FieldAccess { field } => {
            if e.args.len() == 0 {
                return Ok(None);
            }
            match pre_target_parts(&e.args[0]) {
                Ok(Some((name, subs))) => {
                    let mut text = name;
                    let none: Vec<Expression> = Vec::new();
                    assert(expr_views(none@) =~= Seq::<ExprView>::empty());
                    assert(expr_views(subs@).len() == subs@.len());
                    if subs.len() == 0 {
                        text.append(".");
                        text.append(field.as_str());
                        Ok(Some((text, none)))
                    } else {
                        match render_static_subscripts(&subs) {
                            Some(rendered) => {
                                text.append("[");
                                text.append(rendered.as_str());
                                text.append("].");
                                text.append(field.as_str());
                                Ok(Some((text, none)))
                            },
                            None => Ok(None),
                        }
                    }
                },
                Ok(None) => Ok(None),
                Err(x) => Err(x),
            }
        },
        _ => Ok(None),
    }
}

/// The source position of a subscript or of what it computes.
pub open spec fn subscript_source(sub: ExprView) -> Option<Span> {
    match sub.source() {
        Some(span) => Some(span),
        None => if sub.node is SubscriptExpr && sub.args.len() > 0 {
            sub.args[0].source()
        } else {
            None
        },
    }
}

/// The first source position among the first `n` subscripts.
pub open spec fn subscripts_source(subs: Seq<ExprView>, n: int) -> Option<Span>
    decreases n,
{
    if n <= 0 {
        None
    } else {
        match subscripts_source(subs, n - 1) {
            Some(span) => Some(span),
            None => subscript_source(subs[n - 1]),
        }
    }
}

/// The source position of a target: that of the expression, else of its
/// subscripts.
pub open spec fn target_span(e: ExprView, subs: Seq<ExprView>, context: Seq<char>) -> Result<
    Span,
    ToDaeErrorView,
> {
    match e.source() {
        Some(span) => Ok(span),
        None => match subscripts_source(subs, subs.len() as int) {
            Some(span) => Ok(span),
            None => Err(missing_provenance(context)),
        },
    }
}

fn subscript_source_span(sub: &Expression) -> (r: Option<Span>)
    ensures
        r == subscript_source(sub@),
{
    proof {
        lemma_view_args(*sub);
    }
    match sub.source_span() {
        Some(span) => Some(span),
        None => {
            match &sub.node {
                Node::SubscriptExpr => {
                    if sub.args.len() == 0 {
                        None
                    } else {
                        sub.args[0].source_span()
                    }
                },
                _ => None,
            }
        },
    }
}

proof fn lemma_subscripts_source_stays(subs: Seq<ExprView>, k: int, n: int)
    requires
        0 <= k <= n,
        subscripts_source(subs, k) is Some,
    ensures
        subscripts_source(subs, n) == subscripts_source(subs, k),
    decreases n,
{
    if k < n {
        lemma_subscripts_source_stays(subs, k, n - 1);
    }
}

fn pre_target_span(e: &Expression, subs: &Vec<Expression>, context: &str) -> (r: Result<
    Span,
    ToDaeError,
>)
    ensures
        match r {
            Ok(span) => target_span(e@, expr_views(subs@), context@) == Ok::<_, ToDaeErrorView>(
                span,
            ),
            Err(x) => target_span(e@, expr_views(subs@), context@) == Err::<Span, _>(x@),
        },
{
    if let Some(span) = e.source_span() {
        return Ok(span);
    }
    let ghost list = expr_views(subs@);
    let mut i: usize = 0;
    while i < subs.len()
        invariant
            i <= subs.len(),
            list == expr_views(subs@),
            e@.source() is None,
            subscripts_source(list, i as int) is None,
        decreases subs.len() - i,
    {
        assert(list[i as int] == subs@[i as int]@);
        if let Some(span) = subscript_source_span(&subs[i]) {
            proof {
                lemma_subscripts_source_stays(list, i + 1, list.len() as int);
            }
            return Ok(span);
        }
        i = i + 1;
    }
    Err(missing_provenance_error(context))
}

/// A variable whose left limit is needed.
#[derive(Debug)]
pub struct PreTarget {
    pub span: Span,
    pub source_name: String,
    pub require_discrete: bool,
    pub allow_continuous_target: bool,
}

/// The mathematical content of a [`PreTarget`].
pub struct PreTargetView {
    pub span: Span,
    pub source_name: Seq<char>,
    pub require_discrete: bool,
    pub allow_continuous_target: bool,
}

impl View for PreTarget {
    type V = PreTargetView;

    open spec fn view(&self) -> PreTargetView {
        PreTargetView {
            span: self.span,
            source_name: self.source_name@,
            require_discrete: self.require_discrete,
            allow_continuous_target: self.allow_continuous_target,
        }
    }
}

/// Targets by name, in the order in which they were found.
pub type Targets = Seq<Named<PreTargetView>>;

/// The targets with one more use of a name. Time needs no left limit. A use
/// that needs a discrete variable, and one that forbids a continuous one, binds
/// all uses.
pub open spec fn with_use(
    targets: Targets,
    name: Seq<char>,
    span: Span,
    require_discrete: bool,
    allow_continuous_target: bool,
) -> Targets {
    if name == "time"@ {
        targets
    } else {
        match value_of_name(targets, name) {
            Some(found) => with_named(
                targets,
                name,
                PreTargetView {
                    require_discrete: found.require_discrete || require_discrete,
                    allow_continuous_target: found.allow_continuous_target
                        && allow_continuous_target,
                    ..found
                },
            ),
            None => with_named(
                targets,
                name,
                PreTargetView {
                    span,
                    source_name: name,
                    require_discrete,
                    allow_continuous_target,
                },
            ),
        }
    }
}

/// Views of a map after a name has been given a value.
pub proof fn lemma_views_with_named<V: View>(map: NameMap<V>, after: NameMap<V>, name: Seq<char>, value: V)
    requires
        map.wf(),
        after.entries() == with_named(map.entries(), name, value),
    ensures
        after.views() == with_named(map.views(), name, value@),
{
    map.lemma_views(name);
    assert(after.views() =~= with_named(map.views(), name, value@));
}

fn insert_pre_target(
    targets: &mut NameMap<PreTarget>,
    name: String,
    span: Span,
    require_discrete: bool,
    allow_continuous_target: bool,
)
    requires
        old(targets).wf(),
    ensures
        final(targets).wf(),
        final(targets).views() == with_use(
            old(targets).views(),
            name@,
            span,
            require_discrete,
            allow_continuous_target,
        ),
{
    if same_text(name.as_str(), "time") {
        return;
    }
    proof {
        targets.lemma_views(name@);
    }
    let target = match targets.get(name.as_str()) {
        Some(found) => PreTarget {
            span: found.span,
            source_name: found.source_name.clone(),
            require_discrete: found.require_discrete || require_discrete,
            allow_continuous_target: found.allow_continuous_target && allow_continuous_target,
        },
        None => PreTarget {
            span,
            source_name: name.clone(),
            require_discrete,
            allow_continuous_target,
        },
    };
    let ghost before = *targets;
    let ghost content = target;
    targets.insert(name.as_str(), target);
    proof {
        lemma_views_with_named(before, *targets, name@, content);
    }
}

/// The targets after an expression has been read for its left limit.
pub open spec fn value_targets(e: ExprView, targets: Targets) -> Result<Targets, ToDaeErrorView>
    decreases e, e.args.len() + 1,
{
    match target_parts(e) {
        Err(x) => Err(x),
        Ok(Some((name, subs))) => match target_span(e, subs, "pre() value target"@) {
            Ok(span) => Ok(with_use(targets, name, span, false, true)),
            Err(x) => Err(x),
        },
        Ok(None) => if e.node is If && static_choice(e.args, 0) is Some {
            let k = static_choice(e.args, 0)->0;
            if 0 <= k < e.args.len() {
                value_targets(e.args[k], targets)
            } else {
                Ok(targets)
            }
        } else {
            values_targets(e, e.args.len() as int, targets)
        },
    }
}

/// The targets after the first `n` operands have been read for their left
/// limits.
pub open spec fn values_targets(e: ExprView, n: int, targets: Targets) -> Result<
    Targets,
    ToDaeErrorView,
>
    decreases e, n,
{
    if n <= 0 || n > e.args.len() {
        Ok(targets)
    } else {
        match values_targets(e, n - 1, targets) {
            Ok(found) => value_targets(e.args[n - 1], found),
            Err(x) => Err(x),
        }
    }
}

proof fn lemma_values_error_stays(e: ExprView, k: int, n: int, targets: Targets)
    requires
        0 <= k <= n <= e.args.len(),
        values_targets(e, k, targets) is Err,
    ensures
        values_targets(e, n, targets) == values_targets(e, k, targets),
    decreases n,
{
    if k < n {
        lemma_values_error_stays(e, k, n - 1, targets);
    }
}

/// What a collecting step gives: an error or the targets it leaves.
pub open spec fn collected(
    r: Result<(), ToDaeError>,
    after: NameMap<PreTarget>,
    expected: Result<Targets, ToDaeErrorView>,
) -> bool {
    match r {
        Ok(()) => expected == Ok::<_, ToDaeErrorView>(after.views()),
        Err(x) => expected == Err::<Targets, _>(x@),
    }
}

fn collect_value_operands(e: &Expression, targets: &mut NameMap<PreTarget>) -> (r: Result<
    (),
    ToDaeError,
>)
    requires
        old(targets).wf(),
    ensures
        final(targets).wf(),
        collected(
            r,
            *final(targets),
            values_targets(e@, e@.args.len() as int, old(targets).views()),
        ),
    decreases e, e.args@.len(),
{
    proof {
        lemma_view_args(*e);
    }
    let mut i: usize = 0;
    while i < e.args.len()
        invariant
            i <= e.args@.len(),
            e@.args == expr_views(e.args@),
            targets.wf(),
            values_targets(e@, i as int, old(targets).views()) == Ok::<_, ToDaeErrorView>(
                targets.views(),
            ),
        decreases e.args.len() - i,
    {
        if let Err(x) = collect_pre_targets_from_pre_expr(&e.args[i], targets) {
            proof {
                lemma_values_error_stays(e@, i + 1, e@.args.len() as int, old(targets).views());
            }
            return Err(x);
        }
        i = i + 1;
    }
    Ok(())
}

/// Adds the variables whose left limits make up the left limit of `e`.
pub fn collect_pre_targets_from_pre_expr(e: &Expression, targets: &mut NameMap<PreTarget>) -> (r:
    Result<(), ToDaeError>)
    requires
        old(targets).wf(),
    ensures
        final(targets).wf(),
        collected(r, *final(targets), value_targets(e@, old(targets).views())),
    decreases e, e.args@.len() + 1,
{
    proof {
        lemma_view_args(*e);
    }
    match pre_target_parts(e) {
        Err(x) => {
            return Err(x);
        },
        Ok(Some((name, subs))) => {
            match pre_target_span(e, &subs, "pre() value target") {
                Ok(span) => {
                    insert_pre_target(targets, name, span, false, true);
                    return Ok(());
                },
                Err(x) => {
                    return Err(x);
                },
            }
        },
        Ok(None) => {},
    }
    if let Node::If = &e.node {
        if let Some(k) = selected_static_if_branch(e) {
            return collect_pre_targets_from_pre_expr(&e.args[k], targets);
        }
    }
    collect_value_operands(e, targets)
}

/// Whether an expression is the time itself.
pub open spec fn is_time(e: ExprView) -> bool {
    e.node == (NodeView::VarRef { name: "time"@ }) && e.args.len() == 0
}

/// Whether an expression is the time itself.
pub fn is_time_var_ref(e: &Expression) -> (r: bool)
    ensures
        r == is_time(e@),
{
    proof {
        lemma_view_args(*e);
    }
    match &e.node {
        Node::VarRef { name } => same_text(name.as_str(), "time") && e.args.len() == 0,
        _ => false,
    }
}

/// The targets after the call itself has been looked at: the argument of a
/// left limit, the argument of an edge, change or delay, the sampled value.
pub open spec fn call_targets(e: ExprView, allow: bool, targets: Targets) -> Result<
    Targets,
    ToDaeErrorView,
> {
    match temporal_of(e.node) {
        Some(Temporal::Pre) => if e.args.len() == 0 {
            Ok(targets)
        } else {
            match target_parts(e.args[0]) {
                Ok(Some((name, subs))) => match target_span(e.args[0], subs, "pre() target"@) {
                    Ok(span) => Ok(with_use(targets, name, span, true, allow)),
                    Err(x) => Err(x),
                },
                Ok(None) => values_targets(e, e.args.len() as int, targets),
                Err(x) => Err(x),
            }
        },
        Some(Temporal::Sample) => if (e.args.len() == 1 || e.args.len() == 2) && !is_time(
            e.args[0],
        ) {
            value_targets(e.args[0], targets)
        } else {
            Ok(targets)
        },
        Some(_) => if e.args.len() > 0 {
            value_targets(e.args[0], targets)
        } else {
            Ok(targets)
        },
        None => Ok(targets),
    }
}

/// The targets after an expression has been searched for temporal calls.
pub open spec fn expr_targets(e: ExprView, allow: bool, targets: Targets) -> Result<
    Targets,
    ToDaeErrorView,
>
    decreases e, e.args.len() + 1,
{
    match call_targets(e, allow, targets) {
        Ok(found) => operand_targets(e, e.args.len() as int, allow, found),
        Err(x) => Err(x),
    }
}

/// The targets after the first `n` operands have been searched.
pub open spec fn operand_targets(e: ExprView, n: int, allow: bool, targets: Targets) -> Result<
    Targets,
    ToDaeErrorView,
>
    decreases e, n,
{
    if n <= 0 || n > e.args.len() {
        Ok(targets)
    } else {
        match operand_targets(e, n - 1, allow, targets) {
            Ok(found) => expr_targets(e.args[n - 1], allow, found),
            Err(x) => Err(x),
        }
    }
}

proof fn lemma_operand_error_stays(e: ExprView, k: int, n: int, allow: bool, targets: Targets)
    requires
        0 <= k <= n <= e.args.len(),
        operand_targets(e, k, allow, targets) is Err,
    ensures
        operand_targets(e, n, allow, targets) == operand_targets(e, k, allow, targets),
    decreases n,
{
    if k < n {
        lemma_operand_error_stays(e, k, n - 1, allow, targets);
    }
}

fn collect_call(e: &Expression, allow: bool, targets: &mut NameMap<PreTarget>) -> (r: Result<
    (),
    ToDaeError,
>)
    requires
        old(targets).wf(),
    ensures
        final(targets).wf(),
        collected(r, *final(targets), call_targets(e@, allow, old(targets).views())),
{
    proof {
        lemma_view_args(*e);
    }
    match temporal_call(&e.node) {
        Some(Temporal::Pre) => {
            if e.args.len() == 0 {
                return Ok(());
            }
            match pre_target_parts(&e.args[0]) {
                Ok(Some((name, subs))) => {
                    match pre_target_span(&e.args[0], &subs, "pre() target") {
                        Ok(span) => {
                            insert_pre_target(targets, name, span, true, allow);
                            Ok(())
                        },
                        Err(x) => Err(x),
                    }
                },
                Ok(None) => collect_value_operands(e, targets),
                Err(x) => Err(x),
            }
        },
        Some(Temporal::Sample) => {
            if (e.args.len() == 1 || e.args.len() == 2) && !is_time_var_ref(&e.args[0]) {
                collect_pre_targets_from_pre_expr(&e.args[0], targets)
            } else {
                Ok(())
            }
        },
        Some(_) => {
            if e.args.len() > 0 {
                collect_pre_targets_from_pre_expr(&e.args[0], targets)
            } else {
                Ok(())
            }
        },
        None => Ok(()),
    }
}

/// Adds the variables whose left limits the temporal calls in `e` need.
pub fn collect_pre_targets_from_expr(
    e: &Expression,
    targets: &mut NameMap<PreTarget>,
    allow_continuous_target: bool,
) -> (r: Result<(), ToDaeError>)
    requires
        old(targets).wf(),
    ensures
        final(targets).wf(),
        collected(
            r,
            *final(targets),
            expr_targets(e@, allow_continuous_target, old(targets).views()),
        ),
    decreases e,
{
    proof {
        lemma_view_args(*e);
    }
    if let Err(x) = collect_call(e, allow_continuous_target, targets) {
        return Err(x);
    }
    let ghost start = targets.views();
    let mut i: usize = 0;
    while i < e.args.len()
        invariant
            i <= e.args@.len(),
            e@.args == expr_views(e.args@),
            targets.wf(),
            call_targets(e@, allow_continuous_target, old(targets).views()) == Ok::<
                _,
                ToDaeErrorView,
            >(start),
            operand_targets(e@, i as int, allow_continuous_target, start) == Ok::<
                _,
                ToDaeErrorView,
            >(targets.views()),
        decreases e.args.len() - i,
    {
        if let Err(x) = collect_pre_targets_from_expr(
            &e.args[i],
            targets,
            allow_continuous_target,
        ) {
            proof {
                lemma_operand_error_stays(
                    e@,
                    i + 1,
                    e@.args.len() as int,
                    allow_continuous_target,
                    start,
                );
            }
            return Err(x);
        }
        i = i + 1;
    }
    Ok(())
}

} // verus!
