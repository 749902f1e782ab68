//! Integers and truth values that are known while a model is instantiated.
//!
//! Sizes, conditions and the values of parameters are evaluated where they are
//! written: under the modifications in force there, and with the declarations of the
//! class around them.
use crate::dae::const_eval::{
    binary_value, const_value, eval_binary, eval_const_expr, eval_unary, unary_value, ConstValue,
};
use crate::expr::tree::{
    expr_views, lemma_view_args, ExprView, Expression, Literal, LiteralView, Node, NodeView,
    OpBinary,
};
use crate::instantiate::tree::{
    component_views, said_modifications, Component, ComponentView,
};
use crate::ir::id_map::IdMap;
use crate::ir::instance::{InstanceData, InstanceView, Variability};
use crate::ir::modification::{
    lemma_modification_views, modification_of, modification_views, ModificationEnvironment,
    ModificationValue, ModificationView,
};
use crate::ir::name::{path_segments, PartView, QualifiedName};
use crate::ir::path_map::Entry;
use crate::span::Span;
use crate::text::same_text;
use vstd::prelude::*;

verus! {

/// Where an expression is evaluated: the instance around it, what is modified there,
/// the components of its class, the loops around it, the innermost last, and the
/// instances that are there already.
pub struct EvalPlace {
    pub mods: Seq<Entry<ModificationView>>,
    pub path: Seq<PartView>,
    pub components: Seq<ComponentView>,
    pub locals: Seq<(Seq<char>, i64)>,
    pub recorded: Seq<(u32, InstanceView)>,
}

/// The indices of loops and their values.
pub open spec fn local_views(list: Seq<(String, i64)>) -> Seq<(Seq<char>, i64)> {
    list.map_values(|p: (String, i64)| (p.0@, p.1))
}

/// The value of an index among the first `n`, the innermost where there are several.
pub open spec fn local_value(locals: Seq<(Seq<char>, i64)>, name: Seq<char>, n: int) -> Option<i64>
    decreases n,
{
    if n <= 0 {
        None
    } else if locals[n - 1].0 == name {
        Some(locals[n - 1].1)
    } else {
        local_value(locals, name, n - 1)
    }
}

/// The value of an index of the loops around a place.
pub open spec fn index_value(path: Seq<PartView>, at: EvalPlace) -> Option<i64> {
    if path.len() == 1 && path[0].1.len() == 0 {
        local_value(at.locals, path[0].0, at.locals.len() as int)
    } else {
        None
    }
}

/// Whether what has this variability stays the same throughout the simulation.
pub open spec fn is_fixed(variability: Variability) -> bool {
    variability is Parameter || variability is Constant
}

fn stays_fixed(variability: Variability) -> (r: bool)
    ensures
        r == is_fixed(variability),
{
    match variability {
        Variability::Parameter | Variability::Constant => true,
        _ => false,
    }
}

/// The value of the instance at a path among the first `n`, the last where there are
/// several. One that may change has none.
pub open spec fn recorded_value(
    recorded: Seq<(u32, InstanceView)>,
    path: Seq<PartView>,
    n: int,
) -> Option<ExprView>
    decreases n,
{
    if n <= 0 {
        None
    } else if recorded[n - 1].1.qualified_name == path {
        if is_fixed(recorded[n - 1].1.variability) {
            recorded[n - 1].1.binding
        } else {
            None
        }
    } else {
        recorded_value(recorded, path, n - 1)
    }
}

/// The value of what a path names, where the class declares nothing of it.
pub open spec fn value_of_instance(path: Seq<PartView>, at: EvalPlace) -> Option<ConstValue> {
    match recorded_value(at.recorded, at.path + path, at.recorded.len() as int) {
        Some(value) => const_value(value),
        None => None,
    }
}

/// The names between the dots of a text, without subscripts.
pub open spec fn dotted_path(name: Seq<char>) -> Seq<PartView> {
    path_segments(name).map_values(|p: Seq<char>| (p, Seq::<i64>::empty()))
}

/// The path that a reference without subscripts names.
pub open spec fn reference_path(e: ExprView) -> Option<Seq<PartView>>
    decreases e,
{
    match e.node {
        NodeView::VarRef { name } => if e.args.len() == 0 {
            Some(dotted_path(name))
        } else {
            None
        },
        NodeView::FieldAccess { field } => if e.args.len() == 1 {
            match reference_path(e.args[0]) {
                Some(path) => Some(path.push((field, Seq::<i64>::empty()))),
                None => None,
            }
        } else {
            None
        },
        _ => None,
    }
}

/// The first of the first `n` components with a name.
pub open spec fn component_named_in(
    components: Seq<ComponentView>,
    name: Seq<char>,
    n: int,
) -> Option<int>
    decreases n,
{
    if n <= 0 {
        None
    } else {
        match component_named_in(components, name, n - 1) {
            Some(i) => Some(i),
            None => if components[n - 1].name == name {
                Some(n - 1)
            } else {
                None
            },
        }
    }
}

/// The component with a name.
pub open spec fn component_named(components: Seq<ComponentView>, name: Seq<char>) -> Option<int> {
    component_named_in(components, name, components.len() as int)
}

/// What the first of the first `n` modifications of a target says.
pub open spec fn own_value_in(
    own: Seq<Entry<ModificationView>>,
    target: Seq<PartView>,
    n: int,
) -> Option<ExprView>
    decreases n,
{
    if n <= 0 {
        None
    } else {
        match own_value_in(own, target, n - 1) {
            Some(value) => Some(value),
            None => if own[n - 1].0 == target {
                Some(own[n - 1].1.value)
            } else {
                None
            },
        }
    }
}

/// Whether the value of a component is fixed before a simulation.
pub open spec fn has_fixed_value(comp: ComponentView) -> bool {
    comp.variability is Parameter || comp.variability is Constant || comp.is_structural
}

/// The conjunction or disjunction of what is known of two operands: one operand that
/// decides is enough.
pub open spec fn combined_value(
    op: OpBinary,
    a: Option<ConstValue>,
    b: Option<ConstValue>,
) -> Option<ConstValue> {
    let decides = ConstValue::Boolean(op is Or);
    if (op is And || op is Or) && (a == Some(decides) || b == Some(decides)) {
        Some(decides)
    } else {
        match (a, b) {
            (Some(x), Some(y)) => binary_value(op, x, y),
            _ => None,
        }
    }
}

/// The value of an expression at a place, through at most so many declarations;
/// nothing where it is not known. A reference is the index of a loop, else what a
/// modification gives it, else what is declared of it, else the value of an instance.
pub open spec fn value_at(e: ExprView, at: EvalPlace, fuel: nat) -> Option<ConstValue>
    decreases fuel, e, e.args.len() + 1,
{
    match e.node {
        NodeView::Literal(LiteralView::Integer(v)) => Some(ConstValue::Integer(v)),
        NodeView::Literal(LiteralView::Boolean(b)) => Some(ConstValue::Boolean(b)),
        NodeView::SubscriptIndex(v) => Some(ConstValue::Integer(v)),
        NodeView::SubscriptExpr => if e.args.len() == 1 {
            value_at(e.args[0], at, fuel)
        } else {
            None
        },
        NodeView::Unary(op) => if e.args.len() == 1 {
            match value_at(e.args[0], at, fuel) {
                Some(a) => unary_value(op, a),
                None => None,
            }
        } else {
            None
        },
        NodeView::Binary(op) => if e.args.len() == 2 {
            combined_value(op, value_at(e.args[0], at, fuel), value_at(e.args[1], at, fuel))
        } else {
            None
        },
        NodeView::If => branch_value(e, 0, at, fuel),
        _ => match reference_path(e) {
            Some(path) => if index_value(path, at) is Some {
                Some(ConstValue::Integer(index_value(path, at)->0))
            } else {
                match modification_of(at.mods, at.path + path) {
                    Some(m) => const_value(m.value),
                    None => match declared_value(path, at.components) {
                        Some(value) => if fuel > 0 {
                            value_at(value, at, (fuel - 1) as nat)
                        } else {
                            None
                        },
                        None => value_of_instance(path, at),
                    },
                }
            },
            None => None,
        },
    }
}

/// The value of the first branch from an operand on whose condition holds.
pub open spec fn branch_value(e: ExprView, k: int, at: EvalPlace, fuel: nat) -> Option<ConstValue>
    decreases fuel, e, e.args.len() - k,
{
    if k < 0 || k >= e.args.len() {
        None
    } else if k + 1 == e.args.len() {
        value_at(e.args[k], at, fuel)
    } else {
        match value_at(e.args[k], at, fuel) {
            Some(ConstValue::Boolean(true)) => value_at(e.args[k + 1], at, fuel),
            Some(ConstValue::Boolean(false)) => branch_value(e, k + 2, at, fuel),
            _ => None,
        }
    }
}

/// What the components of a class declare of a path: the value of a component whose
/// value is fixed, or what a component says of what is inside it.
pub open spec fn declared_value(path: Seq<PartView>, components: Seq<ComponentView>) -> Option<
    ExprView,
> {
    if path.len() == 0 || path[0].1.len() > 0 {
        None
    } else {
        match component_named(components, path[0].0) {
            None => None,
            Some(i) => if path.len() == 1 {
                if has_fixed_value(components[i]) {
                    components[i].binding
                } else {
                    None
                }
            } else {
                own_value_in(
                    components[i].modifications,
                    path.skip(1),
                    components[i].modifications.len() as int,
                )
            },
        }
    }
}

/// How many declarations a value at a place may go through: as many as the class has
/// components.
pub open spec fn reach(at: EvalPlace) -> nat {
    at.components.len()
}

/// The value of an expression at a place, where it is known.
pub open spec fn structural_value(e: ExprView, at: EvalPlace) -> Option<ConstValue> {
    value_at(e, at, reach(at))
}

/// An [`EvalPlace`] at hand.
pub struct EvalScope<'a> {
    pub env: &'a ModificationEnvironment,
    pub path: &'a QualifiedName,
    pub components: &'a Vec<Component>,
    pub locals: &'a Vec<(String, i64)>,
    pub recorded: Option<&'a IdMap<InstanceData>>,
}

/// The instances that are there already.
pub open spec fn instances_of(recorded: Option<&IdMap<InstanceData>>) -> Seq<(u32, InstanceView)> {
    match recorded {
        Some(map) => map.views(),
        None => Seq::empty(),
    }
}

impl<'a> EvalScope<'a> {
    pub open spec fn place(self) -> EvalPlace {
        EvalPlace {
            mods: modification_views(self.env.entries()),
            path: self.path@,
            components: component_views(self.components@),
            locals: local_views(self.locals@),
            recorded: instances_of(self.recorded),
        }
    }

    pub open spec fn wf(self) -> bool {
        self.env.wf() && (self.recorded matches Some(map) ==> map.wf())
    }
}

/// The path that a reference without subscripts names.
pub fn make_reference_path(e: &Expression) -> (r: Option<QualifiedName>)
    ensures
        match r {
            Some(path) => reference_path(e@) == Some(path@),
            None => reference_path(e@) is None,
        },
    decreases e,
{
    proof {
        lemma_view_args(*e);
    }
    match &e.node {
        Node::VarRef { name } => {
            if e.args.len() != 0 {
                return None;
            }
            Some(QualifiedName::from_dotted(name.as_str()))
        },
        Node::FieldAccess { field } => {
            if e.args.len() != 1 {
                return None;
            }
            match make_reference_path(&e.args[0]) {
                Some(path) => {
                    let r = path.child(field.as_str());
                    assert(r@ =~= path@.push((field@, Seq::<i64>::empty())));
                    Some(r)
                },
                None => None,
            }
        },
        _ => None,
    }
}

/// The component with a name.
pub fn find_component(components: &Vec<Component>, name: &str) -> (r: Option<usize>)
    ensures
        match r {
            Some(i) => component_named(component_views(components@), name@) == Some(i as int) && i
                < components@.len(),
            None => component_named(component_views(components@), name@) is None,
        },
{
    let ghost all = component_views(components@);
    let mut i: usize = 0;
    while i < components.len()
        invariant
            all == component_views(components@),
            i <= components@.len(),
            component_named_in(all, name@, i as int) is None,
        decreases components.len() - i,
    {
        assert(all[i as int] == components@[i as int]@);
        if same_text(components[i].name.as_str(), name) {
            proof {
                lemma_named_stays(all, name@, i + 1, all.len() as int);
            }
            return Some(i);
        }
        i = i + 1;
    }
    None
}

proof fn lemma_named_stays(components: Seq<ComponentView>, name: Seq<char>, k: int, n: int)
    requires
        0 <= k <= n,
        component_named_in(components, name, k) is Some,
    ensures
        component_named_in(components, name, n) == component_named_in(components, name, k),
    decreases n,
{
    if k < n {
        lemma_named_stays(components, name, k, n - 1);
    }
}

proof fn lemma_own_value_stays(
    own: Seq<Entry<ModificationView>>,
    target: Seq<PartView>,
    k: int,
    n: int,
)
    requires
        0 <= k <= n,
        own_value_in(own, target, k) is Some,
    ensures
        own_value_in(own, target, n) == own_value_in(own, target, k),
    decreases n,
{
    if k < n {
        lemma_own_value_stays(own, target, k, n - 1);
    }
}

fn find_own_value<'a>(
    own: &'a Vec<(QualifiedName, ModificationValue)>,
    target: &QualifiedName,
) -> (r: Option<&'a Expression>)
    ensures
        match r {
            Some(value) => own_value_in(
                said_modifications(own@),
                target@,
                own@.len() as int,
            ) == Some(value@),
            None => own_value_in(said_modifications(own@), target@, own@.len() as int) is None,
        },
{
    let ghost said = said_modifications(own@);
    let mut i: usize = 0;
    while i < own.len()
        invariant
            said == said_modifications(own@),
            i <= own@.len(),
            own_value_in(said, target@, i as int) is None,
        decreases own.len() - i,
    {
        assert(said[i as int] == (own@[i as int].0@, own@[i as int].1@));
        if own[i].0.same_path(target) {
            proof {
                lemma_own_value_stays(said, target@, i + 1, said.len() as int);
            }
            return Some(&own[i].1.value);
        }
        i = i + 1;
    }
    None
}

fn find_declared_value<'a>(path: &QualifiedName, components: &'a Vec<Component>) -> (r: Option<
    &'a Expression,
>)
    ensures
        match r {
            Some(value) => declared_value(path@, component_views(components@)) == Some(value@),
            None => declared_value(path@, component_views(components@)) is None,
        },
{
    if path.parts.len() == 0 {
        return None;
    }
    assert(path@[0] == (path.parts@[0].0@, path.parts@[0].1@));
    if path.parts[0].1.len() > 0 {
        return None;
    }
    let i: usize = match find_component(components, path.parts[0].0.as_str()) {
        Some(i) => i,
        None => {
            return None;
        },
    };
    let comp = &components[i];
    assert(component_views(components@)[i as int] == comp@);
    if path.parts.len() == 1 {
        let is_fixed: bool = match comp.variability {
            Variability::Parameter => true,
            Variability::Constant => true,
            _ => comp.is_structural,
        };
        if !is_fixed {
            return None;
        }
        match &comp.binding {
            Some(value) => Some(value),
            None => None,
        }
    } else {
        let rest = QualifiedName {
            parts: crate::ir::name::copy_parts(&path.parts, 1, path.parts.len()),
        };
        assert(rest@ =~= path@.skip(1));
        find_own_value(&comp.modifications, &rest)
    }
}

fn find_index_value(path: &QualifiedName, at: &EvalScope<'_>) -> (r: Option<i64>)
    ensures
        r == index_value(path@, at.place()),
{
    if path.parts.len() != 1 {
        return None;
    }
    assert(path@[0] == (path.parts@[0].0@, path.parts@[0].1@));
    if path.parts[0].1.len() > 0 {
        return None;
    }
    let ghost all = local_views(at.locals@);
    let name = path.parts[0].0.as_str();
    let mut i: usize = at.locals.len();
    while i > 0
        invariant
            all == local_views(at.locals@),
            path@.len() == 1,
            path@[0].0 == name@,
            path@[0].1.len() == 0,
            i <= at.locals@.len(),
            local_value(all, name@, all.len() as int) == local_value(all, name@, i as int),
        decreases i,
    {
        assert(all[i - 1] == (at.locals@[i - 1].0@, at.locals@[i - 1].1));
        if same_text(at.locals[i - 1].0.as_str(), name) {
            return Some(at.locals[i - 1].1);
        }
        i = i - 1;
    }
    None
}

fn find_instance_value(path: &QualifiedName, at: &EvalScope<'_>) -> (r: Option<ConstValue>)
    requires
        at.wf(),
    ensures
        r == value_of_instance(path@, at.place()),
{
    let map = match at.recorded {
        Some(map) => map,
        None => {
            return None;
        },
    };
    let ghost all = map.views();
    let target = at.path.join(path);
    let mut i: usize = map.len();
    while i > 0
        invariant
            map.wf(),
            at.recorded == Some(map),
            target@ == at.path@ + path@,
            all == map.views(),
            i <= map.entries().len(),
            all.len() == map.entries().len(),
            recorded_value(all, target@, all.len() as int) == recorded_value(
                all,
                target@,
                i as int,
            ),
        decreases i,
    {
        let data = map.value_at(i - 1);
        assert(all[i - 1].1 == data@);
        if data.qualified_name.same_path(&target) {
            if !stays_fixed(data.variability) {
                return None;
            }
            return match &data.binding {
                Some(value) => eval_const_expr(value),
                None => None,
            };
        }
        i = i - 1;
    }
    None
}

fn combine(op: OpBinary, a: Option<ConstValue>, b: Option<ConstValue>) -> (r: Option<ConstValue>)
    ensures
        r == combined_value(op, a, b),
{
    let decides: Option<bool> = match op {
        OpBinary::And => Some(false),
        OpBinary::Or => Some(true),
        _ => None,
    };
    if let Some(d) = decides {
        if let Some(ConstValue::Boolean(x)) = a {
            if x == d {
                return Some(ConstValue::Boolean(d));
            }
        }
        if let Some(ConstValue::Boolean(y)) = b {
            if y == d {
                return Some(ConstValue::Boolean(d));
            }
        }
    }
    match (a, b) {
        (Some(x), Some(y)) => eval_binary(op, x, y),
        _ => None,
    }
}

fn evaluate(e: &Expression, at: &EvalScope<'_>, fuel: usize) -> (r: Option<ConstValue>)
    requires
        at.wf(),
    ensures
        r == value_at(e@, at.place(), fuel as nat),
    decreases fuel, e, e.args@.len() + 1,
{
    proof {
        lemma_view_args(*e);
    }
    match &e.node {
        Node::Literal(Literal::Integer(v)) => Some(ConstValue::Integer(*v)),
        Node::Literal(Literal::Boolean(b)) => Some(ConstValue::Boolean(*b)),
        Node::SubscriptIndex(v) => Some(ConstValue::Integer(*v)),
        Node::SubscriptExpr => {
            if e.args.len() != 1 {
                return None;
            }
            evaluate(&e.args[0], at, fuel)
        },
        Node::Unary(op) => {
            if e.args.len() != 1 {
                return None;
            }
            match evaluate(&e.args[0], at, fuel) {
                Some(a) => eval_unary(*op, a),
                None => None,
            }
        },
        Node::Binary(op) => {
            if e.args.len() != 2 {
                return None;
            }
            let a = evaluate(&e.args[0], at, fuel);
            let b = evaluate(&e.args[1], at, fuel);
            combine(*op, a, b)
        },
        Node::If => evaluate_branch(e, 0, at, fuel),
        _ => match make_reference_path(e) {
            Some(path) => {
                if let Some(v) = find_index_value(&path, at) {
                    return Some(ConstValue::Integer(v));
                }
                let target = at.path.join(&path);
                proof {
                    at.env.active.lemma_distinct();
                    lemma_modification_views(at.env.entries(), target@);
                }
                match at.env.get(&target) {
                    Some(m) => eval_const_expr(&m.value),
                    None => match find_declared_value(&path, at.components) {
                        Some(value) => {
                            if fuel == 0 {
                                return None;
                            }
                            evaluate(value, at, fuel - 1)
                        },
                        None => find_instance_value(&path, at),
                    },
                }
            },
            None => None,
        },
    }
}

fn evaluate_branch(e: &Expression, k: usize, at: &EvalScope<'_>, fuel: usize) -> (r: Option<
    ConstValue,
>)
    requires
        at.wf(),
        k <= e.args@.len(),
    ensures
        r == branch_value(e@, k as int, at.place(), fuel as nat),
    decreases fuel, e, e.args@.len() - k,
{
    proof {
        lemma_view_args(*e);
    }
    if k >= e.args.len() {
        return None;
    }
    if k + 1 == e.args.len() {
        return evaluate(&e.args[k], at, fuel);
    }
    match evaluate(&e.args[k], at, fuel) {
        Some(ConstValue::Boolean(true)) => evaluate(&e.args[k + 1], at, fuel),
        Some(ConstValue::Boolean(false)) => evaluate_branch(e, k + 2, at, fuel),
        _ => None,
    }
}

/// The value of an expression at a place, where it is known.
pub fn evaluate_structural(e: &Expression, at: &EvalScope<'_>) -> (r: Option<ConstValue>)
    requires
        at.wf(),
    ensures
        r == structural_value(e@, at.place()),
{
    evaluate(e, at, at.components.len())
}

/// A known value as an expression.
pub open spec fn literal_of(value: ConstValue, span: Span) -> ExprView {
    ExprView {
        node: NodeView::Literal(
            match value {
                ConstValue::Integer(v) => LiteralView::Integer(v),
                ConstValue::Boolean(b) => LiteralView::Boolean(b),
            },
        ),
        args: Seq::empty(),
        span,
    }
}

/// An expression with its value in its place, where the value is known.
pub open spec fn resolved(e: ExprView, at: EvalPlace) -> ExprView {
    match structural_value(e, at) {
        Some(value) => literal_of(value, e.span),
        None => e,
    }
}

/// An expression with its value in its place, where the value is known.
pub fn resolve_declaration_binding_expr(e: &Expression, at: &EvalScope<'_>) -> (r: Expression)
    requires
        at.wf(),
    ensures
        r@ == resolved(e@, at.place()),
{
    proof {
        lemma_view_args(*e);
    }
    match evaluate_structural(e, at) {
        Some(ConstValue::Integer(v)) => Expression::literal(Literal::Integer(v), e.span),
        Some(ConstValue::Boolean(b)) => Expression::literal(Literal::Boolean(b), e.span),
        None => e.clone(),
    }
}

/// A modification with its value evaluated where it is written. What was written is
/// kept beside the value.
pub open spec fn resolved_modification(m: ModificationView, at: EvalPlace) -> ModificationView {
    if m.value.node is Literal || structural_value(m.value, at) is None {
        m
    } else {
        ModificationView {
            value: resolved(m.value, at),
            source: if m.source is Some {
                m.source
            } else {
                Some(m.value)
            },
            ..m
        }
    }
}

/// A modification with its value evaluated where it is written.
pub fn resolve_modification(m: &ModificationValue, at: &EvalScope<'_>) -> (r: ModificationValue)
    requires
        at.wf(),
    ensures
        r@ == resolved_modification(m@, at.place()),
{
    let mut r = m.clone();
    proof {
        lemma_view_args(m.value);
    }
    let is_literal: bool = match &m.value.node {
        Node::Literal(_) => true,
        _ => false,
    };
    if is_literal || evaluate_structural(&m.value, at).is_none() {
        return r;
    }
    r.value = resolve_declaration_binding_expr(&m.value, at);
    if r.source.is_none() {
        r.source = Some(m.value.clone());
    }
    r
}

/// The integers that the first `n` expressions are, where all are known.
pub open spec fn known_integers(list: Seq<ExprView>, at: EvalPlace, n: int) -> Option<Seq<i64>>
    decreases n,
{
    if n <= 0 {
        Some(Seq::empty())
    } else {
        match (known_integers(list, at, n - 1), structural_value(list[n - 1], at)) {
            (Some(front), Some(ConstValue::Integer(v))) => Some(front.push(v)),
            _ => None,
        }
    }
}

proof fn lemma_unknown_integer_stays(list: Seq<ExprView>, at: EvalPlace, k: int, n: int)
    requires
        0 <= k <= n,
        known_integers(list, at, k) is None,
    ensures
        known_integers(list, at, n) is None,
    decreases n,
{
    if k < n {
        lemma_unknown_integer_stays(list, at, k, n - 1);
    }
}

/// The integers that expressions are, where all are known.
pub fn evaluate_integers(list: &Vec<Expression>, at: &EvalScope<'_>) -> (r: Option<Vec<i64>>)
    requires
        at.wf(),
    ensures
        match r {
            Some(values) => known_integers(expr_views(list@), at.place(), list@.len() as int)
                == Some(values@),
            None => known_integers(expr_views(list@), at.place(), list@.len() as int) is None,
        },
{
    let ghost all = expr_views(list@);
    let mut values: Vec<i64> = Vec::new();
    let mut i: usize = 0;
    assert(values@ =~= Seq::<i64>::empty());
    while i < list.len()
        invariant
            at.wf(),
            all == expr_views(list@),
            i <= list@.len(),
            known_integers(all, at.place(), i as int) == Some(values@),
        decreases list.len() - i,
    {
        assert(all[i as int] == list@[i as int]@);
        match evaluate_structural(&list[i], at) {
            Some(ConstValue::Integer(v)) => {
                values.push(v);
            },
            _ => {
                proof {
                    lemma_unknown_integer_stays(all, at.place(), i + 1, all.len() as int);
                }
                return None;
            },
        }
        i = i + 1;
    }
    Some(values)
}

/// What a modification in force gives a component is its value wherever the
/// component is referred to, whatever its declaration says.
pub proof fn law_modified_value_is_read(name: Seq<char>, at: EvalPlace, e: ExprView)
    requires
        e.node == (NodeView::VarRef { name }),
        e.args.len() == 0,
        at.locals.len() == 0,
        modification_of(at.mods, at.path + dotted_path(name)) is Some,
    ensures
        structural_value(e, at) == const_value(
            modification_of(at.mods, at.path + dotted_path(name))->0.value,
        ),
{
}

} // verus!
