//! Equations, when clauses and algorithms.
use crate::dae::scalar_name::{component_reference_from_flat_name, flat_reference};
use crate::dae::variable::copy_reference;
use crate::expr::tree::{ExprView, Expression};
use crate::ir::name::{
    part_text, render_part, ComponentRefPart, ComponentReference, PartView, QualifiedName,
    ReferencePartView, ReferenceView,
};
use crate::span::Span;
use crate::text::{held, join_text, owned, same_text};
use vstd::prelude::*;

verus! {

/// A name with the component that it refers to, where that is known.
#[derive(Debug)]
pub struct Reference {
    pub name: String,
    pub component_ref: Option<ComponentReference>,
    /// Whether the name was generated and refers to no source component.
    pub generated: bool,
}

/// The mathematical content of a [`Reference`].
pub struct TargetView {
    pub name: Seq<char>,
    pub component_ref: Option<ReferenceView>,
    pub generated: bool,
}

impl View for Reference {
    type V = TargetView;

    open spec fn view(&self) -> TargetView {
        TargetView {
            name: self.name@,
            component_ref: held(self.component_ref),
            generated: self.generated,
        }
    }
}

impl Clone for Reference {
    fn clone(&self) -> (r: Self)
        ensures
            r@ == self@,
    {
        Reference {
            name: self.name.clone(),
            component_ref: copy_reference(&self.component_ref),
            generated: self.generated,
        }
    }
}

impl TargetView {
    /// A generated element of an array.
    pub open spec fn element(name: Seq<char>, index: i64, span: Span) -> TargetView {
        TargetView {
            name: part_text((name, seq![index])),
            component_ref: Some(
                ReferenceView {
                    local: false,
                    parts: seq![ReferencePartView { ident: name, subs: seq![index], span }],
                    def_id: None,
                    span,
                },
            ),
            generated: true,
        }
    }

    /// A name alone.
    pub open spec fn bare(name: Seq<char>) -> TargetView {
        TargetView { name, component_ref: None, generated: false }
    }

    /// The same target with the structure that its name spells out, where the
    /// structure is not known and the name was not generated.
    pub open spec fn structured(self, span: Span) -> TargetView {
        if self.component_ref is Some || self.generated {
            self
        } else {
            match flat_reference(self.name, span) {
                Some(reference) => TargetView { component_ref: Some(reference), ..self },
                None => self,
            }
        }
    }
}

impl Reference {
    /// A name alone.
    pub fn from_name(name: &str) -> (r: Reference)
        ensures
            r@ == TargetView::bare(name@),
    {
        Reference { name: owned(name), component_ref: None, generated: false }
    }

    /// A generated element of an array.
    pub fn generated_element(name: &str, index: i64, span: Span) -> (r: Reference)
        ensures
            r@ == TargetView::element(name@, index, span),
    {
        let mut subs: Vec<i64> = Vec::new();
        subs.push(index);
        assert(subs@ =~= seq![index]);
        let text = render_part(name, &subs);
        let mut parts: Vec<ComponentRefPart> = Vec::new();
        parts.push(ComponentRefPart { ident: owned(name), subs, span });
        let r = Reference {
            name: text,
            component_ref: Some(ComponentReference { local: false, parts, def_id: None, span }),
            generated: true,
        };
        assert(r@.component_ref->0.parts =~= seq![
            ReferencePartView { ident: name@, subs: seq![index], span },
        ]);
        r
    }

    /// Whether the component is known.
    pub fn has_structure(&self) -> (r: bool)
        ensures
            r == (self@.component_ref is Some),
    {
        self.component_ref.is_some()
    }
}

/// An equation of the system.
#[derive(Debug)]
pub struct Equation {
    /// What the equation defines, where it is in explicit form.
    pub lhs: Option<Reference>,
    pub rhs: Expression,
    pub span: Span,
    /// Where the equation came from, for people.
    pub origin: String,
    /// Number of scalar equations that this one stands for.
    pub scalar_count: usize,
}

/// The mathematical content of an [`Equation`].
pub struct EquationView {
    pub lhs: Option<TargetView>,
    pub rhs: ExprView,
    pub span: Span,
    pub origin: Seq<char>,
    pub scalar_count: usize,
}

impl View for Equation {
    type V = EquationView;

    open spec fn view(&self) -> EquationView {
        EquationView {
            lhs: held(self.lhs),
            rhs: self.rhs@,
            span: self.span,
            origin: self.origin@,
            scalar_count: self.scalar_count,
        }
    }
}

/// The content of a list of equations.
pub open spec fn equation_views(list: Seq<Equation>) -> Seq<EquationView> {
    list.map_values(|e: Equation| e@)
}

/// Gives a target the structure that its name spells out.
fn structured_lhs_reference(lhs: Reference, span: Span) -> (r: Reference)
    ensures
        r@ == lhs@.structured(span),
{
    if lhs.has_structure() || lhs.generated {
        return lhs;
    }
    match component_reference_from_flat_name(lhs.name.as_str(), span) {
        Some(reference) => Reference {
            name: lhs.name,
            component_ref: Some(reference),
            generated: lhs.generated,
        },
        None => lhs,
    }
}

impl Equation {
    /// The equation `0 = rhs`.
    pub fn residual(rhs: Expression, span: Span, origin: &str) -> (e: Equation)
        ensures
            e@ == (EquationView { lhs: None, rhs: rhs@, span, origin: origin@, scalar_count: 1 }),
    {
        Equation { lhs: None, rhs, span, origin: owned(origin), scalar_count: 1 }
    }

    /// The equation `0 = rhs`, standing for several scalar ones.
    pub fn residual_array(rhs: Expression, span: Span, origin: &str, scalar_count: usize) -> (e:
        Equation)
        ensures
            e@ == (EquationView { lhs: None, rhs: rhs@, span, origin: origin@, scalar_count }),
    {
        Equation { lhs: None, rhs, span, origin: owned(origin), scalar_count }
    }

    /// The equation `lhs = rhs`.
    pub fn explicit(lhs: Reference, rhs: Expression, span: Span, origin: &str) -> (e: Equation)
        ensures
            e@ == (EquationView {
                lhs: Some(lhs@.structured(span)),
                rhs: rhs@,
                span,
                origin: origin@,
                scalar_count: 1,
            }),
    {
        Equation::explicit_with_scalar_count(lhs, rhs, span, origin, 1)
    }

    /// The equation `lhs = rhs`, standing for several scalar ones, at least one.
    pub fn explicit_with_scalar_count(
        lhs: Reference,
        rhs: Expression,
        span: Span,
        origin: &str,
        scalar_count: usize,
    ) -> (e: Equation)
        ensures
            e@ == (EquationView {
                lhs: Some(lhs@.structured(span)),
                rhs: rhs@,
                span,
                origin: origin@,
                scalar_count: if scalar_count == 0 {
                    1
                } else {
                    scalar_count
                },
            }),
    {
        let count: usize = if scalar_count == 0 {
            1
        } else {
            scalar_count
        };
        Equation {
            lhs: Some(structured_lhs_reference(lhs, span)),
            rhs,
            span,
            origin: owned(origin),
            scalar_count: count,
        }
    }
}

/// What an equation of a when clause gives while the clause is not active.
#[derive(Clone, Copy, Debug, PartialEq, Eq, Structural)]
pub enum WhenEquationInactiveRhs {
    Pre,
    Current,
}

impl Default for WhenEquationInactiveRhs {
    fn default() -> (r: Self)
        ensures
            r == WhenEquationInactiveRhs::Pre,
    {
        WhenEquationInactiveRhs::Pre
    }
}

/// What an action does at an event.
#[allow(inconsistent_fields)]
#[derive(Debug)]
pub enum DaeEventActionKind {
    Assert { message: Expression },
    Terminate { message: Expression },
}

/// An action of the runtime at an event.
#[derive(Debug)]
pub struct DaeEventAction {
    pub condition: Expression,
    pub kind: DaeEventActionKind,
    pub span: Span,
    pub origin: String,
}

/// A clause for the handling of discrete events.
#[derive(Debug)]
pub struct WhenClause {
    pub condition: Expression,
    pub equations: Vec<Equation>,
    /// For each equation, what it gives while the clause is not active.
    pub equation_inactive_rhs: Vec<WhenEquationInactiveRhs>,
    pub actions: Vec<DaeEventAction>,
    pub span: Span,
    pub origin: String,
}

impl WhenClause {
    /// A clause with nothing to do.
    pub fn new(condition: Expression, span: Span, origin: &str) -> (c: WhenClause)
        ensures
            c.condition@ == condition@,
            c.equations@.len() == 0,
            c.equation_inactive_rhs@.len() == 0,
            c.actions@.len() == 0,
            c.span == span,
            c.origin@ == origin@,
    {
        WhenClause {
            condition,
            equations: Vec::new(),
            equation_inactive_rhs: Vec::new(),
            actions: Vec::new(),
            span,
            origin: owned(origin),
        }
    }
}

/// A statement of an algorithm.
#[allow(inconsistent_fields)]
#[derive(Debug)]
pub enum Statement {
    Assignment { comp: ComponentReference, value: Expression, span: Span },
    /// Conditions, loops and the like: what controls the statements inside.
    Compound { controls: Vec<Expression>, body: Vec<Statement>, span: Span },
}

/// The target that a component reference stands for.
pub open spec fn component_target(reference: ReferenceView) -> TargetView {
    TargetView {
        name: join_text(
            reference.parts.map_values(|p: ReferencePartView| part_text((p.ident, p.subs))),
            "."@,
        ),
        component_ref: Some(reference),
        generated: false,
    }
}

/// Whether one of the targets has this name.
pub open spec fn targets_name(list: Seq<TargetView>, name: Seq<char>) -> bool {
    exists|i: int| 0 <= i < list.len() && (#[trigger] list[i]).name == name
}

/// A target joins the list unless its name is there.
pub open spec fn with_target(list: Seq<TargetView>, target: TargetView) -> Seq<TargetView> {
    if targets_name(list, target.name) {
        list
    } else {
        list.push(target)
    }
}

/// The targets after a statement has added what it assigns.
pub open spec fn statement_targets(statement: Statement, list: Seq<TargetView>) -> Seq<TargetView>
    decreases statement,
{
    match statement {
        Statement::Assignment { comp, .. } => with_target(list, component_target(comp@)),
        Statement::Compound { body, .. } => body_targets(body@, body@.len() as int, list),
    }
}

/// The targets after the first `n` statements have added what they assign.
pub open spec fn body_targets(body: Seq<Statement>, n: int, list: Seq<TargetView>) -> Seq<
    TargetView,
>
    decreases body, n,
{
    if n <= 0 || n > body.len() {
        list
    } else {
        statement_targets(body[n - 1], body_targets(body, n - 1, list))
    }
}

pub open spec fn target_views(list: Seq<Reference>) -> Seq<TargetView> {
    list.map_values(|r: Reference| r@)
}

fn reference_of_component(comp: &ComponentReference) -> (r: Reference)
    ensures
        r@ == component_target(comp@),
{
    let name = QualifiedName::from_component_reference(comp);
    let text = name.to_flat_string();
    proof {
        let rendered = comp.path().map_values(
            |p: PartView| (part_text(p), Seq::<i64>::empty()),
        );
        assert(name@ == rendered);
        assert(name@.map_values(|p: PartView| part_text(p)) =~= comp@.parts.map_values(
            |p: ReferencePartView| part_text((p.ident, p.subs)),
        ));
    }
    Reference { name: text, component_ref: Some(comp.clone()), generated: false }
}

fn add_target(list: &mut Vec<Reference>, target: Reference)
    ensures
        target_views(final(list)@) == with_target(target_views(old(list)@), target@),
{
    let ghost before = target_views(list@);
    let mut i: usize = 0;
    while i < list.len()
        invariant
            i <= list.len(),
            *list == *old(list),
            before == target_views(list@),
            forall|k: int| 0 <= k < i ==> (#[trigger] before[k]).name != target@.name,
        decreases list.len() - i,
    {
        assert(before[i as int] == list@[i as int]@);
        if same_text(list[i].name.as_str(), target.name.as_str()) {
            return;
        }
        i = i + 1;
    }
    let ghost content = target@;
    list.push(target);
    assert(target_views(list@) =~= before.push(content));
}

fn collect_statement(statement: &Statement, list: &mut Vec<Reference>)
    ensures
        target_views(final(list)@) == statement_targets(*statement, target_views(old(list)@)),
    decreases statement,
{
    match statement {
        Statement::Assignment { comp, .. } => {
            add_target(list, reference_of_component(comp));
        },
        Statement::Compound { body, .. } => {
            collect_body(body, list);
        },
    }
}

fn collect_body(body: &Vec<Statement>, list: &mut Vec<Reference>)
    ensures
        target_views(final(list)@) == body_targets(
            body@,
            body@.len() as int,
            target_views(old(list)@),
        ),
    decreases body,
{
    let mut i: usize = 0;
    while i < body.len()
        invariant
            i <= body.len(),
            target_views(list@) == body_targets(body@, i as int, target_views(old(list)@)),
        decreases body.len() - i,
    {
        collect_statement(&body[i], list);
        i = i + 1;
    }
}

/// An algorithm section of the system.
#[derive(Debug)]
pub struct Algorithm {
    pub statements: Vec<Statement>,
    /// What the statements assign, each once, in the order of first assignment.
    pub outputs: Vec<Reference>,
    pub span: Span,
    pub origin: String,
}

impl Algorithm {
    /// An algorithm of these statements.
    pub fn new(statements: Vec<Statement>, span: Span, origin: &str) -> (a: Algorithm)
        ensures
            a.statements == statements,
            target_views(a.outputs@) == body_targets(
                statements@,
                statements@.len() as int,
                Seq::empty(),
            ),
            a.span == span,
            a.origin@ == origin@,
    {
        let mut outputs: Vec<Reference> = Vec::new();
        assert(target_views(outputs@) =~= Seq::<TargetView>::empty());
        collect_body(&statements, &mut outputs);
        Algorithm { statements, outputs, span, origin: owned(origin) }
    }

    /// Number of things that the algorithm assigns.
    pub fn num_outputs(&self) -> (n: usize)
        ensures
            n == self.outputs@.len(),
    {
        self.outputs.len()
    }
}

} // verus!
