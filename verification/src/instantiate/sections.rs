//! What a class says beside its components, and what an instance has of it.
use crate::expr::tree::{ExprView, Expression};
use crate::instantiate::connections::{ClauseView, ConnectionClause};
use crate::instantiate::record::copy_scope;
use crate::ir::instance::{
    import_views, list_views, nested_views, InstanceEquation, InstanceEquationView,
    InstanceStatement, InstanceStatementView,
};
use crate::ir::name::{ComponentReference, PartView, QualifiedName, ReferenceView};
use crate::span::Span;
use crate::text::held;
use vstd::prelude::*;

verus! {

/// An equation of a class.
#[derive(Debug)]
pub struct ClassEquation {
    /// What has to be zero.
    pub residual: Expression,
    pub span: Span,
}

#[verifier::ext_equal]
pub struct ClassEquationView {
    pub residual: ExprView,
    pub span: Span,
}

impl View for ClassEquation {
    type V = ClassEquationView;

    open spec fn view(&self) -> ClassEquationView {
        ClassEquationView { residual: self.residual@, span: self.span }
    }
}

/// An assignment of a class.
#[derive(Debug)]
pub struct ClassStatement {
    pub target: ComponentReference,
    pub value: Expression,
    pub span: Span,
}

#[verifier::ext_equal]
pub struct ClassStatementView {
    pub target: ReferenceView,
    pub value: ExprView,
    pub span: Span,
}

impl View for ClassStatement {
    type V = ClassStatementView;

    open spec fn view(&self) -> ClassStatementView {
        ClassStatementView { target: self.target@, value: self.value@, span: self.span }
    }
}

/// What a class says beside its components, inherited sections included.
#[derive(Debug)]
pub struct ClassSections {
    pub equations: Vec<ClassEquation>,
    pub initial_equations: Vec<ClassEquation>,
    pub algorithms: Vec<Vec<ClassStatement>>,
    pub initial_algorithms: Vec<Vec<ClassStatement>>,
    pub connections: ConnectionClause,
    /// Short names and what they stand for.
    pub imports: Vec<(String, String)>,
}

#[verifier::ext_equal]
pub struct SectionsView {
    pub equations: Seq<ClassEquationView>,
    pub initial_equations: Seq<ClassEquationView>,
    pub algorithms: Seq<Seq<ClassStatementView>>,
    pub initial_algorithms: Seq<Seq<ClassStatementView>>,
    pub connections: ClauseView,
    pub imports: Seq<(Seq<char>, Seq<char>)>,
}

impl View for ClassSections {
    type V = SectionsView;

    open spec fn view(&self) -> SectionsView {
        SectionsView {
            equations: list_views(self.equations@),
            initial_equations: list_views(self.initial_equations@),
            algorithms: nested_views(self.algorithms@),
            initial_algorithms: nested_views(self.initial_algorithms@),
            connections: self.connections@,
            imports: import_views(self.imports@),
        }
    }
}

impl ClassSections {
    /// No sections.
    pub fn none() -> (r: ClassSections)
        ensures
            r@ == (SectionsView {
                equations: Seq::empty(),
                initial_equations: Seq::empty(),
                algorithms: Seq::empty(),
                initial_algorithms: Seq::empty(),
                connections: r@.connections,
                imports: Seq::empty(),
            }),
            r@.connections.kind is Block,
            r@.connections.items == Seq::<ClauseView>::empty(),
    {
        ClassSections {
            equations: Vec::new(),
            initial_equations: Vec::new(),
            algorithms: Vec::new(),
            initial_algorithms: Vec::new(),
            connections: ConnectionClause::none(),
            imports: Vec::new(),
        }
    }
}

/// An equation of the instance at a path, whose class has this scope.
pub open spec fn equation_at(
    e: ClassEquationView,
    path: Seq<PartView>,
    scope: Option<Seq<PartView>>,
) -> InstanceEquationView {
    InstanceEquationView { residual: e.residual, origin: path, source_scope: scope, span: e.span }
}

/// The equations of the instance at a path.
pub open spec fn equations_at(
    list: Seq<ClassEquationView>,
    path: Seq<PartView>,
    scope: Option<Seq<PartView>>,
) -> Seq<InstanceEquationView> {
    list.map_values(|e: ClassEquationView| equation_at(e, path, scope))
}

/// A statement of the instance at a path, whose class has this scope.
pub open spec fn statement_at(
    e: ClassStatementView,
    path: Seq<PartView>,
    scope: Option<Seq<PartView>>,
) -> InstanceStatementView {
    InstanceStatementView {
        target: e.target,
        value: e.value,
        origin: path,
        source_scope: scope,
        span: e.span,
    }
}

/// The statements of one section of the instance at a path.
pub open spec fn statements_at(
    list: Seq<ClassStatementView>,
    path: Seq<PartView>,
    scope: Option<Seq<PartView>>,
) -> Seq<InstanceStatementView> {
    list.map_values(|e: ClassStatementView| statement_at(e, path, scope))
}

/// The algorithm sections of the instance at a path.
pub open spec fn algorithms_at(
    list: Seq<Seq<ClassStatementView>>,
    path: Seq<PartView>,
    scope: Option<Seq<PartView>>,
) -> Seq<Seq<InstanceStatementView>> {
    list.map_values(|section: Seq<ClassStatementView>| statements_at(section, path, scope))
}

/// The equations of the instance at a path.
pub fn equations_to_instance(
    list: &Vec<ClassEquation>,
    path: &QualifiedName,
    scope: &Option<QualifiedName>,
) -> (r: Vec<InstanceEquation>)
    ensures
        list_views(r@) == equations_at(list_views(list@), path@, held(*scope)),
{
    let ghost all = equations_at(list_views(list@), path@, held(*scope));
    let mut r: Vec<InstanceEquation> = Vec::new();
    let mut i: usize = 0;
    assert(list_views(r@) =~= all.take(0));
    while i < list.len()
        invariant
            i <= list@.len(),
            all == equations_at(list_views(list@), path@, held(*scope)),
            list_views(r@) == all.take(i as int),
        decreases list.len() - i,
    {
        let ghost before = list_views(r@);
        let new = InstanceEquation {
            residual: list[i].residual.clone(),
            origin: path.clone(),
            source_scope: copy_scope(scope),
            span: list[i].span,
        };
        assert(new@ == all[i as int]);
        r.push(new);
        assert(list_views(r@) =~= before.push(new@));
        i = i + 1;
        assert(list_views(r@) =~= all.take(i as int));
    }
    assert(all.take(i as int) =~= all);
    r
}

fn statements_to_instance(
    list: &Vec<ClassStatement>,
    path: &QualifiedName,
    scope: &Option<QualifiedName>,
) -> (r: Vec<InstanceStatement>)
    ensures
        list_views(r@) == statements_at(list_views(list@), path@, held(*scope)),
{
    let ghost all = statements_at(list_views(list@), path@, held(*scope));
    let mut r: Vec<InstanceStatement> = Vec::new();
    let mut i: usize = 0;
    assert(list_views(r@) =~= all.take(0));
    while i < list.len()
        invariant
            i <= list@.len(),
            all == statements_at(list_views(list@), path@, held(*scope)),
            list_views(r@) == all.take(i as int),
        decreases list.len() - i,
    {
        let ghost before = list_views(r@);
        let new = InstanceStatement {
            target: list[i].target.clone(),
            value: list[i].value.clone(),
            origin: path.clone(),
            source_scope: copy_scope(scope),
            span: list[i].span,
        };
        assert(new@ == all[i as int]);
        r.push(new);
        assert(list_views(r@) =~= before.push(new@));
        i = i + 1;
        assert(list_views(r@) =~= all.take(i as int));
    }
    assert(all.take(i as int) =~= all);
    r
}

/// The algorithm sections of the instance at a path.
pub fn algorithms_to_instance(
    list: &Vec<Vec<ClassStatement>>,
    path: &QualifiedName,
    scope: &Option<QualifiedName>,
) -> (r: Vec<Vec<InstanceStatement>>)
    ensures
        nested_views(r@) == algorithms_at(nested_views(list@), path@, held(*scope)),
{
    let ghost all = algorithms_at(nested_views(list@), path@, held(*scope));
    let mut r: Vec<Vec<InstanceStatement>> = Vec::new();
    let mut i: usize = 0;
    assert(nested_views(r@) =~= all.take(0));
    while i < list.len()
        invariant
            i <= list@.len(),
            all == algorithms_at(nested_views(list@), path@, held(*scope)),
            nested_views(r@) == all.take(i as int),
        decreases list.len() - i,
    {
        let ghost before = nested_views(r@);
        let section = statements_to_instance(&list[i], path, scope);
        assert(nested_views(list@)[i as int] == list_views(list@[i as int]@));
        assert(list_views(section@) == all[i as int]);
        r.push(section);
        assert(nested_views(r@) =~= before.push(list_views(section@)));
        i = i + 1;
        assert(nested_views(r@) =~= all.take(i as int));
    }
    assert(all.take(i as int) =~= all);
    r
}

/// A copy of short names and what they stand for.
pub fn copy_imports(list: &Vec<(String, String)>) -> (r: Vec<(String, String)>)
    ensures
        import_views(r@) == import_views(list@),
{
    let ghost all = import_views(list@);
    let mut r: Vec<(String, String)> = Vec::new();
    let mut i: usize = 0;
    assert(import_views(r@) =~= all.take(0));
    while i < list.len()
        invariant
            i <= list@.len(),
            all == import_views(list@),
            import_views(r@) == all.take(i as int),
        decreases list.len() - i,
    {
        let ghost before = import_views(r@);
        r.push((list[i].0.clone(), list[i].1.clone()));
        assert(import_views(r@) =~= before.push(all[i as int]));
        i = i + 1;
        assert(import_views(r@) =~= all.take(i as int));
    }
    assert(all.take(i as int) =~= all);
    r
}

} // verus!
