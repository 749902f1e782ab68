//! Variables of a flat system.
use crate::dae::shape::{element_count, ints_of};
use crate::expr::tree::{copy_optional, ExprView, Expression};
use crate::ir::name::{copy_subscripts, ComponentReference, ReferenceView};
use crate::span::Span;
use crate::text::{copy_text, held, int_text, owned, push_int};
use vstd::prelude::*;

verus! {

#[derive(Clone, Copy, Debug, PartialEq, Eq, Structural)]
pub enum VariableCausality {
    Input,
    Output,
    Local,
    Parameter,
    CalculatedParameter,
    Independent,
}

impl Default for VariableCausality {
    fn default() -> (r: Self)
        ensures
            r == VariableCausality::Local,
    {
        VariableCausality::Local
    }
}

/// Whether a variable stands for a component of the source or was generated.
#[derive(Clone, Copy, Debug, PartialEq, Eq, Structural)]
pub enum VariableOrigin {
    Source,
    Generated,
}

impl Default for VariableOrigin {
    fn default() -> (r: Self)
        ensures
            r == VariableOrigin::Source,
    {
        VariableOrigin::Source
    }
}

/// How willingly a variable serves as a state.
#[derive(Clone, Copy, Debug, PartialEq, Eq, Structural)]
pub enum StateSelect {
    Never,
    Avoid,
    Default,
    Prefer,
    Always,
}

/// Classification of a variable in the analysis of a system.
#[derive(Clone, Copy, Debug, PartialEq, Eq, Structural)]
pub enum VariableKind {
    State,
    Derivative,
    Algebraic,
    Input,
    Output,
    Parameter,
    Constant,
    Discrete,
}

/// A variable of the system.
#[derive(Debug)]
pub struct Variable {
    pub name: String,
    /// The component that the variable stands for, where it stands for one.
    pub component_ref: Option<ComponentReference>,
    pub source_span: Span,
    /// Array dimensions; none for a scalar.
    pub dims: Vec<i64>,
    pub start: Option<Expression>,
    pub start_span: Option<Span>,
    pub fixed: Option<bool>,
    pub min: Option<Expression>,
    pub min_span: Option<Span>,
    pub max: Option<Expression>,
    pub max_span: Option<Span>,
    pub nominal: Option<Expression>,
    pub nominal_span: Option<Span>,
    pub unit: Option<String>,
    pub state_select: StateSelect,
    pub description: Option<String>,
    pub causality: VariableCausality,
    pub is_tunable: bool,
    pub trainable: bool,
    pub origin: VariableOrigin,
}

/// The mathematical content of a [`Variable`].
pub struct VariableView {
    pub name: Seq<char>,
    pub component_ref: Option<ReferenceView>,
    pub source_span: Span,
    pub dims: Seq<i64>,
    pub start: Option<ExprView>,
    pub start_span: Option<Span>,
    pub fixed: Option<bool>,
    pub min: Option<ExprView>,
    pub min_span: Option<Span>,
    pub max: Option<ExprView>,
    pub max_span: Option<Span>,
    pub nominal: Option<ExprView>,
    pub nominal_span: Option<Span>,
    pub unit: Option<Seq<char>>,
    pub state_select: StateSelect,
    pub description: Option<Seq<char>>,
    pub causality: VariableCausality,
    pub is_tunable: bool,
    pub trainable: bool,
    pub origin: VariableOrigin,
}

impl View for Variable {
    type V = VariableView;

    open spec fn view(&self) -> VariableView {
        VariableView {
            name: self.name@,
            component_ref: held(self.component_ref),
            source_span: self.source_span,
            dims: self.dims@,
            start: held(self.start),
            start_span: self.start_span,
            fixed: self.fixed,
            min: held(self.min),
            min_span: self.min_span,
            max: held(self.max),
            max_span: self.max_span,
            nominal: held(self.nominal),
            nominal_span: self.nominal_span,
            unit: held(self.unit),
            state_select: self.state_select,
            description: held(self.description),
            causality: self.causality,
            is_tunable: self.is_tunable,
            trainable: self.trainable,
            origin: self.origin,
        }
    }
}

/// A copy of an optional reference.
pub fn copy_reference(o: &Option<ComponentReference>) -> (r: Option<ComponentReference>)
    ensures
        held(r) == held(*o),
{
    match o {
        Some(reference) => Some(reference.clone()),
        None => None,
    }
}

impl Clone for Variable {
    fn clone(&self) -> (r: Self)
        ensures
            r@ == self@,
    {
        Variable {
            name: self.name.clone(),
            component_ref: copy_reference(&self.component_ref),
            source_span: self.source_span,
            dims: copy_subscripts(&self.dims),
            start: copy_optional(&self.start),
            start_span: self.start_span,
            fixed: self.fixed,
            min: copy_optional(&self.min),
            min_span: self.min_span,
            max: copy_optional(&self.max),
            max_span: self.max_span,
            nominal: copy_optional(&self.nominal),
            nominal_span: self.nominal_span,
            unit: copy_text(&self.unit),
            state_select: self.state_select,
            description: copy_text(&self.description),
            causality: self.causality,
            is_tunable: self.is_tunable,
            trainable: self.trainable,
            origin: self.origin,
        }
    }
}

/// A variable whose shape cannot be used.
#[derive(Debug)]
pub enum VariableShapeContractError {
    NegativeDimension { variable: String, dimension: i64, span: Span },
}

/// The mathematical content of a [`VariableShapeContractError`].
pub enum ShapeErrorView {
    NegativeDimension { variable: Seq<char>, dimension: i64, span: Span },
}

impl View for VariableShapeContractError {
    type V = ShapeErrorView;

    open spec fn view(&self) -> ShapeErrorView {
        match *self {
            VariableShapeContractError::NegativeDimension {
                variable,
                dimension,
                span,
            } => ShapeErrorView::NegativeDimension { variable: variable@, dimension, span },
        }
    }
}

impl ShapeErrorView {
    /// Where the variable stands.
    pub open spec fn position(self) -> Span {
        match self {
            ShapeErrorView::NegativeDimension { span, .. } => span,
        }
    }

    /// The explanation.
    pub open spec fn text(self) -> Seq<char> {
        match self {
            ShapeErrorView::NegativeDimension { variable, dimension, .. } => "DAE variable `"@
                + variable + "` has negative dimension "@ + int_text(dimension as int),
        }
    }
}

impl VariableShapeContractError {
    /// Where the variable stands.
    pub fn span(&self) -> (s: Span)
        ensures
            s == self@.position(),
    {
        match self {
            VariableShapeContractError::NegativeDimension { span, .. } => *span,
        }
    }

    /// The explanation.
    pub fn message(&self) -> (s: String)
        ensures
            s@ == self@.text(),
    {
        match self {
            VariableShapeContractError::NegativeDimension { variable, dimension, .. } => {
                let mut s = owned("DAE variable `");
                s.append(variable.as_str());
                s.append("` has negative dimension ");
                push_int(&mut s, *dimension);
                s
            },
        }
    }
}

/// Whether a dimension can be counted.
pub open spec fn usable_dimension(d: i64) -> bool {
    0 <= d <= usize::MAX
}

/// The first of the dimensions that cannot be counted.
pub open spec fn is_first_unusable(dims: Seq<i64>, k: int) -> bool {
    &&& 0 <= k < dims.len()
    &&& !usable_dimension(dims[k])
    &&& forall|i: int| 0 <= i < k ==> usable_dimension(#[trigger] dims[i])
}

/// Whether all dimensions can be counted.
pub open spec fn usable_shape(dims: Seq<i64>) -> bool {
    forall|i: int| 0 <= i < dims.len() ==> usable_dimension(#[trigger] dims[i])
}

/// Number of elements of a usable shape, at most the largest `usize`.
pub open spec fn size_of_shape(dims: Seq<i64>) -> int {
    if element_count(ints_of(dims)) <= usize::MAX {
        element_count(ints_of(dims))
    } else {
        usize::MAX as int
    }
}

proof fn lemma_count_of_prefix(dims: Seq<i64>, k: int)
    requires
        0 < k <= dims.len(),
    ensures
        element_count(ints_of(dims.take(k))) == element_count(ints_of(dims.take(k - 1))) * dims[k
            - 1],
{
    assert(ints_of(dims.take(k)).drop_last() =~= ints_of(dims.take(k - 1)));
    assert(ints_of(dims.take(k)).last() == dims[k - 1]);
}

/// A usable shape has no fewer than zero elements.
pub proof fn lemma_size_is_natural(dims: Seq<i64>)
    requires
        usable_shape(dims),
    ensures
        0 <= size_of_shape(dims),
        0 <= element_count(ints_of(dims)),
    decreases dims.len(),
{
    if dims.len() > 0 {
        let front = dims.drop_last();
        assert(usable_shape(front)) by {
            assert forall|i: int| 0 <= i < front.len() implies usable_dimension(
                #[trigger] front[i],
            ) by {
                assert(usable_dimension(dims[i]));
            }
        }
        lemma_size_is_natural(front);
        assert(ints_of(dims).drop_last() =~= ints_of(front));
        assert(usable_dimension(dims[dims.len() - 1]));
        let a = element_count(ints_of(front));
        let b = dims.last() as int;
        assert(a * b >= 0) by (nonlinear_arith)
            requires
                a >= 0,
                b >= 0,
        ;
    }
}

/// The error for a variable with a dimension that cannot be counted; the first
/// such dimension is named.
pub open spec fn shape_error(name: Seq<char>, dims: Seq<i64>, span: Span) -> Option<
    ShapeErrorView,
> {
    if usable_shape(dims) {
        None
    } else {
        Some(
            ShapeErrorView::NegativeDimension {
                variable: name,
                dimension: dims[choose|k: int| is_first_unusable(dims, k)],
                span,
            },
        )
    }
}

proof fn lemma_first_unusable(dims: Seq<i64>, k: int)
    requires
        is_first_unusable(dims, k),
    ensures
        !usable_shape(dims),
        (choose|j: int| is_first_unusable(dims, j)) == k,
{
    assert(!usable_dimension(dims[k]));
    let j = choose|j: int| is_first_unusable(dims, j);
    assert(is_first_unusable(dims, j));
    assert(!(j < k) && !(k < j));
}

/// Number of elements of a shape, capped at the largest `usize`; the first
/// dimension that cannot be counted is an error.
fn shape_size(name: &str, span: Span, dims: &Vec<i64>) -> (r: Result<
    usize,
    VariableShapeContractError,
>)
    ensures
        match r {
            Ok(size) => shape_error(name@, dims@, span) is None && size == size_of_shape(dims@),
            Err(e) => shape_error(name@, dims@, span) == Some(e@),
        },
{
    let mut size: usize = 1;
    let mut i: usize = 0;
    assert(ints_of(dims@.take(0)).len() == 0);
    while i < dims.len()
        invariant
            i <= dims.len(),
            size == size_of_shape(dims@.take(i as int)),
            element_count(ints_of(dims@.take(i as int))) >= 0,
            forall|k: int| 0 <= k < i ==> usable_dimension(#[trigger] dims@[k]),
        decreases dims.len() - i,
    {
        let dimension: i64 = dims[i];
        if dimension < 0 || dimension as u64 > usize::MAX as u64 {
            proof {
                lemma_first_unusable(dims@, i as int);
            }
            return Err(
                VariableShapeContractError::NegativeDimension {
                    variable: owned(name),
                    dimension,
                    span,
                },
            );
        }
        let dim: usize = dimension as usize;
        let ghost count = element_count(ints_of(dims@.take(i as int)));
        proof {
            lemma_count_of_prefix(dims@, i + 1);
            assert(count * dim >= 0) by (nonlinear_arith)
                requires
                    count >= 0,
                    dim >= 0,
            ;
            if count > usize::MAX && dim > 0 {
                assert(count * dim > usize::MAX) by (nonlinear_arith)
                    requires
                        count > usize::MAX,
                        dim > 0,
                ;
                assert(usize::MAX * dim >= usize::MAX) by (nonlinear_arith)
                    requires
                        dim > 0,
                ;
            }
            if dim == 0 {
                assert(count * dim == 0 && size * dim == 0) by (nonlinear_arith)
                    requires
                        dim == 0,
                ;
            }
        }
        size = match size.checked_mul(dim) {
            Some(product) => product,
            None => usize::MAX,
        };
        i = i + 1;
    }
    assert(dims@.take(i as int) =~= dims@);
    Ok(size)
}

impl VariableView {
    /// What is wrong with the shape, where something is.
    pub open spec fn shape_error(self) -> Option<ShapeErrorView> {
        shape_error(self.name, self.dims, self.source_span)
    }

    /// A variable without a name and without attributes.
    pub open spec fn blank(source_span: Span) -> VariableView {
        VariableView {
            name: Seq::empty(),
            component_ref: None,
            source_span,
            dims: Seq::empty(),
            start: None,
            start_span: None,
            fixed: None,
            min: None,
            min_span: None,
            max: None,
            max_span: None,
            nominal: None,
            nominal_span: None,
            unit: None,
            state_select: StateSelect::Default,
            description: None,
            causality: VariableCausality::Local,
            is_tunable: false,
            trainable: false,
            origin: VariableOrigin::Source,
        }
    }
}

impl Variable {
    /// A variable without a name and without attributes.
    pub fn empty_with_span(source_span: Span) -> (v: Variable)
        ensures
            v@ == VariableView::blank(source_span),
    {
        let v = Variable {
            name: String::new(),
            component_ref: None,
            source_span,
            dims: Vec::new(),
            start: None,
            start_span: None,
            fixed: None,
            min: None,
            min_span: None,
            max: None,
            max_span: None,
            nominal: None,
            nominal_span: None,
            unit: None,
            state_select: StateSelect::Default,
            description: None,
            causality: VariableCausality::Local,
            is_tunable: false,
            trainable: false,
            origin: VariableOrigin::Source,
        };
        assert(v@.name =~= Seq::<char>::empty());
        assert(v@.dims =~= Seq::<i64>::empty());
        v
    }

    /// A generated variable with this name.
    pub fn new(name: String, source_span: Span) -> (v: Variable)
        ensures
            v@ == (VariableView {
                name: name@,
                origin: VariableOrigin::Generated,
                ..VariableView::blank(source_span)
            }),
    {
        let mut v = Variable::empty_with_span(source_span);
        v.name = name;
        v.origin = VariableOrigin::Generated;
        v
    }

    /// Whether the variable has no dimensions.
    pub fn is_scalar(&self) -> (r: bool)
        ensures
            r == (self@.dims.len() == 0),
    {
        self.dims.len() == 0
    }

    /// Number of elements, one for a scalar.
    pub fn size(&self) -> (n: usize)
        requires
            usable_shape(self@.dims),
        ensures
            n == size_of_shape(self@.dims),
    {
        match self.try_size() {
            Ok(n) => n,
            Err(_) => 0,
        }
    }

    /// Number of elements, one for a scalar; the first dimension that cannot
    /// be counted is an error.
    pub fn try_size(&self) -> (r: Result<usize, VariableShapeContractError>)
        ensures
            match r {
                Ok(size) => self@.shape_error() is None && size == size_of_shape(self@.dims),
                Err(e) => self@.shape_error() == Some(e@),
            },
    {
        shape_size(self.name.as_str(), self.source_span, &self.dims)
    }

    pub fn start_attribute_span(&self) -> (s: Option<Span>)
        ensures
            s == self@.start_span,
    {
        self.start_span
    }

    pub fn min_attribute_span(&self) -> (s: Option<Span>)
        ensures
            s == self@.min_span,
    {
        self.min_span
    }

    pub fn max_attribute_span(&self) -> (s: Option<Span>)
        ensures
            s == self@.max_span,
    {
        self.max_span
    }

    pub fn nominal_attribute_span(&self) -> (s: Option<Span>)
        ensures
            s == self@.nominal_span,
    {
        self.nominal_span
    }
}

} // verus!
