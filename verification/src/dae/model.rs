//! The hybrid system: variables by role, equations by kind, and the checks and
//! counts over them.
use crate::dae::equation::{equation_views, DaeEventAction, Equation, EquationView};
use crate::dae::shape::scalar_name_text_for_flat_index;
use crate::dae::variable::{
    shape_error, size_of_shape, usable_shape, ShapeErrorView, Variable, VariableShapeContractError,
    VariableView,
};
use crate::expr::tree::{expr_views, ExprView, Expression};
use crate::ir::name::DefId;
use crate::ir::name_map::{NameMap, Named};
use crate::solve::error::Real;
use crate::span::Span;
use crate::text::{nat_text, owned, push_nat, same_text};
use vstd::prelude::*;

verus! {

/// Version of the data layout.
pub const DAE_SCHEMA_VERSION: u16 = 5;

/// Scalar counts of the runtime partitions: parameters and constants, time,
/// states, algebraics and outputs, discrete reals, discrete-valued variables.
#[derive(Clone, Copy, Debug, PartialEq, Eq, Structural)]
pub struct RuntimePartitionScalarCounts {
    pub p: usize,
    pub t: usize,
    pub x: usize,
    pub y: usize,
    pub z: usize,
    pub m: usize,
}

/// A periodic clock.
#[derive(Clone, Copy, Debug, PartialEq, Eq, Structural)]
pub struct ClockSchedule {
    pub period_seconds: Real,
    pub phase_seconds: Real,
    pub source_span: Span,
}

/// The variables by role.
pub struct DaeVariables {
    pub states: NameMap<Variable>,
    pub algebraics: NameMap<Variable>,
    pub inputs: NameMap<Variable>,
    pub outputs: NameMap<Variable>,
    pub parameters: NameMap<Variable>,
    pub constants: NameMap<Variable>,
    pub discrete_reals: NameMap<Variable>,
    pub discrete_valued: NameMap<Variable>,
}

/// The mathematical content of [`DaeVariables`].
pub struct VariablesView {
    pub states: Seq<Named<VariableView>>,
    pub algebraics: Seq<Named<VariableView>>,
    pub inputs: Seq<Named<VariableView>>,
    pub outputs: Seq<Named<VariableView>>,
    pub parameters: Seq<Named<VariableView>>,
    pub constants: Seq<Named<VariableView>>,
    pub discrete_reals: Seq<Named<VariableView>>,
    pub discrete_valued: Seq<Named<VariableView>>,
}

impl View for DaeVariables {
    type V = VariablesView;

    open spec fn view(&self) -> VariablesView {
        VariablesView {
            states: self.states.views(),
            algebraics: self.algebraics.views(),
            inputs: self.inputs.views(),
            outputs: self.outputs.views(),
            parameters: self.parameters.views(),
            constants: self.constants.views(),
            discrete_reals: self.discrete_reals.views(),
            discrete_valued: self.discrete_valued.views(),
        }
    }
}

#[derive(Clone, Copy, Debug, PartialEq, Eq, Structural)]
pub enum DaeVariablePartition {
    State,
    Algebraic,
    Input,
    Output,
    Parameter,
    Constant,
    DiscreteReal,
    DiscreteValued,
}

impl DaeVariablePartition {
    /// The role in words.
    pub open spec fn text(self) -> Seq<char> {
        match self {
            DaeVariablePartition::State => "state"@,
            DaeVariablePartition::Algebraic => "algebraic"@,
            DaeVariablePartition::Input => "input"@,
            DaeVariablePartition::Output => "output"@,
            DaeVariablePartition::Parameter => "parameter"@,
            DaeVariablePartition::Constant => "constant"@,
            DaeVariablePartition::DiscreteReal => "discrete Real"@,
            DaeVariablePartition::DiscreteValued => "discrete-valued"@,
        }
    }

    /// The role in words.
    pub fn label(&self) -> (s: &'static str)
        ensures
            s@ == self.text(),
    {
        match self {
            DaeVariablePartition::State => "state",
            DaeVariablePartition::Algebraic => "algebraic",
            DaeVariablePartition::Input => "input",
            DaeVariablePartition::Output => "output",
            DaeVariablePartition::Parameter => "parameter",
            DaeVariablePartition::Constant => "constant",
            DaeVariablePartition::DiscreteReal => "discrete Real",
            DaeVariablePartition::DiscreteValued => "discrete-valued",
        }
    }
}

/// A parameter of a function.
#[derive(Debug)]
pub struct FunctionParam {
    pub name: String,
    pub type_text: String,
    pub dims: Vec<i64>,
    pub span: Span,
}

/// A user-defined function.
#[derive(Debug)]
pub struct Function {
    pub name: String,
    pub inputs: Vec<FunctionParam>,
    pub outputs: Vec<FunctionParam>,
    pub span: Span,
}

/// A function whose parameters have a shape that cannot be used.
#[derive(Debug)]
pub enum FunctionShapeContractError {
    Param { function: String, error: VariableShapeContractError },
}

/// The mathematical content of a [`FunctionShapeContractError`].
pub enum FunctionErrorView {
    Param { function: Seq<char>, error: ShapeErrorView },
}

impl View for FunctionShapeContractError {
    type V = FunctionErrorView;

    open spec fn view(&self) -> FunctionErrorView {
        match *self {
            FunctionShapeContractError::Param { function, error } => FunctionErrorView::Param {
                function: function@,
                error: error@,
            },
        }
    }
}

/// The first error among the first `n` parameters.
pub open spec fn params_error(params: Seq<FunctionParam>, n: int) -> Option<ShapeErrorView>
    decreases n,
{
    if n <= 0 {
        None
    } else {
        match params_error(params, n - 1) {
            Some(e) => Some(e),
            None => shape_error(params[n - 1].name@, params[n - 1].dims@, params[n - 1].span),
        }
    }
}

impl Function {
    /// A function without parameters.
    pub fn new(name: &str, span: Span) -> (f: Function)
        ensures
            f.name@ == name@,
            f.inputs@.len() == 0,
            f.outputs@.len() == 0,
            f.span == span,
    {
        Function { name: owned(name), inputs: Vec::new(), outputs: Vec::new(), span }
    }

    /// The first parameter, inputs first, whose shape cannot be used.
    pub open spec fn shape_error(self) -> Option<FunctionErrorView> {
        let found = match params_error(self.inputs@, self.inputs@.len() as int) {
            Some(e) => Some(e),
            None => params_error(self.outputs@, self.outputs@.len() as int),
        };
        match found {
            Some(error) => Some(FunctionErrorView::Param { function: self.name@, error }),
            None => None,
        }
    }

    /// Checks the shapes of the parameters, inputs first.
    pub fn validate_shape_contract(&self) -> (r: Result<(), FunctionShapeContractError>)
        ensures
            match r {
                Ok(()) => self.shape_error() is None,
                Err(e) => self.shape_error() == Some(e@),
            },
    {
        if let Err(error) = check_params(&self.inputs) {
            return Err(FunctionShapeContractError::Param { function: self.name.clone(), error });
        }
        if let Err(error) = check_params(&self.outputs) {
            return Err(FunctionShapeContractError::Param { function: self.name.clone(), error });
        }
        Ok(())
    }
}

proof fn lemma_params_error_stays(params: Seq<FunctionParam>, k: int, n: int)
    requires
        0 <= k <= n,
        params_error(params, k) is Some,
    ensures
        params_error(params, n) == params_error(params, k),
    decreases n,
{
    if k < n {
        lemma_params_error_stays(params, k, n - 1);
    }
}

fn check_params(params: &Vec<FunctionParam>) -> (r: Result<(), VariableShapeContractError>)
    ensures
        match r {
            Ok(()) => params_error(params@, params@.len() as int) is None,
            Err(e) => params_error(params@, params@.len() as int) == Some(e@),
        },
{
    let mut i: usize = 0;
    while i < params.len()
        invariant
            i <= params.len(),
            params_error(params@, i as int) is None,
        decreases params.len() - i,
    {
        let param = &params[i];
        let mut variable = Variable::empty_with_span(param.span);
        variable.name = param.name.clone();
        variable.dims = crate::ir::name::copy_subscripts(&param.dims);
        if let Err(e) = variable.try_size() {
            proof {
                lemma_params_error_stays(params@, i + 1, params@.len() as int);
            }
            return Err(e);
        }
        i = i + 1;
    }
    Ok(())
}

/// Why the shapes of a system cannot be used.
#[allow(inconsistent_fields)]
#[derive(Debug)]
pub enum DaeShapeContractError {
    Variable(VariableShapeContractError),
    Function(FunctionShapeContractError),
    VariableKeyNameMismatch {
        partition: DaeVariablePartition,
        key: String,
        name: String,
        span: Span,
    },
    FunctionKeyNameMismatch { key: String, name: String, span: Span },
}

/// The mathematical content of a [`DaeShapeContractError`].
#[allow(inconsistent_fields)]
pub enum DaeShapeErrorView {
    Variable(ShapeErrorView),
    Function(FunctionErrorView),
    VariableKeyNameMismatch {
        partition: DaeVariablePartition,
        key: Seq<char>,
        name: Seq<char>,
        span: Span,
    },
    FunctionKeyNameMismatch { key: Seq<char>, name: Seq<char>, span: Span },
}

impl View for DaeShapeContractError {
    type V = DaeShapeErrorView;

    open spec fn view(&self) -> DaeShapeErrorView {
        match *self {
            DaeShapeContractError::Variable(e) => DaeShapeErrorView::Variable(e@),
            DaeShapeContractError::Function(e) => DaeShapeErrorView::Function(e@),
            DaeShapeContractError::VariableKeyNameMismatch {
                partition,
                key,
                name,
                span,
            } => DaeShapeErrorView::VariableKeyNameMismatch {
                partition,
                key: key@,
                name: name@,
                span,
            },
            DaeShapeContractError::FunctionKeyNameMismatch {
                key,
                name,
                span,
            } => DaeShapeErrorView::FunctionKeyNameMismatch { key: key@, name: name@, span },
        }
    }
}

impl DaeShapeErrorView {
    /// Where the offending thing stands.
    pub open spec fn position(self) -> Span {
        match self {
            DaeShapeErrorView::Variable(e) => e.position(),
            DaeShapeErrorView::Function(FunctionErrorView::Param { error, .. }) => error.position(),
            DaeShapeErrorView::VariableKeyNameMismatch { span, .. } => span,
            DaeShapeErrorView::FunctionKeyNameMismatch { span, .. } => span,
        }
    }

    /// The explanation.
    pub open spec fn text(self) -> Seq<char> {
        match self {
            DaeShapeErrorView::Variable(e) => "DAE variable shape contract failed: "@ + e.text(),
            DaeShapeErrorView::Function(
                FunctionErrorView::Param { error, .. },
            ) => "DAE function shape contract failed: "@ + error.text(),
            DaeShapeErrorView::VariableKeyNameMismatch {
                partition,
                key,
                name,
                ..
            } => "DAE "@ + partition.text() + " variable key `"@ + key
                + "` does not match variable name `"@ + name + "`"@,
            DaeShapeErrorView::FunctionKeyNameMismatch { key, name, .. } => "DAE function key `"@
                + key + "` does not match function name `"@ + name + "`"@,
        }
    }
}

impl DaeShapeContractError {
    /// Where the offending thing stands.
    pub fn span(&self) -> (s: Span)
        ensures
            s == self@.position(),
    {
        match self {
            DaeShapeContractError::Variable(e) => e.span(),
            DaeShapeContractError::Function(
                FunctionShapeContractError::Param { error, .. },
            ) => error.span(),
            DaeShapeContractError::VariableKeyNameMismatch { span, .. } => *span,
            DaeShapeContractError::FunctionKeyNameMismatch { span, .. } => *span,
        }
    }

    /// The explanation.
    pub fn message(&self) -> (s: String)
        ensures
            s@ == self@.text(),
    {
        match self {
            DaeShapeContractError::Variable(e) => {
                let mut s = owned("DAE variable shape contract failed: ");
                s.append(e.message().as_str());
                s
            },
            DaeShapeContractError::Function(FunctionShapeContractError::Param { error, .. }) => {
                let mut s = owned("DAE function shape contract failed: ");
                s.append(error.message().as_str());
                s
            },
            DaeShapeContractError::VariableKeyNameMismatch { partition, key, name, .. } => {
                let mut s = owned("DAE ");
                s.append(partition.label());
                s.append(" variable key `");
                s.append(key.as_str());
                s.append("` does not match variable name `");
                s.append(name.as_str());
                s.append("`");
                s
            },
            DaeShapeContractError::FunctionKeyNameMismatch { key, name, .. } => {
                let mut s = owned("DAE function key `");
                s.append(key.as_str());
                s.append("` does not match function name `");
                s.append(name.as_str());
                s.append("`");
                s
            },
        }
    }

    /// The explanation of the error underneath, where there is one.
    pub fn source_message(&self) -> (s: Option<String>)
        ensures
            match self@ {
                DaeShapeErrorView::Variable(e) => s is Some && s->0@ == e.text(),
                DaeShapeErrorView::Function(FunctionErrorView::Param { error, .. }) => s is Some
                    && s->0@ == error.text(),
                _ => s is None,
            },
    {
        match self {
            DaeShapeContractError::Variable(e) => Some(e.message()),
            DaeShapeContractError::Function(
                FunctionShapeContractError::Param { error, .. },
            ) => Some(error.message()),
            _ => None,
        }
    }
}

/// What is wrong with one entry of a partition, where something is.
pub open spec fn entry_error(partition: DaeVariablePartition, entry: Named<VariableView>) -> Option<
    DaeShapeErrorView,
> {
    if entry.0 != entry.1.name {
        Some(
            DaeShapeErrorView::VariableKeyNameMismatch {
                partition,
                key: entry.0,
                name: entry.1.name,
                span: entry.1.source_span,
            },
        )
    } else {
        match entry.1.shape_error() {
            Some(e) => Some(DaeShapeErrorView::Variable(e)),
            None => None,
        }
    }
}

/// The first error among the first `n` entries of a partition.
pub open spec fn partition_error(
    partition: DaeVariablePartition,
    entries: Seq<Named<VariableView>>,
    n: int,
) -> Option<DaeShapeErrorView>
    decreases n,
{
    if n <= 0 {
        None
    } else {
        match partition_error(partition, entries, n - 1) {
            Some(e) => Some(e),
            None => entry_error(partition, entries[n - 1]),
        }
    }
}

proof fn lemma_partition_error_stays(
    partition: DaeVariablePartition,
    entries: Seq<Named<VariableView>>,
    k: int,
    n: int,
)
    requires
        0 <= k <= n,
        partition_error(partition, entries, k) is Some,
    ensures
        partition_error(partition, entries, n) == partition_error(partition, entries, k),
    decreases n,
{
    if k < n {
        lemma_partition_error_stays(partition, entries, k, n - 1);
    }
}

fn validate_partition_shape_contract(
    partition: DaeVariablePartition,
    variables: &NameMap<Variable>,
) -> (r: Result<(), DaeShapeContractError>)
    requires
        variables.wf(),
    ensures
        match r {
            Ok(()) => whole_partition_error(partition, variables.views()) is None,
            Err(e) => whole_partition_error(partition, variables.views()) == Some(e@),
        },
{
    let mut i: usize = 0;
    let ghost entries = variables.views();
    while i < variables.len()
        invariant
            i <= variables.entries().len(),
            variables.wf(),
            entries == variables.views(),
            partition_error(partition, entries, i as int) is None,
        decreases variables.entries().len() - i,
    {
        let key = variables.name_at(i);
        let variable = variables.value_at(i);
        assert(entries[i as int] == (key@, variable@));
        proof {
            if partition_error(partition, entries, i + 1) is Some {
                lemma_partition_error_stays(partition, entries, i + 1, entries.len() as int);
            }
        }
        if !same_text(key, variable.name.as_str()) {
            return Err(
                DaeShapeContractError::VariableKeyNameMismatch {
                    partition,
                    key: owned(key),
                    name: variable.name.clone(),
                    span: variable.source_span,
                },
            );
        }
        if let Err(e) = variable.try_size() {
            return Err(DaeShapeContractError::Variable(e));
        }
        i = i + 1;
    }
    Ok(())
}

/// The first error of a partition.
pub open spec fn whole_partition_error(
    partition: DaeVariablePartition,
    entries: Seq<Named<VariableView>>,
) -> Option<DaeShapeErrorView> {
    partition_error(partition, entries, entries.len() as int)
}

/// The first of two errors.
pub open spec fn first_error(
    a: Option<DaeShapeErrorView>,
    b: Option<DaeShapeErrorView>,
) -> Option<DaeShapeErrorView> {
    match a {
        Some(e) => Some(e),
        None => b,
    }
}

impl VariablesView {
    /// The first error of the variables, role by role.
    pub open spec fn shape_error(self) -> Option<DaeShapeErrorView> {
        first_error(
            whole_partition_error(DaeVariablePartition::State, self.states),
            first_error(
                whole_partition_error(DaeVariablePartition::Algebraic, self.algebraics),
                first_error(
                    whole_partition_error(DaeVariablePartition::Input, self.inputs),
                    first_error(
                        whole_partition_error(DaeVariablePartition::Output, self.outputs),
                        first_error(
                            whole_partition_error(DaeVariablePartition::Parameter, self.parameters),
                            first_error(
                                whole_partition_error(
                                    DaeVariablePartition::Constant,
                                    self.constants,
                                ),
                                first_error(
                                    whole_partition_error(
                                        DaeVariablePartition::DiscreteReal,
                                        self.discrete_reals,
                                    ),
                                    whole_partition_error(
                                        DaeVariablePartition::DiscreteValued,
                                        self.discrete_valued,
                                    ),
                                ),
                            ),
                        ),
                    ),
                ),
            ),
        )
    }
}

impl DaeVariables {
    /// Every partition is a proper map.
    pub open spec fn wf(self) -> bool {
        &&& self.states.wf()
        &&& self.algebraics.wf()
        &&& self.inputs.wf()
        &&& self.outputs.wf()
        &&& self.parameters.wf()
        &&& self.constants.wf()
        &&& self.discrete_reals.wf()
        &&& self.discrete_valued.wf()
    }

    /// No variables.
    pub fn new() -> (v: DaeVariables)
        ensures
            v.wf(),
            v@ == VariablesView::empty(),
    {
        let v = DaeVariables {
            states: NameMap::new(),
            algebraics: NameMap::new(),
            inputs: NameMap::new(),
            outputs: NameMap::new(),
            parameters: NameMap::new(),
            constants: NameMap::new(),
            discrete_reals: NameMap::new(),
            discrete_valued: NameMap::new(),
        };
        let ghost none = Seq::<Named<VariableView>>::empty();
        assert(v.states.views() =~= none);
        assert(v.algebraics.views() =~= none);
        assert(v.inputs.views() =~= none);
        assert(v.outputs.views() =~= none);
        assert(v.parameters.views() =~= none);
        assert(v.constants.views() =~= none);
        assert(v.discrete_reals.views() =~= none);
        assert(v.discrete_valued.views() =~= none);
        v
    }

    /// Checks that every variable stands under its name and has a shape that
    /// can be used, role by role.
    pub fn validate_shape_contract(&self) -> (r: Result<(), DaeShapeContractError>)
        requires
            self.wf(),
        ensures
            match r {
                Ok(()) => self@.shape_error() is None,
                Err(e) => self@.shape_error() == Some(e@),
            },
    {
        if let Err(e) = validate_partition_shape_contract(
            DaeVariablePartition::State,
            &self.states,
        ) {
            return Err(e);
        }
        if let Err(e) = validate_partition_shape_contract(
            DaeVariablePartition::Algebraic,
            &self.algebraics,
        ) {
            return Err(e);
        }
        if let Err(e) = validate_partition_shape_contract(
            DaeVariablePartition::Input,
            &self.inputs,
        ) {
            return Err(e);
        }
        if let Err(e) = validate_partition_shape_contract(
            DaeVariablePartition::Output,
            &self.outputs,
        ) {
            return Err(e);
        }
        if let Err(e) = validate_partition_shape_contract(
            DaeVariablePartition::Parameter,
            &self.parameters,
        ) {
            return Err(e);
        }
        if let Err(e) = validate_partition_shape_contract(
            DaeVariablePartition::Constant,
            &self.constants,
        ) {
            return Err(e);
        }
        if let Err(e) = validate_partition_shape_contract(
            DaeVariablePartition::DiscreteReal,
            &self.discrete_reals,
        ) {
            return Err(e);
        }
        validate_partition_shape_contract(
            DaeVariablePartition::DiscreteValued,
            &self.discrete_valued,
        )
    }
}

impl VariablesView {
    pub open spec fn empty() -> VariablesView {
        VariablesView {
            states: Seq::empty(),
            algebraics: Seq::empty(),
            inputs: Seq::empty(),
            outputs: Seq::empty(),
            parameters: Seq::empty(),
            constants: Seq::empty(),
            discrete_reals: Seq::empty(),
            discrete_valued: Seq::empty(),
        }
    }
}

/// The implicit continuous equations.
pub struct DaeContinuousPartition {
    pub equations: Vec<Equation>,
}

/// The initial equations.
pub struct DaeInitializationPartition {
    pub equations: Vec<Equation>,
}

/// The updates of discrete variables.
pub struct DaeDiscretePartition {
    pub real_updates: Vec<Equation>,
    pub valued_updates: Vec<Equation>,
}

/// The conditions and the relations that they test.
pub struct DaeConditionPartition {
    pub equations: Vec<Equation>,
    pub relations: Vec<Expression>,
}

/// What happens at events beyond the updates.
pub struct DaeEventPartition {
    pub synthetic_root_conditions: Vec<Expression>,
    pub scheduled_time_events: Vec<Real>,
    pub event_actions: Vec<DaeEventAction>,
}

/// The clocks.
pub struct DaeClockPartition {
    pub constructor_exprs: Vec<Expression>,
    pub schedules: Vec<ClockSchedule>,
    pub triggered_conditions: Vec<Expression>,
    pub intervals: NameMap<Real>,
    pub timings: NameMap<ClockSchedule>,
}

/// Functions and enumeration literals.
pub struct DaeSymbolTable {
    pub functions: NameMap<Function>,
    pub enum_literal_ordinals: NameMap<i64>,
}

#[derive(Clone, Copy, Debug, PartialEq, Eq, Structural)]
pub enum ClassType {
    Class,
    Model,
    Block,
    Connector,
    Record,
    Type,
    Package,
    Function,
    Operator,
}

/// Facts about the model as a whole.
pub struct DaeMetadata {
    pub is_partial: bool,
    pub class_type: ClassType,
    pub variable_starts: NameMap<Expression>,
    pub discrete_input_names: Vec<String>,
    pub interface_flow_count: usize,
    pub overconstrained_interface_count: i64,
    pub oc_break_edge_scalar_count: usize,
    pub model_description: Option<String>,
    /// For each symbol, its owners from the outermost to the symbol itself.
    pub symbol_ancestry: Vec<(DefId, Vec<DefId>)>,
}

/// A hybrid differential-algebraic system.
pub struct Dae {
    pub schema_version: u16,
    pub variables: DaeVariables,
    pub continuous: DaeContinuousPartition,
    pub initialization: DaeInitializationPartition,
    pub discrete: DaeDiscretePartition,
    pub conditions: DaeConditionPartition,
    pub events: DaeEventPartition,
    pub clocks: DaeClockPartition,
    pub symbols: DaeSymbolTable,
    pub metadata: DaeMetadata,
}

/// What the lowering passes read and change of a [`Dae`].
pub struct DaeView {
    pub variables: VariablesView,
    pub continuous: Seq<EquationView>,
    pub initial: Seq<EquationView>,
    pub real_updates: Seq<EquationView>,
    pub valued_updates: Seq<EquationView>,
    pub condition_equations: Seq<EquationView>,
    pub relations: Seq<ExprView>,
    pub triggered: Seq<ExprView>,
    /// Conditions of the event actions.
    pub action_conditions: Seq<ExprView>,
    pub enum_literals: Seq<Named<i64>>,
}

/// The conditions of a list of actions.
pub open spec fn conditions_of(actions: Seq<DaeEventAction>) -> Seq<ExprView> {
    actions.map_values(|a: DaeEventAction| a.condition@)
}

impl View for Dae {
    type V = DaeView;

    open spec fn view(&self) -> DaeView {
        DaeView {
            variables: self.variables@,
            continuous: equation_views(self.continuous.equations@),
            initial: equation_views(self.initialization.equations@),
            real_updates: equation_views(self.discrete.real_updates@),
            valued_updates: equation_views(self.discrete.valued_updates@),
            condition_equations: equation_views(self.conditions.equations@),
            relations: expr_views(self.conditions.relations@),
            triggered: expr_views(self.clocks.triggered_conditions@),
            action_conditions: conditions_of(self.events.event_actions@),
            enum_literals: self.symbols.enum_literal_ordinals.entries(),
        }
    }
}

/// Sum of the sizes of the first `n` variables.
pub open spec fn total_size(entries: Seq<Named<VariableView>>, n: int) -> int
    decreases n,
{
    if n <= 0 {
        0
    } else {
        total_size(entries, n - 1) + size_of_shape(entries[n - 1].1.dims)
    }
}

/// Sum of the sizes of all variables of a partition.
pub open spec fn partition_size(entries: Seq<Named<VariableView>>) -> int {
    total_size(entries, entries.len() as int)
}

/// Whether every variable of a partition has a shape that can be used.
pub open spec fn usable_partition(entries: Seq<Named<VariableView>>) -> bool {
    forall|i: int| 0 <= i < entries.len() ==> usable_shape((#[trigger] entries[i]).1.dims)
}

proof fn lemma_total_size_grows(entries: Seq<Named<VariableView>>, k: int, n: int)
    requires
        0 <= k <= n <= entries.len(),
        usable_partition(entries),
    ensures
        0 <= total_size(entries, k) <= total_size(entries, n),
    decreases n,
{
    if n > 0 {
        crate::dae::variable::lemma_size_is_natural(entries[n - 1].1.dims);
        if k < n {
            lemma_total_size_grows(entries, k, n - 1);
        } else {
            lemma_total_size_grows(entries, n - 1, n - 1);
        }
    }
}

fn size_of_partition(variables: &NameMap<Variable>) -> (n: usize)
    requires
        variables.wf(),
        usable_partition(variables.views()),
        partition_size(variables.views()) <= usize::MAX,
    ensures
        n == partition_size(variables.views()),
{
    let mut total: usize = 0;
    let mut i: usize = 0;
    let ghost entries = variables.views();
    while i < variables.len()
        invariant
            i <= variables.entries().len(),
            variables.wf(),
            entries == variables.views(),
            usable_partition(entries),
            partition_size(entries) <= usize::MAX,
            total == total_size(entries, i as int),
        decreases variables.entries().len() - i,
    {
        assert(entries[i as int].1 == variables.entries()[i as int].1@);
        proof {
            lemma_total_size_grows(entries, i + 1, entries.len() as int);
        }
        total = total + variables.value_at(i).size();
        i = i + 1;
    }
    total
}

impl VariablesView {
    /// Number of variables of all roles.
    pub open spec fn count(self) -> nat {
        self.states.len() + self.algebraics.len() + self.inputs.len() + self.outputs.len()
            + self.parameters.len() + self.constants.len() + self.discrete_reals.len()
            + self.discrete_valued.len()
    }

    /// Whether every variable that takes part at runtime has a usable shape.
    pub open spec fn usable_at_runtime(self) -> bool {
        &&& usable_partition(self.parameters)
        &&& usable_partition(self.constants)
        &&& usable_partition(self.states)
        &&& usable_partition(self.algebraics)
        &&& usable_partition(self.outputs)
        &&& usable_partition(self.discrete_reals)
        &&& usable_partition(self.discrete_valued)
    }
}

impl Dae {
    pub open spec fn wf(self) -> bool {
        &&& self.variables.wf()
        &&& self.clocks.intervals.wf()
        &&& self.clocks.timings.wf()
        &&& self.symbols.functions.wf()
        &&& self.symbols.enum_literal_ordinals.wf()
        &&& self.metadata.variable_starts.wf()
    }

    /// A system without anything.
    pub fn new() -> (d: Dae)
        ensures
            d.wf(),
            d.schema_version == DAE_SCHEMA_VERSION,
            d@ == DaeView::empty(),
            d.symbols.functions.entries().len() == 0,
            d.events.synthetic_root_conditions@.len() == 0,
            d.events.scheduled_time_events@.len() == 0,
            d.events.event_actions@.len() == 0,
            d.clocks.constructor_exprs@.len() == 0,
            d.clocks.schedules@.len() == 0,
            d.clocks.intervals.entries().len() == 0,
            d.clocks.timings.entries().len() == 0,
    {
        let d = Dae {
            schema_version: DAE_SCHEMA_VERSION,
            variables: DaeVariables::new(),
            continuous: DaeContinuousPartition { equations: Vec::new() },
            initialization: DaeInitializationPartition { equations: Vec::new() },
            discrete: DaeDiscretePartition { real_updates: Vec::new(), valued_updates: Vec::new() },
            conditions: DaeConditionPartition { equations: Vec::new(), relations: Vec::new() },
            events: DaeEventPartition {
                synthetic_root_conditions: Vec::new(),
                scheduled_time_events: Vec::new(),
                event_actions: Vec::new(),
            },
            clocks: DaeClockPartition {
                constructor_exprs: Vec::new(),
                schedules: Vec::new(),
                triggered_conditions: Vec::new(),
                intervals: NameMap::new(),
                timings: NameMap::new(),
            },
            symbols: DaeSymbolTable {
                functions: NameMap::new(),
                enum_literal_ordinals: NameMap::new(),
            },
            metadata: DaeMetadata {
                is_partial: false,
                class_type: ClassType::Model,
                variable_starts: NameMap::new(),
                discrete_input_names: Vec::new(),
                interface_flow_count: 0,
                overconstrained_interface_count: 0,
                oc_break_edge_scalar_count: 0,
                model_description: None,
                symbol_ancestry: Vec::new(),
            },
        };
        proof {
            let e = Seq::<EquationView>::empty();
            let x = Seq::<ExprView>::empty();
            assert(d@.continuous =~= e);
            assert(d@.initial =~= e);
            assert(d@.real_updates =~= e);
            assert(d@.valued_updates =~= e);
            assert(d@.condition_equations =~= e);
            assert(d@.relations =~= x);
            assert(d@.triggered =~= x);
            assert(d@.action_conditions =~= x);
        }
        d
    }

    /// Number of variables of all roles.
    pub fn num_variables(&self) -> (n: usize)
        requires
            self@.variables.count() <= usize::MAX,
        ensures
            n == self@.variables.count(),
    {
        self.variables.states.len() + self.variables.algebraics.len() + self.variables.inputs.len()
            + self.variables.outputs.len() + self.variables.parameters.len()
            + self.variables.constants.len() + self.variables.discrete_reals.len()
            + self.variables.discrete_valued.len()
    }

    /// Scalar sizes of the runtime partitions.
    pub fn runtime_partition_scalar_counts(&self) -> (counts: RuntimePartitionScalarCounts)
        requires
            self.wf(),
            self@.variables.usable_at_runtime(),
            partition_size(self@.variables.parameters) + partition_size(
                self@.variables.constants,
            ) <= usize::MAX,
            partition_size(self@.variables.states) <= usize::MAX,
            partition_size(self@.variables.algebraics) + partition_size(self@.variables.outputs)
                <= usize::MAX,
            partition_size(self@.variables.discrete_reals) <= usize::MAX,
            partition_size(self@.variables.discrete_valued) <= usize::MAX,
        ensures
            counts.p == partition_size(self@.variables.parameters) + partition_size(
                self@.variables.constants,
            ),
            counts.t == 1,
            counts.x == partition_size(self@.variables.states),
            counts.y == partition_size(self@.variables.algebraics) + partition_size(
                self@.variables.outputs,
            ),
            counts.z == partition_size(self@.variables.discrete_reals),
            counts.m == partition_size(self@.variables.discrete_valued),
    {
        proof {
            let v = self@.variables;
            lemma_total_size_grows(v.parameters, 0, v.parameters.len() as int);
            lemma_total_size_grows(v.constants, 0, v.constants.len() as int);
            lemma_total_size_grows(v.algebraics, 0, v.algebraics.len() as int);
            lemma_total_size_grows(v.outputs, 0, v.outputs.len() as int);
        }
        RuntimePartitionScalarCounts {
            p: size_of_partition(&self.variables.parameters) + size_of_partition(
                &self.variables.constants,
            ),
            t: 1,
            x: size_of_partition(&self.variables.states),
            y: size_of_partition(&self.variables.algebraics) + size_of_partition(
                &self.variables.outputs,
            ),
            z: size_of_partition(&self.variables.discrete_reals),
            m: size_of_partition(&self.variables.discrete_valued),
        }
    }

    /// Number of continuous equations.
    pub fn num_equations(&self) -> (n: usize)
        ensures
            n == self@.continuous.len(),
    {
        self.continuous.equations.len()
    }

    /// Checks the shapes of the variables, then of the functions.
    pub fn validate_shape_contract(&self) -> (r: Result<(), DaeShapeContractError>)
        requires
            self.wf(),
        ensures
            match r {
                Ok(()) => self.shape_error() is None,
                Err(e) => self.shape_error() == Some(e@),
            },
    {
        if let Err(e) = self.variables.validate_shape_contract() {
            return Err(e);
        }
        let ghost entries = self.symbols.functions.entries();
        let mut i: usize = 0;
        while i < self.symbols.functions.len()
            invariant
                i <= entries.len(),
                self.wf(),
                entries == self.symbols.functions.entries(),
                self@.variables.shape_error() is None,
                functions_error(entries, i as int) is None,
            decreases entries.len() - i,
        {
            let key = self.symbols.functions.name_at(i);
            let function = self.symbols.functions.value_at(i);
            proof {
                if functions_error(entries, i + 1) is Some {
                    lemma_functions_error_stays(entries, i + 1, entries.len() as int);
                }
            }
            if !same_text(key, function.name.as_str()) {
                return Err(
                    DaeShapeContractError::FunctionKeyNameMismatch {
                        key: owned(key),
                        name: function.name.clone(),
                        span: function.span,
                    },
                );
            }
            if let Err(e) = function.validate_shape_contract() {
                return Err(DaeShapeContractError::Function(e));
            }
            i = i + 1;
        }
        Ok(())
    }

    /// The first error of the shapes, variables before functions.
    pub open spec fn shape_error(self) -> Option<DaeShapeErrorView> {
        first_error(
            self@.variables.shape_error(),
            functions_error(
                self.symbols.functions.entries(),
                self.symbols.functions.entries().len() as int,
            ),
        )
    }
}

impl Default for Dae {
    fn default() -> (d: Self)
        ensures
            d.wf(),
            d@ == DaeView::empty(),
            d.schema_version == DAE_SCHEMA_VERSION,
    {
        Dae::new()
    }
}

impl DaeView {
    pub open spec fn empty() -> DaeView {
        DaeView {
            variables: VariablesView::empty(),
            continuous: Seq::empty(),
            initial: Seq::empty(),
            real_updates: Seq::empty(),
            valued_updates: Seq::empty(),
            condition_equations: Seq::empty(),
            relations: Seq::empty(),
            triggered: Seq::empty(),
            action_conditions: Seq::empty(),
            enum_literals: Seq::empty(),
        }
    }
}

/// The first error among the first `n` functions.
pub open spec fn functions_error(entries: Seq<Named<Function>>, n: int) -> Option<DaeShapeErrorView>
    decreases n,
{
    if n <= 0 {
        None
    } else {
        let (key, function) = entries[n - 1];
        first_error(
            functions_error(entries, n - 1),
            if key != function.name@ {
                Some(
                    DaeShapeErrorView::FunctionKeyNameMismatch {
                        key,
                        name: function.name@,
                        span: function.span,
                    },
                )
            } else {
                match function.shape_error() {
                    Some(e) => Some(DaeShapeErrorView::Function(e)),
                    None => None,
                }
            },
        )
    }
}

proof fn lemma_functions_error_stays(entries: Seq<Named<Function>>, k: int, n: int)
    requires
        0 <= k <= n,
        functions_error(entries, k) is Some,
    ensures
        functions_error(entries, n) == functions_error(entries, k),
    decreases n,
{
    if k < n {
        lemma_functions_error_stays(entries, k, n - 1);
    }
}

/// What a reader of another layout version is told.
pub open spec fn unsupported_schema_text(version: u16) -> Seq<char> {
    "unsupported DAE schema_version "@ + nat_text(version as nat) + "; expected "@ + nat_text(
        DAE_SCHEMA_VERSION as nat,
    )
}

/// Accepts data of the supported layout version alone.
pub fn check_schema_version(version: u16) -> (r: Result<(), String>)
    ensures
        match r {
            Ok(()) => version == DAE_SCHEMA_VERSION,
            Err(s) => version != DAE_SCHEMA_VERSION && s@ == unsupported_schema_text(version),
        },
{
    if version == DAE_SCHEMA_VERSION {
        return Ok(());
    }
    let mut s = owned("unsupported DAE schema_version ");
    push_nat(&mut s, version as u64);
    s.append("; expected ");
    push_nat(&mut s, DAE_SCHEMA_VERSION as u64);
    Err(s)
}

/// The name of one scalar of an array variable.
pub fn scalar_name_for_flat_index(name: &str, dims: &[i64], flat_index: usize) -> (s: String)
    requires
        flat_index < usize::MAX,
    ensures
        s@ == crate::dae::shape::scalar_name_text(name@, dims@, flat_index),
{
    scalar_name_text_for_flat_index(name, dims, flat_index)
}

} // verus!
