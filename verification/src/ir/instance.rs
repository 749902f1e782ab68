//! Instances of components and classes, and the overlay that holds them.
use crate::dae::variable::StateSelect;
use crate::expr::tree::{expr_views, ExprView, Expression};
use crate::ir::id_map::{
    distinct_ids, index_of_id, lemma_index_of_id, lemma_with_id_distinct, numbered, value_of_id,
    with_id, IdMap,
};
use crate::ir::name::{
    copy_subscripts, ComponentRefPart, ComponentReference, DefId, InstanceId, PartView,
    QualifiedName, ReferencePartView, ReferenceView,
};
use crate::ir::name_map::{NameMap, Named};
use crate::span::Span;
use crate::text::{held, views};
use vstd::prelude::*;

verus! {

/// How a component may change.
#[derive(Clone, Copy, Debug, PartialEq, Eq, Structural)]
pub enum Variability {
    Empty,
    Constant,
    Parameter,
    Discrete,
}

/// The direction of a component.
#[derive(Clone, Copy, Debug, PartialEq, Eq, Structural)]
pub enum Causality {
    Empty,
    Input,
    Output,
}

/// The kind of a class.
#[derive(Clone, Copy, Debug, PartialEq, Eq, Structural)]
pub enum ClassType {
    Model,
    Class,
    Block,
    Connector,
    Record,
    Type,
    Package,
    Function,
    Operator,
}

/// A replaceable class that a component replaces.
#[derive(Debug)]
pub struct ClassOverride {
    pub alias: String,
    pub alias_def_id: DefId,
    pub target_def_id: DefId,
    pub target_ref: Option<ComponentReference>,
    pub modifier_args: Vec<Expression>,
}

pub struct OverrideView {
    pub alias: Seq<char>,
    pub alias_def_id: DefId,
    pub target_def_id: DefId,
    pub target_ref: Option<ReferenceView>,
    pub modifier_args: Seq<ExprView>,
}

impl View for ClassOverride {
    type V = OverrideView;

    open spec fn view(&self) -> OverrideView {
        OverrideView {
            alias: self.alias@,
            alias_def_id: self.alias_def_id,
            target_def_id: self.target_def_id,
            target_ref: held(self.target_ref),
            modifier_args: expr_views(self.modifier_args@),
        }
    }
}

impl ClassOverride {
    /// A replacement without modifiers.
    pub fn new(
        alias: String,
        alias_def_id: DefId,
        target_def_id: DefId,
        target_ref: Option<ComponentReference>,
    ) -> (r: ClassOverride)
        ensures
            r.alias == alias,
            r.alias_def_id == alias_def_id,
            r.target_def_id == target_def_id,
            r.target_ref == target_ref,
            r.modifier_args@ == Seq::<Expression>::empty(),
    {
        ClassOverride { alias, alias_def_id, target_def_id, target_ref, modifier_args: Vec::new() }
    }

    /// The same replacement with these modifiers.
    pub fn with_modifier_args(self, modifier_args: Vec<Expression>) -> (r: ClassOverride)
        ensures
            r == (ClassOverride { modifier_args, ..self }),
    {
        let mut r = self;
        r.modifier_args = modifier_args;
        r
    }
}

/// What is known of one component instance.
pub struct InstanceData {
    pub instance_id: InstanceId,
    /// The instance as a reference, segment by segment.
    pub component_ref: Option<ComponentReference>,
    pub qualified_name: QualifiedName,
    /// Where the component is declared.
    pub source_span: Span,
    pub dims: Vec<i64>,
    /// Sizes that are not evaluated yet.
    pub dims_expr: Vec<Expression>,
    /// The declared type as it is written.
    pub type_text: String,
    pub type_def_id: Option<DefId>,
    /// The scope in which the component is declared.
    pub declaration_source_scope: Option<QualifiedName>,
    /// Replaced classes, by the class that is replaced.
    pub class_overrides: IdMap<ClassOverride>,
    pub has_forwarding_class_redeclare: bool,
    pub variability: Variability,
    pub causality: Causality,
    pub flow: bool,
    pub stream: bool,
    pub start: Option<Expression>,
    pub fixed: Option<bool>,
    pub min: Option<Expression>,
    pub max: Option<Expression>,
    pub nominal: Option<Expression>,
    pub quantity: Option<String>,
    pub unit: Option<String>,
    pub display_unit: Option<String>,
    pub description: Option<String>,
    pub state_select: StateSelect,
    pub binding: Option<Expression>,
    /// A modifier as it is written, where it gave the binding.
    pub binding_source: Option<Expression>,
    /// The scope in which that modifier is written.
    pub binding_source_scope: Option<QualifiedName>,
    /// The scopes in which attributes are given, by attribute.
    pub attribute_source_scopes: NameMap<QualifiedName>,
    pub binding_from_modification: bool,
    pub is_primitive: bool,
    pub is_discrete_type: bool,
    pub from_expandable_connector: bool,
    /// Whether the value is needed before the simulation.
    pub evaluate: bool,
    /// Whether the value is learned.
    pub trainable: bool,
    pub is_final: bool,
    pub is_overconstrained: bool,
    pub is_protected: bool,
    pub is_connector_type: bool,
    /// The overconstrained record that the component belongs to.
    pub oc_record_path: Option<String>,
    /// The size of that record's equality constraint.
    pub oc_eq_constraint_size: Option<usize>,
}

/// The mathematical content of an [`InstanceData`].
#[verifier::ext_equal]
pub struct InstanceView {
    pub instance_id: InstanceId,
    pub component_ref: Option<ReferenceView>,
    pub qualified_name: Seq<PartView>,
    pub source_span: Span,
    pub dims: Seq<i64>,
    pub dims_expr: Seq<ExprView>,
    pub type_text: Seq<char>,
    pub type_def_id: Option<DefId>,
    pub declaration_source_scope: Option<Seq<PartView>>,
    pub class_overrides: Seq<(u32, OverrideView)>,
    pub has_forwarding_class_redeclare: bool,
    pub variability: Variability,
    pub causality: Causality,
    pub flow: bool,
    pub stream: bool,
    pub start: Option<ExprView>,
    pub fixed: Option<bool>,
    pub min: Option<ExprView>,
    pub max: Option<ExprView>,
    pub nominal: Option<ExprView>,
    pub quantity: Option<Seq<char>>,
    pub unit: Option<Seq<char>>,
    pub display_unit: Option<Seq<char>>,
    pub description: Option<Seq<char>>,
    pub state_select: StateSelect,
    pub binding: Option<ExprView>,
    pub binding_source: Option<ExprView>,
    pub binding_source_scope: Option<Seq<PartView>>,
    pub attribute_source_scopes: Seq<Named<Seq<PartView>>>,
    pub binding_from_modification: bool,
    pub is_primitive: bool,
    pub is_discrete_type: bool,
    pub from_expandable_connector: bool,
    pub evaluate: bool,
    pub trainable: bool,
    pub is_final: bool,
    pub is_overconstrained: bool,
    pub is_protected: bool,
    pub is_connector_type: bool,
    pub oc_record_path: Option<Seq<char>>,
    pub oc_eq_constraint_size: Option<usize>,
}

impl View for InstanceData {
    type V = InstanceView;

    open spec fn view(&self) -> InstanceView {
        InstanceView {
            instance_id: self.instance_id,
            component_ref: held(self.component_ref),
            qualified_name: self.qualified_name@,
            source_span: self.source_span,
            dims: self.dims@,
            dims_expr: expr_views(self.dims_expr@),
            type_text: self.type_text@,
            type_def_id: self.type_def_id,
            declaration_source_scope: held(self.declaration_source_scope),
            class_overrides: self.class_overrides.views(),
            has_forwarding_class_redeclare: self.has_forwarding_class_redeclare,
            variability: self.variability,
            causality: self.causality,
            flow: self.flow,
            stream: self.stream,
            start: held(self.start),
            fixed: self.fixed,
            min: held(self.min),
            max: held(self.max),
            nominal: held(self.nominal),
            quantity: held(self.quantity),
            unit: held(self.unit),
            display_unit: held(self.display_unit),
            description: held(self.description),
            state_select: self.state_select,
            binding: held(self.binding),
            binding_source: held(self.binding_source),
            binding_source_scope: held(self.binding_source_scope),
            attribute_source_scopes: self.attribute_source_scopes.views(),
            binding_from_modification: self.binding_from_modification,
            is_primitive: self.is_primitive,
            is_discrete_type: self.is_discrete_type,
            from_expandable_connector: self.from_expandable_connector,
            evaluate: self.evaluate,
            trainable: self.trainable,
            is_final: self.is_final,
            is_overconstrained: self.is_overconstrained,
            is_protected: self.is_protected,
            is_connector_type: self.is_connector_type,
            oc_record_path: held(self.oc_record_path),
            oc_eq_constraint_size: self.oc_eq_constraint_size,
        }
    }
}

/// An instance of which nothing is known.
pub open spec fn blank_instance() -> InstanceView {
    InstanceView {
        instance_id: InstanceId(0),
        component_ref: None,
        qualified_name: Seq::empty(),
        source_span: Span::dummy_spec(),
        dims: Seq::empty(),
        dims_expr: Seq::empty(),
        type_text: Seq::empty(),
        type_def_id: None,
        declaration_source_scope: None,
        class_overrides: Seq::empty(),
        has_forwarding_class_redeclare: false,
        variability: Variability::Empty,
        causality: Causality::Empty,
        flow: false,
        stream: false,
        start: None,
        fixed: None,
        min: None,
        max: None,
        nominal: None,
        quantity: None,
        unit: None,
        display_unit: None,
        description: None,
        state_select: StateSelect::Default,
        binding: None,
        binding_source: None,
        binding_source_scope: None,
        attribute_source_scopes: Seq::empty(),
        binding_from_modification: false,
        is_primitive: false,
        is_discrete_type: false,
        from_expandable_connector: false,
        evaluate: false,
        trainable: false,
        is_final: false,
        is_overconstrained: false,
        is_protected: false,
        is_connector_type: false,
        oc_record_path: None,
        oc_eq_constraint_size: None,
    }
}

impl Default for InstanceData {
    /// An instance of which nothing is known.
    fn default() -> (r: InstanceData)
        ensures
            r@ == blank_instance(),
            r.class_overrides.wf(),
            r.attribute_source_scopes.wf(),
    {
        let r = InstanceData {
            instance_id: InstanceId(0),
            component_ref: None,
            qualified_name: QualifiedName::new(),
            source_span: Span::dummy(),
            dims: Vec::new(),
            dims_expr: Vec::new(),
            type_text: String::new(),
            type_def_id: None,
            declaration_source_scope: None,
            class_overrides: IdMap::new(),
            has_forwarding_class_redeclare: false,
            variability: Variability::Empty,
            causality: Causality::Empty,
            flow: false,
            stream: false,
            start: None,
            fixed: None,
            min: None,
            max: None,
            nominal: None,
            quantity: None,
            unit: None,
            display_unit: None,
            description: None,
            state_select: StateSelect::Default,
            binding: None,
            binding_source: None,
            binding_source_scope: None,
            attribute_source_scopes: NameMap::new(),
            binding_from_modification: false,
            is_primitive: false,
            is_discrete_type: false,
            from_expandable_connector: false,
            evaluate: false,
            trainable: false,
            is_final: false,
            is_overconstrained: false,
            is_protected: false,
            is_connector_type: false,
            oc_record_path: None,
            oc_eq_constraint_size: None,
        };
        proof {
            assert(r@.dims =~= blank_instance().dims);
            assert(r@.dims_expr =~= blank_instance().dims_expr);
            assert(r@.type_text =~= blank_instance().type_text);
            assert(r@.class_overrides =~= blank_instance().class_overrides);
            assert(r@.attribute_source_scopes =~= blank_instance().attribute_source_scopes);
            assert(r@ =~= blank_instance());
        }
        r
    }
}

/// A path as a reference with this source position.
pub open spec fn reference_of(path: Seq<PartView>, span: Span, def_id: Option<DefId>) -> ReferenceView {
    ReferenceView {
        local: false,
        parts: path.map_values(
            |part: PartView| ReferencePartView { ident: part.0, subs: part.1, span },
        ),
        def_id,
        span,
    }
}

/// The reference to an instance: its segments with their subscripts, each at the
/// position of the declaration.
pub fn component_reference_for_instance(
    qualified_name: &QualifiedName,
    span: Span,
    def_id: Option<DefId>,
) -> (r: ComponentReference)
    ensures
        r@ == reference_of(qualified_name@, span, def_id),
{
    let ghost expected = reference_of(qualified_name@, span, def_id).parts;
    let mut parts: Vec<ComponentRefPart> = Vec::new();
    let mut i: usize = 0;
    assert(parts@.map_values(|p: ComponentRefPart| p@) =~= expected.take(0));
    while i < qualified_name.parts.len()
        invariant
            i <= qualified_name.parts@.len(),
            expected == reference_of(qualified_name@, span, def_id).parts,
            parts@.map_values(|p: ComponentRefPart| p@) == expected.take(i as int),
        decreases qualified_name.parts.len() - i,
    {
        let ghost before = parts@.map_values(|p: ComponentRefPart| p@);
        let part = &qualified_name.parts[i];
        assert(qualified_name@[i as int] == (part.0@, part.1@));
        let new = ComponentRefPart { ident: part.0.clone(), subs: copy_subscripts(&part.1), span };
        assert(new@ == expected[i as int]);
        parts.push(new);
        assert(parts@.map_values(|p: ComponentRefPart| p@) =~= before.push(expected[i as int]));
        i = i + 1;
        assert(parts@.map_values(|p: ComponentRefPart| p@) =~= expected.take(i as int));
    }
    assert(expected.take(i as int) =~= expected);
    ComponentReference { local: false, parts, def_id, span }
}

/// An equation with the place it came from.
#[derive(Debug)]
pub struct InstanceEquation {
    /// What has to be zero.
    pub residual: Expression,
    pub origin: QualifiedName,
    pub source_scope: Option<QualifiedName>,
    pub span: Span,
}

/// The mathematical content of an [`InstanceEquation`].
#[verifier::ext_equal]
pub struct InstanceEquationView {
    pub residual: ExprView,
    pub origin: Seq<PartView>,
    pub source_scope: Option<Seq<PartView>>,
    pub span: Span,
}

impl View for InstanceEquation {
    type V = InstanceEquationView;

    open spec fn view(&self) -> InstanceEquationView {
        InstanceEquationView {
            residual: self.residual@,
            origin: self.origin@,
            source_scope: held(self.source_scope),
            span: self.span,
        }
    }
}

/// An assignment with the place it came from.
#[derive(Debug)]
pub struct InstanceStatement {
    pub target: ComponentReference,
    pub value: Expression,
    pub origin: QualifiedName,
    pub source_scope: Option<QualifiedName>,
    pub span: Span,
}

/// The mathematical content of an [`InstanceStatement`].
#[verifier::ext_equal]
pub struct InstanceStatementView {
    pub target: ReferenceView,
    pub value: ExprView,
    pub origin: Seq<PartView>,
    pub source_scope: Option<Seq<PartView>>,
    pub span: Span,
}

impl View for InstanceStatement {
    type V = InstanceStatementView;

    open spec fn view(&self) -> InstanceStatementView {
        InstanceStatementView {
            target: self.target@,
            value: self.value@,
            origin: self.origin@,
            source_scope: held(self.source_scope),
            span: self.span,
        }
    }
}

/// Two connectors that are connected.
#[derive(Debug)]
pub struct InstanceConnection {
    pub a: QualifiedName,
    pub b: QualifiedName,
    pub connector_type: Option<DefId>,
    pub span: Span,
    /// The class instance that connects them; nothing for the root.
    pub scope: String,
}

/// The mathematical content of an [`InstanceConnection`].
#[verifier::ext_equal]
pub struct InstanceConnectionView {
    pub a: Seq<PartView>,
    pub b: Seq<PartView>,
    pub connector_type: Option<DefId>,
    pub span: Span,
    pub scope: Seq<char>,
}

impl View for InstanceConnection {
    type V = InstanceConnectionView;

    open spec fn view(&self) -> InstanceConnectionView {
        InstanceConnectionView {
            a: self.a@,
            b: self.b@,
            connector_type: self.connector_type,
            span: self.span,
            scope: self.scope@,
        }
    }
}

/// The contents of a list.
pub open spec fn list_views<T: View>(list: Seq<T>) -> Seq<T::V> {
    list.map_values(|x: T| x@)
}

/// The contents of a list of lists.
pub open spec fn nested_views<T: View>(list: Seq<Vec<T>>) -> Seq<Seq<T::V>> {
    list.map_values(|x: Vec<T>| list_views(x@))
}

/// The contents of a list of short names and what they stand for.
pub open spec fn import_views(list: Seq<(String, String)>) -> Seq<(Seq<char>, Seq<char>)> {
    list.map_values(|x: (String, String)| (x.0@, x.1@))
}

/// What is known of one class instance.
#[derive(Debug)]
pub struct ClassInstanceData {
    pub instance_id: InstanceId,
    pub class_def_id: Option<DefId>,
    pub qualified_name: QualifiedName,
    pub source_scope: Option<QualifiedName>,
    pub equations: Vec<InstanceEquation>,
    pub initial_equations: Vec<InstanceEquation>,
    pub algorithms: Vec<Vec<InstanceStatement>>,
    pub initial_algorithms: Vec<Vec<InstanceStatement>>,
    pub connections: Vec<InstanceConnection>,
    /// Short names and what they stand for.
    pub resolved_imports: Vec<(String, String)>,
}

/// The mathematical content of a [`ClassInstanceData`].
#[verifier::ext_equal]
pub struct ClassInstanceView {
    pub instance_id: InstanceId,
    pub class_def_id: Option<DefId>,
    pub qualified_name: Seq<PartView>,
    pub source_scope: Option<Seq<PartView>>,
    pub equations: Seq<InstanceEquationView>,
    pub initial_equations: Seq<InstanceEquationView>,
    pub algorithms: Seq<Seq<InstanceStatementView>>,
    pub initial_algorithms: Seq<Seq<InstanceStatementView>>,
    pub connections: Seq<InstanceConnectionView>,
    pub resolved_imports: Seq<(Seq<char>, Seq<char>)>,
}

impl View for ClassInstanceData {
    type V = ClassInstanceView;

    open spec fn view(&self) -> ClassInstanceView {
        ClassInstanceView {
            instance_id: self.instance_id,
            class_def_id: self.class_def_id,
            qualified_name: self.qualified_name@,
            source_scope: held(self.source_scope),
            equations: list_views(self.equations@),
            initial_equations: list_views(self.initial_equations@),
            algorithms: nested_views(self.algorithms@),
            initial_algorithms: nested_views(self.initial_algorithms@),
            connections: list_views(self.connections@),
            resolved_imports: import_views(self.resolved_imports@),
        }
    }
}

/// The instances of a model, and what else instantiation found out.
pub struct InstanceOverlay {
    pub components: IdMap<InstanceData>,
    pub classes: IdMap<ClassInstanceData>,
    /// Whether the root is partial.
    pub is_partial: bool,
    /// The kind of the root.
    pub class_type: ClassType,
    pub root_description: Option<String>,
    /// Paths of components whose condition is false, in the order found.
    pub disabled_components: NameMap<bool>,
    /// Sizes of arrays of components, by path.
    pub array_parent_dims: NameMap<Vec<i64>>,
    /// The inner path of each outer path.
    pub outer_prefix_to_inner: NameMap<String>,
    /// The enclosing inner path of each path that is both inner and outer.
    pub inner_outer_to_parent_inner: NameMap<String>,
    /// Inner declarations that were made up.
    pub synthesized_inners: Vec<String>,
    pub next_id: u32,
}

/// The mathematical content of an [`InstanceOverlay`].
#[verifier::ext_equal]
pub struct OverlayView {
    pub components: Seq<(u32, InstanceView)>,
    pub classes: Seq<(u32, ClassInstanceView)>,
    pub is_partial: bool,
    pub class_type: ClassType,
    pub root_description: Option<Seq<char>>,
    pub disabled_components: Seq<Named<bool>>,
    pub array_parent_dims: Seq<Named<Seq<i64>>>,
    pub outer_prefix_to_inner: Seq<Named<Seq<char>>>,
    pub inner_outer_to_parent_inner: Seq<Named<Seq<char>>>,
    pub synthesized_inners: Seq<Seq<char>>,
    pub next_id: u32,
}

impl View for InstanceOverlay {
    type V = OverlayView;

    open spec fn view(&self) -> OverlayView {
        OverlayView {
            components: self.components.views(),
            classes: self.classes.views(),
            is_partial: self.is_partial,
            class_type: self.class_type,
            root_description: held(self.root_description),
            disabled_components: self.disabled_components.entries(),
            array_parent_dims: self.array_parent_dims.views(),
            outer_prefix_to_inner: self.outer_prefix_to_inner.views(),
            inner_outer_to_parent_inner: self.inner_outer_to_parent_inner.views(),
            synthesized_inners: views(self.synthesized_inners@),
            next_id: self.next_id,
        }
    }
}

/// An overlay without instances.
pub open spec fn empty_overlay() -> OverlayView {
    OverlayView {
        components: Seq::empty(),
        classes: Seq::empty(),
        is_partial: false,
        class_type: ClassType::Model,
        root_description: None,
        disabled_components: Seq::empty(),
        array_parent_dims: Seq::empty(),
        outer_prefix_to_inner: Seq::empty(),
        inner_outer_to_parent_inner: Seq::empty(),
        synthesized_inners: Seq::empty(),
        next_id: 0,
    }
}

impl InstanceOverlay {
    pub open spec fn wf(self) -> bool {
        &&& self.components.wf()
        &&& self.classes.wf()
        &&& self.disabled_components.wf()
        &&& self.array_parent_dims.wf()
        &&& self.outer_prefix_to_inner.wf()
        &&& self.inner_outer_to_parent_inner.wf()
    }

    /// An overlay without instances.
    pub fn new() -> (r: InstanceOverlay)
        ensures
            r.wf(),
            r@ == empty_overlay(),
    {
        let r = InstanceOverlay {
            components: IdMap::new(),
            classes: IdMap::new(),
            is_partial: false,
            class_type: ClassType::Model,
            root_description: None,
            disabled_components: NameMap::new(),
            array_parent_dims: NameMap::new(),
            outer_prefix_to_inner: NameMap::new(),
            inner_outer_to_parent_inner: NameMap::new(),
            synthesized_inners: Vec::new(),
            next_id: 0,
        };
        proof {
            assert(r@.components =~= empty_overlay().components);
            assert(r@.classes =~= empty_overlay().classes);
            assert(r@.array_parent_dims =~= empty_overlay().array_parent_dims);
            assert(r@.outer_prefix_to_inner =~= empty_overlay().outer_prefix_to_inner);
            assert(r@.inner_outer_to_parent_inner =~= empty_overlay().inner_outer_to_parent_inner);
            assert(r@.synthesized_inners =~= empty_overlay().synthesized_inners);
            assert(r@ =~= empty_overlay());
        }
        r
    }

    /// The next free identity.
    pub fn alloc_id(&mut self) -> (id: InstanceId)
        requires
            old(self).wf(),
            old(self).next_id < u32::MAX,
        ensures
            final(self).wf(),
            id == InstanceId(old(self)@.next_id),
            final(self)@ == (OverlayView { next_id: (old(self)@.next_id + 1) as u32, ..old(self)@ }),
    {
        let id = InstanceId(self.next_id);
        self.next_id = self.next_id + 1;
        id
    }

    /// Adds a component instance under its identity.
    pub fn add_component(&mut self, data: InstanceData)
        requires
            old(self).wf(),
        ensures
            final(self).wf(),
            final(self)@ == (OverlayView {
                components: with_id(old(self)@.components, data@.instance_id.0, data@),
                ..old(self)@
            }),
    {
        proof {
            self.components.lemma_with_id(data.instance_id.0, data);
        }
        let id: u32 = data.instance_id.0;
        self.components.insert(id, data);
    }

    /// Adds a class instance under its identity.
    pub fn add_class(&mut self, data: ClassInstanceData)
        requires
            old(self).wf(),
        ensures
            final(self).wf(),
            final(self)@ == (OverlayView {
                classes: with_id(old(self)@.classes, data@.instance_id.0, data@),
                ..old(self)@
            }),
    {
        proof {
            self.classes.lemma_with_id(data.instance_id.0, data);
        }
        let id: u32 = data.instance_id.0;
        self.classes.insert(id, data);
    }

    /// The component instance with an identity.
    pub fn get_component(&self, instance_id: InstanceId) -> (r: Option<&InstanceData>)
        requires
            self.wf(),
        ensures
            match r {
                Some(data) => value_of_id(self@.components, instance_id.0) == Some(data@),
                None => !numbered(self@.components, instance_id.0),
            },
    {
        proof {
            self.components.lemma_views(instance_id.0);
        }
        self.components.get(instance_id.0)
    }

    /// The class instance with an identity.
    pub fn get_class(&self, instance_id: InstanceId) -> (r: Option<&ClassInstanceData>)
        requires
            self.wf(),
        ensures
            match r {
                Some(data) => value_of_id(self@.classes, instance_id.0) == Some(data@),
                None => !numbered(self@.classes, instance_id.0),
            },
    {
        proof {
            self.classes.lemma_views(instance_id.0);
        }
        self.classes.get(instance_id.0)
    }

    /// Whether inner declarations were made up.
    pub fn used_synthesized_inners(&self) -> (r: bool)
        ensures
            r == (self@.synthesized_inners.len() > 0),
    {
        self.synthesized_inners.len() > 0
    }
}

impl Default for InstanceOverlay {
    fn default() -> (r: InstanceOverlay)
        ensures
            r.wf(),
            r@ == empty_overlay(),
    {
        InstanceOverlay::new()
    }
}

/// What is added under an identity is found under it, and every other identity
/// keeps what it had.
pub proof fn law_added_component_is_found(
    before: Seq<(u32, InstanceView)>,
    data: InstanceView,
    other: u32,
)
    requires
        distinct_ids(before),
    ensures
        value_of_id(with_id(before, data.instance_id.0, data), data.instance_id.0) == Some(data),
        other != data.instance_id.0 ==> value_of_id(
            with_id(before, data.instance_id.0, data),
            other,
        ) == value_of_id(before, other),
{
    let id = data.instance_id.0;
    let after = with_id(before, id, data);
    lemma_with_id_distinct(before, id, data);
    if numbered(before, id) {
        let i = index_of_id(before, id);
        assert(after[i] == (id, data));
        lemma_index_of_id(after, id, i);
    } else {
        assert(after[before.len() as int] == (id, data));
        lemma_index_of_id(after, id, before.len() as int);
    }
    if other != id {
        if numbered(before, other) {
            let k = index_of_id(before, other);
            assert(before[k].0 == other);
            assert(after[k] == before[k]);
            lemma_index_of_id(after, other, k);
        } else if numbered(after, other) {
            let k = index_of_id(after, other);
            assert(after[k].0 == other);
            assert(k < before.len());
            assert(before[k].0 == other);
        }
    }
}

} // verus!
