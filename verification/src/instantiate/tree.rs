//! Classes and their components before instantiation.
use crate::dae::variable::StateSelect;
use crate::expr::tree::{expr_views, ExprView, Expression};
use crate::instantiate::annotation::{annotation_views, Annotation, AnnotationView};
use crate::instantiate::sections::{ClassSections, SectionsView};
use crate::ir::instance::{Causality, ClassOverride, ClassType, OverrideView, Variability};
use crate::ir::modification::{ModificationValue, ModificationView};
use crate::ir::name::{DefId, PartView, QualifiedName};
use crate::ir::name_map::{NameMap, Named};
use crate::ir::path_map::Entry;
use crate::span::Span;
use crate::text::{chars_of, held, join, join_text, owned, same_text, views};
use vstd::prelude::*;

verus! {

/// The types that need no class.
#[derive(Clone, Copy, Debug, PartialEq, Eq, Structural)]
pub enum Primitive {
    Number,
    Integer,
    Boolean,
    Text,
}

/// The attributes that modifications give a component.
pub struct ExtractedAttributes {
    pub start: Option<Expression>,
    pub start_is_explicit: bool,
    pub fixed: Option<bool>,
    pub min: Option<Expression>,
    pub max: Option<Expression>,
    pub nominal: Option<Expression>,
    /// The scopes in which attributes are given, by attribute.
    pub source_scopes: NameMap<QualifiedName>,
    pub quantity: Option<String>,
    pub unit: Option<String>,
    pub display_unit: Option<String>,
    pub state_select: StateSelect,
}

/// The mathematical content of an [`ExtractedAttributes`].
pub struct AttributesView {
    pub start: Option<ExprView>,
    pub start_is_explicit: bool,
    pub fixed: Option<bool>,
    pub min: Option<ExprView>,
    pub max: Option<ExprView>,
    pub nominal: Option<ExprView>,
    pub source_scopes: Seq<Named<Seq<PartView>>>,
    pub quantity: Option<Seq<char>>,
    pub unit: Option<Seq<char>>,
    pub display_unit: Option<Seq<char>>,
    pub state_select: StateSelect,
}

impl View for ExtractedAttributes {
    type V = AttributesView;

    open spec fn view(&self) -> AttributesView {
        AttributesView {
            start: held(self.start),
            start_is_explicit: self.start_is_explicit,
            fixed: self.fixed,
            min: held(self.min),
            max: held(self.max),
            nominal: held(self.nominal),
            source_scopes: self.source_scopes.views(),
            quantity: held(self.quantity),
            unit: held(self.unit),
            display_unit: held(self.display_unit),
            state_select: self.state_select,
        }
    }
}

/// No attributes.
pub open spec fn no_attributes() -> AttributesView {
    AttributesView {
        start: None,
        start_is_explicit: false,
        fixed: None,
        min: None,
        max: None,
        nominal: None,
        source_scopes: Seq::empty(),
        quantity: None,
        unit: None,
        display_unit: None,
        state_select: StateSelect::Default,
    }
}

impl ExtractedAttributes {
    /// No attributes.
    pub fn none() -> (r: ExtractedAttributes)
        ensures
            r.source_scopes.wf(),
            r@ == no_attributes(),
    {
        let r = ExtractedAttributes {
            start: None,
            start_is_explicit: false,
            fixed: None,
            min: None,
            max: None,
            nominal: None,
            source_scopes: NameMap::new(),
            quantity: None,
            unit: None,
            display_unit: None,
            state_select: StateSelect::Default,
        };
        assert(r@.source_scopes =~= Seq::empty());
        r
    }
}

/// The contents of modifications as they are said.
pub open spec fn said_modifications(list: Seq<(QualifiedName, ModificationValue)>) -> Seq<
    Entry<ModificationView>,
> {
    Seq::new(list.len(), |i: int| (list[i].0@, list[i].1@))
}

/// A component of a class.
pub struct Component {
    pub name: String,
    /// The type as it is written.
    pub type_text: String,
    pub type_def_id: Option<DefId>,
    /// What the first segment of the type's name is known to be.
    pub type_name_def_id: Option<DefId>,
    /// Classes that the component replaces inside it.
    pub class_overrides: Vec<ClassOverride>,
    /// Whether one of them is replaced by what the class around replaces it by.
    pub has_forwarding_class_redeclare: bool,
    pub def_id: Option<DefId>,
    pub inner: bool,
    pub outer: bool,
    pub variability: Variability,
    pub causality: Causality,
    pub flow: bool,
    pub stream: bool,
    pub is_final: bool,
    pub is_protected: bool,
    /// Whether the size of something depends on the component.
    pub is_structural: bool,
    /// What has to hold for the component to be there.
    pub condition: Option<Expression>,
    /// The dimensions, where their expressions are not known.
    pub dims: Vec<i64>,
    pub dims_expr: Vec<Expression>,
    pub binding: Option<Expression>,
    /// Modifications of what is inside the component, by path from it.
    pub modifications: Vec<(QualifiedName, ModificationValue)>,
    pub attributes: ExtractedAttributes,
    pub annotations: Vec<Annotation>,
    pub description: Option<String>,
    pub span: Span,
    /// The scope in which the component is declared.
    pub declaration_scope: Option<QualifiedName>,
}

/// The mathematical content of a [`Component`].
pub struct ComponentView {
    pub name: Seq<char>,
    pub type_text: Seq<char>,
    pub type_def_id: Option<DefId>,
    pub type_name_def_id: Option<DefId>,
    pub class_overrides: Seq<OverrideView>,
    pub has_forwarding_class_redeclare: bool,
    pub def_id: Option<DefId>,
    pub inner: bool,
    pub outer: bool,
    pub variability: Variability,
    pub causality: Causality,
    pub flow: bool,
    pub stream: bool,
    pub is_final: bool,
    pub is_protected: bool,
    pub is_structural: bool,
    pub condition: Option<ExprView>,
    pub dims: Seq<i64>,
    pub dims_expr: Seq<ExprView>,
    pub binding: Option<ExprView>,
    pub modifications: Seq<Entry<ModificationView>>,
    pub attributes: AttributesView,
    pub annotations: Seq<AnnotationView>,
    pub description: Option<Seq<char>>,
    pub span: Span,
    pub declaration_scope: Option<Seq<PartView>>,
}

impl View for Component {
    type V = ComponentView;

    open spec fn view(&self) -> ComponentView {
        ComponentView {
            name: self.name@,
            type_text: self.type_text@,
            type_def_id: self.type_def_id,
            type_name_def_id: self.type_name_def_id,
            class_overrides: override_views(self.class_overrides@),
            has_forwarding_class_redeclare: self.has_forwarding_class_redeclare,
            def_id: self.def_id,
            inner: self.inner,
            outer: self.outer,
            variability: self.variability,
            causality: self.causality,
            flow: self.flow,
            stream: self.stream,
            is_final: self.is_final,
            is_protected: self.is_protected,
            is_structural: self.is_structural,
            condition: held(self.condition),
            dims: self.dims@,
            dims_expr: expr_views(self.dims_expr@),
            binding: held(self.binding),
            modifications: said_modifications(self.modifications@),
            attributes: self.attributes@,
            annotations: annotation_views(self.annotations@),
            description: held(self.description),
            span: self.span,
            declaration_scope: held(self.declaration_scope),
        }
    }
}

impl Component {
    pub open spec fn wf(self) -> bool {
        self.attributes.source_scopes.wf()
    }

    /// A component without prefixes, values or attributes.
    pub fn plain(name: &str, type_text: &str, span: Span) -> (c: Component)
        ensures
            c.wf(),
            c@ == plain_component(name@, type_text@, span),
    {
        let c = Component {
            name: owned(name),
            type_text: owned(type_text),
            type_def_id: None,
            type_name_def_id: None,
            class_overrides: Vec::new(),
            has_forwarding_class_redeclare: false,
            def_id: None,
            inner: false,
            outer: false,
            variability: Variability::Empty,
            causality: Causality::Empty,
            flow: false,
            stream: false,
            is_final: false,
            is_protected: false,
            is_structural: false,
            condition: None,
            dims: Vec::new(),
            dims_expr: Vec::new(),
            binding: None,
            modifications: Vec::new(),
            attributes: ExtractedAttributes::none(),
            annotations: Vec::new(),
            description: None,
            span,
            declaration_scope: None,
        };
        assert(c@.dims =~= Seq::<i64>::empty());
        assert(c@.class_overrides =~= Seq::<OverrideView>::empty());
        assert(c@.dims_expr =~= Seq::<ExprView>::empty());
        assert(c@.annotations =~= Seq::<AnnotationView>::empty());
        assert(c@.modifications =~= Seq::<Entry<ModificationView>>::empty());
        c
    }
}

/// A component without prefixes, values or attributes.
pub open spec fn plain_component(name: Seq<char>, type_text: Seq<char>, span: Span) -> ComponentView {
    ComponentView {
        name,
        type_text,
        type_def_id: None,
        type_name_def_id: None,
        class_overrides: Seq::empty(),
        has_forwarding_class_redeclare: false,
        def_id: None,
        inner: false,
        outer: false,
        variability: Variability::Empty,
        causality: Causality::Empty,
        flow: false,
        stream: false,
        is_final: false,
        is_protected: false,
        is_structural: false,
        condition: None,
        dims: Seq::empty(),
        dims_expr: Seq::empty(),
        binding: None,
        modifications: Seq::empty(),
        attributes: no_attributes(),
        annotations: Seq::empty(),
        description: None,
        span,
        declaration_scope: None,
    }
}

/// An attribute that a type gives its values.
#[derive(Debug)]
pub struct TypeAttribute {
    pub name: String,
    pub value: Expression,
    /// Whether it may not be modified.
    pub is_final: bool,
}

/// The mathematical content of a [`TypeAttribute`].
pub struct TypeAttributeView {
    pub name: Seq<char>,
    pub value: ExprView,
    pub is_final: bool,
}

impl View for TypeAttribute {
    type V = TypeAttributeView;

    open spec fn view(&self) -> TypeAttributeView {
        TypeAttributeView { name: self.name@, value: self.value@, is_final: self.is_final }
    }
}

/// The contents of a list of attributes.
pub open spec fn type_attribute_views(list: Seq<TypeAttribute>) -> Seq<TypeAttributeView> {
    Seq::new(list.len(), |i: int| list[i]@)
}

/// The contents of a list of replaced classes.
pub open spec fn override_views(list: Seq<ClassOverride>) -> Seq<OverrideView> {
    Seq::new(list.len(), |i: int| list[i]@)
}

/// A class with all its components, inherited ones among them.
pub struct ClassDef {
    /// The full name.
    pub name: String,
    pub def_id: Option<DefId>,
    pub class_type: ClassType,
    pub partial: bool,
    pub expandable: bool,
    pub causality: Causality,
    /// The primitive type that the class is another name of.
    pub base: Option<Primitive>,
    /// The size of the equality constraint that the class defines.
    pub eq_constraint_size: Option<usize>,
    /// The full names of the classes that it extends.
    pub bases: Vec<String>,
    /// The attributes that it gives its values, as a type.
    pub type_attributes: Vec<TypeAttribute>,
    pub components: Vec<Component>,
    pub sections: ClassSections,
    pub description: Option<String>,
    pub span: Span,
    /// The scope of the class.
    pub scope: Option<QualifiedName>,
}

/// The mathematical content of a [`ClassDef`].
pub struct ClassView {
    pub name: Seq<char>,
    pub def_id: Option<DefId>,
    pub class_type: ClassType,
    pub partial: bool,
    pub expandable: bool,
    pub causality: Causality,
    pub base: Option<Primitive>,
    pub eq_constraint_size: Option<usize>,
    pub bases: Seq<Seq<char>>,
    pub type_attributes: Seq<TypeAttributeView>,
    pub components: Seq<ComponentView>,
    pub sections: SectionsView,
    pub description: Option<Seq<char>>,
    pub span: Span,
    pub scope: Option<Seq<PartView>>,
}

/// The contents of a list of components.
pub open spec fn component_views(list: Seq<Component>) -> Seq<ComponentView> {
    Seq::new(list.len(), |i: int| list[i]@)
}

impl View for ClassDef {
    type V = ClassView;

    open spec fn view(&self) -> ClassView {
        ClassView {
            name: self.name@,
            def_id: self.def_id,
            class_type: self.class_type,
            partial: self.partial,
            expandable: self.expandable,
            causality: self.causality,
            base: self.base,
            eq_constraint_size: self.eq_constraint_size,
            bases: views(self.bases@),
            type_attributes: type_attribute_views(self.type_attributes@),
            components: component_views(self.components@),
            sections: self.sections@,
            description: held(self.description),
            span: self.span,
            scope: held(self.scope),
        }
    }
}

/// All classes of a program.
pub struct ClassTree {
    pub classes: Vec<ClassDef>,
}

/// The contents of a list of classes.
pub open spec fn class_views(list: Seq<ClassDef>) -> Seq<ClassView> {
    Seq::new(list.len(), |i: int| list[i]@)
}

impl View for ClassTree {
    type V = Seq<ClassView>;

    open spec fn view(&self) -> Seq<ClassView> {
        class_views(self.classes@)
    }
}

impl ClassTree {
    pub open spec fn wf(self) -> bool {
        forall|i: int, j: int|
            #![trigger self.classes@[i].components@[j]]
            0 <= i < self.classes@.len() && 0 <= j < self.classes@[i].components@.len()
                ==> self.classes@[i].components@[j].wf()
    }

    /// A tree without classes.
    pub fn new() -> (t: ClassTree)
        ensures
            t.wf(),
            t@ == Seq::<ClassView>::empty(),
    {
        let t = ClassTree { classes: Vec::new() };
        assert(t@ =~= Seq::<ClassView>::empty());
        t
    }
}

/// The first of the first `n` classes with this name.
pub open spec fn class_named_in(tree: Seq<ClassView>, name: Seq<char>, n: int) -> Option<int>
    decreases n,
{
    if n <= 0 {
        None
    } else if class_named_in(tree, name, n - 1) is Some {
        class_named_in(tree, name, n - 1)
    } else if tree[n - 1].name == name {
        Some(n - 1)
    } else {
        None
    }
}

/// The class with this name.
pub open spec fn class_named(tree: Seq<ClassView>, name: Seq<char>) -> Option<int> {
    class_named_in(tree, name, tree.len() as int)
}

proof fn lemma_first_name_stays(tree: Seq<ClassView>, name: Seq<char>, k: int, n: int)
    requires
        0 <= k <= n,
        class_named_in(tree, name, k) is Some,
    ensures
        class_named_in(tree, name, n) == class_named_in(tree, name, k),
    decreases n,
{
    if k < n {
        lemma_first_name_stays(tree, name, k, n - 1);
    }
}

/// The class with this name.
pub fn find_class_in_tree(tree: &ClassTree, name: &str) -> (r: Option<usize>)
    ensures
        match r {
            Some(i) => class_named(tree@, name@) == Some(i as int) && i < tree@.len(),
            None => class_named(tree@, name@) is None,
        },
{
    let mut i: usize = 0;
    while i < tree.classes.len()
        invariant
            i <= tree.classes@.len(),
            class_named_in(tree@, name@, i as int) is None,
        decreases tree.classes.len() - i,
    {
        assert(tree@[i as int] == tree.classes@[i as int]@);
        if same_text(tree.classes[i].name.as_str(), name) {
            proof {
                lemma_first_name_stays(tree@, name@, i + 1, tree@.len() as int);
            }
            return Some(i);
        }
        i = i + 1;
    }
    None
}

/// The first of the first `n` classes with this definition.
pub open spec fn class_defined_in(tree: Seq<ClassView>, def_id: DefId, n: int) -> Option<int>
    decreases n,
{
    if n <= 0 {
        None
    } else if class_defined_in(tree, def_id, n - 1) is Some {
        class_defined_in(tree, def_id, n - 1)
    } else if tree[n - 1].def_id == Some(def_id) {
        Some(n - 1)
    } else {
        None
    }
}

/// The class with this definition.
pub open spec fn class_defined(tree: Seq<ClassView>, def_id: DefId) -> Option<int> {
    class_defined_in(tree, def_id, tree.len() as int)
}

proof fn lemma_first_definition_stays(tree: Seq<ClassView>, def_id: DefId, k: int, n: int)
    requires
        0 <= k <= n,
        class_defined_in(tree, def_id, k) is Some,
    ensures
        class_defined_in(tree, def_id, n) == class_defined_in(tree, def_id, k),
    decreases n,
{
    if k < n {
        lemma_first_definition_stays(tree, def_id, k, n - 1);
    }
}

/// The class with this definition.
pub fn find_class_by_def(tree: &ClassTree, def_id: DefId) -> (r: Option<usize>)
    ensures
        match r {
            Some(i) => class_defined(tree@, def_id) == Some(i as int) && i < tree@.len(),
            None => class_defined(tree@, def_id) is None,
        },
{
    let mut i: usize = 0;
    while i < tree.classes.len()
        invariant
            i <= tree.classes@.len(),
            class_defined_in(tree@, def_id, i as int) is None,
        decreases tree.classes.len() - i,
    {
        assert(tree@[i as int] == tree.classes@[i as int]@);
        match tree.classes[i].def_id {
            Some(d) => {
                if d.0 == def_id.0 {
                    proof {
                        lemma_first_definition_stays(tree@, def_id, i + 1, tree@.len() as int);
                    }
                    return Some(i);
                }
            },
            None => {},
        }
        i = i + 1;
    }
    None
}

/// The last segment of the first `i` characters of a name.
pub open spec fn leaf_from(name: Seq<char>, i: int) -> Seq<char>
    decreases i,
{
    if i <= 0 || i > name.len() {
        name
    } else if name[i - 1] == '.' {
        name.skip(i)
    } else {
        leaf_from(name, i - 1)
    }
}

/// The last segment of a name.
pub open spec fn leaf(name: Seq<char>) -> Seq<char> {
    leaf_from(name, name.len() as int)
}

/// Whether two names end in the same segment.
pub fn same_leaf(a: &str, b: &str) -> (r: bool)
    ensures
        r == (leaf(a@) == leaf(b@)),
{
    let x = leaf_chars(a);
    let y = leaf_chars(b);
    if x.len() != y.len() {
        return false;
    }
    let mut i: usize = 0;
    while i < x.len()
        invariant
            x@ == leaf(a@),
            y@ == leaf(b@),
            x@.len() == y@.len(),
            i <= x@.len(),
            forall|k: int| 0 <= k < i ==> x@[k] == #[trigger] y@[k],
        decreases x.len() - i,
    {
        if x[i] != y[i] {
            return false;
        }
        i = i + 1;
    }
    assert(x@ =~= y@);
    true
}

fn leaf_chars(name: &str) -> (r: Vec<char>)
    ensures
        r@ == leaf(name@),
{
    let chars = chars_of(name);
    let mut i: usize = chars.len();
    while i > 0 && chars[i - 1] != '.'
        invariant
            chars@ == name@,
            i <= chars@.len(),
            leaf(name@) == leaf_from(name@, i as int),
        decreases i,
    {
        i = i - 1;
    }
    let ghost start = i;
    let mut r: Vec<char> = Vec::new();
    while i < chars.len()
        invariant
            chars@ == name@,
            start <= i <= chars@.len(),
            r@ == name@.subrange(start as int, i as int),
        decreases chars.len() - i,
    {
        r.push(chars[i]);
        i = i + 1;
        assert(name@.subrange(start as int, i as int) =~= name@.subrange(
            start as int,
            i - 1,
        ).push(name@[i - 1]));
    }
    assert(r@ =~= name@.skip(start as int));
    assert(start == 0 ==> name@.skip(0) =~= name@);
    r
}

/// The first `n` segments of a path with a name behind them.
pub open spec fn scoped_name(scope: Seq<PartView>, n: int, name: Seq<char>) -> Seq<char> {
    if n <= 0 {
        name
    } else {
        join_text(Seq::new(n as nat, |i: int| scope[i].0), "."@) + "."@ + name
    }
}

/// The name as the innermost of the first `n` scopes around it knows it.
pub open spec fn name_in_scope(
    tree: Seq<ClassView>,
    name: Seq<char>,
    scope: Seq<PartView>,
    n: int,
) -> Option<Seq<char>>
    decreases n + 1,
{
    if n < 0 {
        None
    } else if class_named(tree, scoped_name(scope, n, name)) is Some {
        Some(scoped_name(scope, n, name))
    } else {
        name_in_scope(tree, name, scope, n - 1)
    }
}

fn make_scoped_name(scope: &QualifiedName, n: usize, name: &str) -> (s: String)
    requires
        n <= scope@.len(),
    ensures
        s@ == scoped_name(scope@, n as int, name@),
{
    if n == 0 {
        return owned(name);
    }
    let mut parts: Vec<String> = Vec::new();
    let mut i: usize = 0;
    assert(views(parts@) =~= Seq::new(0, |i: int| scope@[i].0));
    while i < n
        invariant
            i <= n <= scope@.len(),
            views(parts@) == Seq::new(i as nat, |i: int| scope@[i].0),
        decreases n - i,
    {
        let ghost before = views(parts@);
        assert(scope@[i as int] == (scope.parts@[i as int].0@, scope.parts@[i as int].1@));
        parts.push(scope.parts[i].0.clone());
        assert(views(parts@) =~= before.push(scope@[i as int].0));
        i = i + 1;
        assert(views(parts@) =~= Seq::new(i as nat, |i: int| scope@[i].0));
    }
    let mut s = join(&parts, ".");
    s.append(".");
    s.append(name);
    s
}

/// The name of a type as the innermost scope around it knows it.
pub fn resolve_type_name_in_source_scope(tree: &ClassTree, name: &str, scope: &QualifiedName) -> (r:
    Option<String>)
    ensures
        held(r) == name_in_scope(tree@, name@, scope@, scope@.len() as int),
{
    let mut n: usize = scope.parts.len();
    loop
        invariant
            n <= scope@.len(),
            name_in_scope(tree@, name@, scope@, scope@.len() as int) == name_in_scope(
                tree@,
                name@,
                scope@,
                n as int,
            ),
        decreases n,
    {
        let candidate = make_scoped_name(scope, n, name);
        if find_class_in_tree(tree, candidate.as_str()).is_some() {
            return Some(candidate);
        }
        if n == 0 {
            assert(name_in_scope(tree@, name@, scope@, -1) is None);
            return None;
        }
        n = n - 1;
    }
}

/// The full name of a component's type: the name as written where it is one, the
/// name of the resolved class where it ends alike, else what the scopes around
/// the declaration know.
pub open spec fn full_type(tree: Seq<ClassView>, comp: ComponentView) -> Seq<char> {
    let written = comp.type_text;
    if class_named(tree, written) is Some {
        written
    } else if comp.type_def_id is Some && class_defined(tree, comp.type_def_id->0) is Some && leaf(
        tree[class_defined(tree, comp.type_def_id->0)->0].name,
    ) == leaf(written) {
        tree[class_defined(tree, comp.type_def_id->0)->0].name
    } else {
        match comp.declaration_scope {
            None => written,
            Some(scope) => match name_in_scope(tree, written, scope, scope.len() as int) {
                Some(name) => name,
                None => written,
            },
        }
    }
}

/// The full name of a component's type.
pub fn resolve_inner_outer_type_name(tree: &ClassTree, comp: &Component) -> (s: String)
    ensures
        s@ == full_type(tree@, comp@),
{
    let written = comp.type_text.as_str();
    if find_class_in_tree(tree, written).is_some() {
        return owned(written);
    }
    if let Some(def_id) = comp.type_def_id {
        if let Some(i) = find_class_by_def(tree, def_id) {
            assert(tree@[i as int] == tree.classes@[i as int]@);
            if same_leaf(tree.classes[i].name.as_str(), written) {
                return tree.classes[i].name.clone();
            }
        }
    }
    match &comp.declaration_scope {
        None => owned(written),
        Some(scope) => match resolve_type_name_in_source_scope(tree, written, scope) {
            Some(name) => name,
            None => owned(written),
        },
    }
}

/// The definition of a component's type: that of the class with its full name,
/// else the resolved one.
pub open spec fn type_definition(tree: Seq<ClassView>, comp: ComponentView) -> Option<DefId> {
    match class_named(tree, full_type(tree, comp)) {
        Some(i) => if tree[i].def_id is Some {
            tree[i].def_id
        } else {
            comp.type_def_id
        },
        None => comp.type_def_id,
    }
}

/// The definition of a component's type.
pub fn resolve_type_definition(tree: &ClassTree, comp: &Component, full: &str) -> (r: Option<DefId>)
    requires
        full@ == full_type(tree@, comp@),
    ensures
        r == type_definition(tree@, comp@),
{
    match find_class_in_tree(tree, full) {
        Some(i) => {
            assert(tree@[i as int] == tree.classes@[i as int]@);
            if tree.classes[i].def_id.is_some() {
                tree.classes[i].def_id
            } else {
                comp.type_def_id
            }
        },
        None => comp.type_def_id,
    }
}

/// Whether a class is another or extends it over at most so many classes.
pub open spec fn extends_to(
    tree: Seq<ClassView>,
    from: Seq<char>,
    to: Seq<char>,
    steps: nat,
) -> bool
    decreases steps,
{
    from == to || (steps > 0 && class_named(tree, from) is Some && exists|k: int|
        #![trigger tree[class_named(tree, from)->0].bases[k]]
        0 <= k < tree[class_named(tree, from)->0].bases.len() && extends_to(
            tree,
            tree[class_named(tree, from)->0].bases[k],
            to,
            (steps - 1) as nat,
        ))
}

/// Whether a class is another or extends it.
fn is_extension(tree: &ClassTree, from: &str, to: &str, steps: usize) -> (r: bool)
    ensures
        r == extends_to(tree@, from@, to@, steps as nat),
    decreases steps,
{
    if same_text(from, to) {
        return true;
    }
    if steps == 0 {
        return false;
    }
    let class: usize = match find_class_in_tree(tree, from) {
        Some(class) => class,
        None => {
            return false;
        },
    };
    assert(tree@[class as int] == tree.classes@[class as int]@);
    let ghost bases = tree@[class as int].bases;
    let mut k: usize = 0;
    while k < tree.classes[class].bases.len()
        invariant
            class < tree.classes@.len(),
            tree@[class as int] == tree.classes@[class as int]@,
            class_named(tree@, from@) == Some(class as int),
            bases == tree@[class as int].bases,
            bases.len() == tree.classes@[class as int].bases@.len(),
            steps > 0,
            from@ != to@,
            k <= bases.len(),
            forall|i: int|
                0 <= i < k ==> !extends_to(tree@, #[trigger] bases[i], to@, (steps - 1) as nat),
        decreases bases.len() - k,
    {
        assert(bases[k as int] == tree.classes@[class as int].bases@[k as int]@);
        if is_extension(tree, tree.classes[class].bases[k].as_str(), to, steps - 1) {
            assert(tree@[class_named(tree@, from@)->0].bases[k as int] == bases[k as int]);
            return true;
        }
        k = k + 1;
    }
    false
}

/// Whether each class of a chain extends the next.
pub open spec fn is_chain(tree: Seq<ClassView>, chain: Seq<Seq<char>>) -> bool {
    forall|i: int|
        0 <= i < chain.len() - 1 ==> class_named(tree, #[trigger] chain[i]) is Some
            && tree[class_named(tree, chain[i])->0].bases.contains(chain[i + 1])
}

proof fn lemma_chain_extends(tree: Seq<ClassView>, chain: Seq<Seq<char>>, steps: nat)
    requires
        chain.len() > 0,
        chain.len() <= steps + 1,
        is_chain(tree, chain),
    ensures
        extends_to(tree, chain[0], chain.last(), steps),
    decreases chain.len(),
{
    if chain.len() > 1 {
        let rest = chain.skip(1);
        assert forall|i: int| 0 <= i < rest.len() - 1 implies class_named(
            tree,
            #[trigger] rest[i],
        ) is Some && tree[class_named(tree, rest[i])->0].bases.contains(rest[i + 1]) by {
            assert(rest[i] == chain[i + 1]);
            assert(rest[i + 1] == chain[i + 2]);
        }
        lemma_chain_extends(tree, rest, (steps - 1) as nat);
        assert(class_named(tree, chain[0]) is Some);
        let bases = tree[class_named(tree, chain[0])->0].bases;
        let k = choose|k: int| 0 <= k < bases.len() && bases[k] == chain[1];
        assert(bases[k] == rest[0]);
    }
}

/// An inner component fits an outer one whose type its own type extends, over any
/// chain of classes that is no longer than the tree.
pub proof fn law_extended_type_fits(
    tree: Seq<ClassView>,
    chain: Seq<Seq<char>>,
    outer_def: Option<DefId>,
    inner_def: Option<DefId>,
)
    requires
        0 < chain.len() <= tree.len() + 1,
        is_chain(tree, chain),
    ensures
        types_fit(tree, chain.last(), outer_def, chain[0], inner_def),
{
    lemma_chain_extends(tree, chain, tree.len());
}

/// Whether an outer type and an inner type fit: they have the same definition, or
/// the inner type is the outer type or extends it.
pub open spec fn types_fit(
    tree: Seq<ClassView>,
    outer: Seq<char>,
    outer_def: Option<DefId>,
    inner: Seq<char>,
    inner_def: Option<DefId>,
) -> bool {
    extends_to(tree, inner, outer, tree.len()) || (outer_def is Some && outer_def == inner_def)
}

/// Whether an outer type and an inner type fit.
pub fn is_type_compatible_with_def_id(
    tree: &ClassTree,
    outer: &str,
    outer_def: Option<DefId>,
    inner: &str,
    inner_def: Option<DefId>,
) -> (r: bool)
    ensures
        r == types_fit(tree@, outer@, outer_def, inner@, inner_def),
{
    if is_extension(tree, inner, outer, tree.classes.len()) {
        return true;
    }
    match outer_def {
        Some(a) => match inner_def {
            Some(b) => a.0 == b.0,
            None => false,
        },
        None => false,
    }
}

/// The primitive type with this name.
pub open spec fn primitive_named(name: Seq<char>) -> Option<Primitive> {
    if name == "Real"@ {
        Some(Primitive::Number)
    } else if name == "Integer"@ {
        Some(Primitive::Integer)
    } else if name == "Boolean"@ {
        Some(Primitive::Boolean)
    } else if name == "String"@ {
        Some(Primitive::Text)
    } else {
        None
    }
}

fn find_primitive(name: &str) -> (r: Option<Primitive>)
    ensures
        r == primitive_named(name@),
{
    if same_text(name, "Real") {
        Some(Primitive::Number)
    } else if same_text(name, "Integer") {
        Some(Primitive::Integer)
    } else if same_text(name, "Boolean") {
        Some(Primitive::Boolean)
    } else if same_text(name, "String") {
        Some(Primitive::Text)
    } else {
        None
    }
}

/// What a component's type is.
#[derive(Clone, Copy, Debug, PartialEq, Eq, Structural)]
pub struct TypeInfo {
    /// The class, where the type is one.
    pub class: Option<usize>,
    pub is_primitive: bool,
    /// Whether values change at events alone.
    pub is_discrete: bool,
}

/// The class of a component's type.
pub open spec fn class_of_type(tree: Seq<ClassView>, comp: ComponentView) -> Option<int> {
    if comp.type_def_id is Some && class_defined(tree, comp.type_def_id->0) is Some {
        class_defined(tree, comp.type_def_id->0)
    } else {
        class_named(tree, full_type(tree, comp))
    }
}

/// Whether a primitive type has discrete values.
pub open spec fn discrete(p: Primitive) -> bool {
    p is Integer || p is Boolean
}

/// What a component's type is, where it is known.
pub open spec fn type_info(tree: Seq<ClassView>, comp: ComponentView) -> Option<TypeInfo> {
    match primitive_named(comp.type_text) {
        Some(p) => Some(TypeInfo { class: None, is_primitive: true, is_discrete: discrete(p) }),
        None => match class_of_type(tree, comp) {
            None => None,
            Some(i) => Some(
                TypeInfo {
                    class: Some(i as usize),
                    is_primitive: tree[i].base is Some,
                    is_discrete: tree[i].base is Some && discrete(tree[i].base->0),
                },
            ),
        },
    }
}

/// What a component's type is, where it is known.
pub fn lookup_type_info(tree: &ClassTree, comp: &Component) -> (r: Option<TypeInfo>)
    ensures
        r == type_info(tree@, comp@),
        r is Some && r->0.class is Some ==> r->0.class->0 < tree@.len(),
{
    if let Some(p) = find_primitive(comp.type_text.as_str()) {
        let is_discrete: bool = match p {
            Primitive::Integer => true,
            Primitive::Boolean => true,
            _ => false,
        };
        return Some(TypeInfo { class: None, is_primitive: true, is_discrete });
    }
    let mut found: Option<usize> = None;
    if let Some(def_id) = comp.type_def_id {
        found = find_class_by_def(tree, def_id);
    }
    if found.is_none() {
        let full = resolve_inner_outer_type_name(tree, comp);
        found = find_class_in_tree(tree, full.as_str());
    }
    match found {
        None => None,
        Some(i) => {
            assert(tree@[i as int] == tree.classes@[i as int]@);
            let is_discrete: bool = match tree.classes[i].base {
                Some(Primitive::Integer) => true,
                Some(Primitive::Boolean) => true,
                _ => false,
            };
            Some(
                TypeInfo {
                    class: Some(i),
                    is_primitive: tree.classes[i].base.is_some(),
                    is_discrete,
                },
            )
        },
    }
}

} // verus!
