//! Attributes of component instances.
//!
//! An attribute is what a modification gives it, else what the component declares,
//! else, for texts, what its type or a type that this one extends says. A type may
//! forbid to modify an attribute.
use crate::dae::variable::StateSelect;
use crate::expr::tree::{
    copy_optional, lemma_view_args, ExprView, Expression, Literal, LiteralView, Node, NodeView,
};
use crate::instantiate::error::{InstantiateError, InstantiateErrorView};
use crate::instantiate::record::copy_scopes;
use crate::instantiate::structural::{make_reference_path, reference_path};
use crate::instantiate::tree::{
    class_named, find_class_in_tree, type_attribute_views, AttributesView, ClassTree, ClassView,
    Component, ComponentView, ExtractedAttributes, TypeAttribute, TypeAttributeView, TypeInfo,
};
use crate::ir::modification::{
    lemma_modification_views, modification_of, modification_views, ModificationEnvironment,
    ModificationView,
};
use crate::ir::name::{path_text, PartView, QualifiedName};
use crate::ir::path_map::Entry;
use crate::text::{copy_text, held, owned, same_text};
use vstd::prelude::*;

verus! {

/// The text that an expression is.
pub open spec fn text_of(e: ExprView) -> Option<Seq<char>> {
    match e.node {
        NodeView::Literal(LiteralView::String(s)) => Some(s),
        _ => None,
    }
}

/// The truth value that an expression is.
pub open spec fn truth_of(e: ExprView) -> Option<bool> {
    match e.node {
        NodeView::Literal(LiteralView::Boolean(b)) => Some(b),
        _ => None,
    }
}

/// The selection that an expression names, by its last segment.
pub open spec fn selection_of(e: ExprView) -> StateSelect {
    match reference_path(e) {
        Some(path) => if path.len() == 0 {
            StateSelect::Default
        } else if path.last().0 == "never"@ {
            StateSelect::Never
        } else if path.last().0 == "avoid"@ {
            StateSelect::Avoid
        } else if path.last().0 == "prefer"@ {
            StateSelect::Prefer
        } else if path.last().0 == "always"@ {
            StateSelect::Always
        } else {
            StateSelect::Default
        },
        None => StateSelect::Default,
    }
}

fn read_text(e: &Expression) -> (r: Option<String>)
    ensures
        held(r) == text_of(e@),
{
    proof {
        lemma_view_args(*e);
    }
    match &e.node {
        Node::Literal(Literal::String(s)) => Some(s.clone()),
        _ => None,
    }
}

fn read_truth(e: &Expression) -> (r: Option<bool>)
    ensures
        r == truth_of(e@),
{
    proof {
        lemma_view_args(*e);
    }
    match &e.node {
        Node::Literal(Literal::Boolean(b)) => Some(*b),
        _ => None,
    }
}

fn read_selection(e: &Expression) -> (r: StateSelect)
    ensures
        r == selection_of(e@),
{
    match make_reference_path(e) {
        Some(path) => {
            let n: usize = path.parts.len();
            if n == 0 {
                return StateSelect::Default;
            }
            assert(path@.last().0 == path.parts@[n - 1].0@);
            let name = path.parts[n - 1].0.as_str();
            if same_text(name, "never") {
                StateSelect::Never
            } else if same_text(name, "avoid") {
                StateSelect::Avoid
            } else if same_text(name, "prefer") {
                StateSelect::Prefer
            } else if same_text(name, "always") {
                StateSelect::Always
            } else {
                StateSelect::Default
            }
        },
        None => StateSelect::Default,
    }
}

/// The first of the first `n` attributes with a name.
pub open spec fn attribute_in(
    list: Seq<TypeAttributeView>,
    name: Seq<char>,
    n: int,
) -> Option<TypeAttributeView>
    decreases n,
{
    if n <= 0 {
        None
    } else {
        match attribute_in(list, name, n - 1) {
            Some(a) => Some(a),
            None => if list[n - 1].name == name {
                Some(list[n - 1])
            } else {
                None
            },
        }
    }
}

/// What a type says of an attribute: the type itself, else the first of the types it
/// extends that says something, over at most so many steps.
pub open spec fn type_attribute(
    tree: Seq<ClassView>,
    class: int,
    name: Seq<char>,
    steps: nat,
) -> Option<TypeAttributeView>
    decreases steps, tree[class].bases.len() + 1,
{
    let own = tree[class].type_attributes;
    match attribute_in(own, name, own.len() as int) {
        Some(a) => Some(a),
        None => base_attribute(tree, class, name, steps, tree[class].bases.len() as int),
    }
}

/// What the first of the first `n` types that a type extends says of an attribute.
pub open spec fn base_attribute(
    tree: Seq<ClassView>,
    class: int,
    name: Seq<char>,
    steps: nat,
    n: int,
) -> Option<TypeAttributeView>
    decreases steps, n,
{
    if n <= 0 || steps == 0 {
        None
    } else {
        match base_attribute(tree, class, name, steps, n - 1) {
            Some(a) => Some(a),
            None => match class_named(tree, tree[class].bases[n - 1]) {
                Some(base) => type_attribute(tree, base, name, (steps - 1) as nat),
                None => None,
            },
        }
    }
}

/// What the type of a component says of an attribute.
pub open spec fn inherited_attribute(
    tree: Seq<ClassView>,
    info: TypeInfo,
    name: Seq<char>,
) -> Option<TypeAttributeView> {
    match info.class {
        Some(class) => type_attribute(tree, class as int, name, tree.len()),
        None => None,
    }
}

proof fn lemma_attribute_stays(list: Seq<TypeAttributeView>, name: Seq<char>, k: int, n: int)
    requires
        0 <= k <= n,
        attribute_in(list, name, k) is Some,
    ensures
        attribute_in(list, name, n) == attribute_in(list, name, k),
    decreases n,
{
    if k < n {
        lemma_attribute_stays(list, name, k, n - 1);
    }
}

proof fn lemma_base_attribute_stays(
    tree: Seq<ClassView>,
    class: int,
    name: Seq<char>,
    steps: nat,
    k: int,
    n: int,
)
    requires
        0 <= k <= n,
        base_attribute(tree, class, name, steps, k) is Some,
    ensures
        base_attribute(tree, class, name, steps, n) == base_attribute(tree, class, name, steps, k),
    decreases n,
{
    if k < n {
        lemma_base_attribute_stays(tree, class, name, steps, k, n - 1);
    }
}

fn find_attribute<'a>(list: &'a Vec<TypeAttribute>, name: &str) -> (r: Option<&'a TypeAttribute>)
    ensures
        match r {
            Some(a) => attribute_in(type_attribute_views(list@), name@, list@.len() as int)
                == Some(a@),
            None => attribute_in(type_attribute_views(list@), name@, list@.len() as int) is None,
        },
{
    let ghost all = type_attribute_views(list@);
    let mut i: usize = 0;
    while i < list.len()
        invariant
            all == type_attribute_views(list@),
            i <= list@.len(),
            attribute_in(all, name@, i as int) is None,
        decreases list.len() - i,
    {
        assert(all[i as int] == list@[i as int]@);
        if same_text(list[i].name.as_str(), name) {
            proof {
                lemma_attribute_stays(all, name@, i + 1, all.len() as int);
            }
            return Some(&list[i]);
        }
        i = i + 1;
    }
    None
}

fn find_type_attribute<'a>(
    tree: &'a ClassTree,
    class: usize,
    name: &str,
    steps: usize,
) -> (r: Option<&'a TypeAttribute>)
    requires
        class < tree@.len(),
    ensures
        match r {
            Some(a) => type_attribute(tree@, class as int, name@, steps as nat) == Some(a@),
            None => type_attribute(tree@, class as int, name@, steps as nat) is None,
        },
    decreases steps,
{
    assert(tree@[class as int] == tree.classes@[class as int]@);
    let def = &tree.classes[class];
    let own = find_attribute(&def.type_attributes, name);
    if own.is_some() {
        return own;
    }
    if steps == 0 {
        return None;
    }
    let mut i: usize = 0;
    while i < def.bases.len()
        invariant
            class < tree@.len(),
            def@ == tree@[class as int],
            steps > 0,
            i <= def.bases@.len(),
            base_attribute(tree@, class as int, name@, steps as nat, i as int) is None,
            attribute_in(
                tree@[class as int].type_attributes,
                name@,
                tree@[class as int].type_attributes.len() as int,
            ) is None,
        decreases def.bases.len() - i,
    {
        assert(tree@[class as int].bases[i as int] == def.bases@[i as int]@);
        if let Some(base) = find_class_in_tree(tree, def.bases[i].as_str()) {
            let found = find_type_attribute(tree, base, name, steps - 1);
            if found.is_some() {
                proof {
                    lemma_base_attribute_stays(
                        tree@,
                        class as int,
                        name@,
                        steps as nat,
                        i + 1,
                        def.bases@.len() as int,
                    );
                }
                return found;
            }
        }
        i = i + 1;
    }
    None
}

/// What the type of a component says of an attribute.
fn find_inherited<'a>(tree: &'a ClassTree, info: TypeInfo, name: &str) -> (r: Option<
    &'a TypeAttribute,
>)
    requires
        info.class is Some ==> info.class->0 < tree@.len(),
    ensures
        match r {
            Some(a) => inherited_attribute(tree@, info, name@) == Some(a@),
            None => inherited_attribute(tree@, info, name@) is None,
        },
{
    match info.class {
        Some(class) => find_type_attribute(tree, class, name, tree.classes.len()),
        None => None,
    }
}

/// The path of an attribute.
pub open spec fn attribute_path(path: Seq<PartView>, name: Seq<char>) -> Seq<PartView> {
    path.push((name, Seq::<i64>::empty()))
}

/// An attribute: what a modification gives it, else what is declared.
pub open spec fn attribute_of(
    mods: Seq<Entry<ModificationView>>,
    path: Seq<PartView>,
    attribute: Seq<char>,
    declared: Option<ExprView>,
) -> Option<ExprView> {
    match modification_of(mods, attribute_path(path, attribute)) {
        Some(m) => Some(m.value),
        None => declared,
    }
}

/// A text attribute: what a modification gives it, else what is declared, else what
/// the type says.
pub open spec fn text_attribute_of(
    mods: Seq<Entry<ModificationView>>,
    path: Seq<PartView>,
    attribute: Seq<char>,
    declared: Option<Seq<char>>,
    inherited: Option<TypeAttributeView>,
) -> Option<Seq<char>> {
    let said = match modification_of(mods, attribute_path(path, attribute)) {
        Some(m) => text_of(m.value),
        None => declared,
    };
    if said is Some {
        said
    } else {
        match inherited {
            Some(a) => text_of(a.value),
            None => None,
        }
    }
}

/// The attributes of a component at a path.
pub open spec fn attributes_of(
    tree: Seq<ClassView>,
    mods: Seq<Entry<ModificationView>>,
    comp: ComponentView,
    path: Seq<PartView>,
    info: TypeInfo,
) -> AttributesView {
    let own = comp.attributes;
    AttributesView {
        start: attribute_of(mods, path, "start"@, own.start),
        start_is_explicit: own.start_is_explicit,
        fixed: match modification_of(mods, attribute_path(path, "fixed"@)) {
            Some(m) => truth_of(m.value),
            None => own.fixed,
        },
        min: attribute_of(mods, path, "min"@, own.min),
        max: attribute_of(mods, path, "max"@, own.max),
        nominal: attribute_of(mods, path, "nominal"@, own.nominal),
        source_scopes: own.source_scopes,
        quantity: text_attribute_of(
            mods,
            path,
            "quantity"@,
            own.quantity,
            inherited_attribute(tree, info, "quantity"@),
        ),
        unit: text_attribute_of(
            mods,
            path,
            "unit"@,
            own.unit,
            inherited_attribute(tree, info, "unit"@),
        ),
        display_unit: text_attribute_of(
            mods,
            path,
            "displayUnit"@,
            own.display_unit,
            inherited_attribute(tree, info, "displayUnit"@),
        ),
        state_select: match modification_of(mods, attribute_path(path, "stateSelect"@)) {
            Some(m) => selection_of(m.value),
            None => own.state_select,
        },
    }
}

/// What a modification says of an attribute.
fn find_modified<'a>(env: &'a ModificationEnvironment, path: &QualifiedName, name: &str) -> (r:
    Option<&'a Expression>)
    requires
        env.wf(),
    ensures
        match r {
            Some(e) => modification_of(
                modification_views(env.entries()),
                attribute_path(path@, name@),
            ) matches Some(m) && m.value == e@,
            None => modification_of(
                modification_views(env.entries()),
                attribute_path(path@, name@),
            ) is None,
        },
{
    let target = path.child(name);
    assert(target@ =~= attribute_path(path@, name@));
    proof {
        env.active.lemma_distinct();
        lemma_modification_views(env.entries(), target@);
    }
    match env.get(&target) {
        Some(m) => Some(&m.value),
        None => None,
    }
}

fn make_attribute(
    env: &ModificationEnvironment,
    path: &QualifiedName,
    attribute: &str,
    declared: &Option<Expression>,
) -> (r: Option<Expression>)
    requires
        env.wf(),
    ensures
        held(r) == attribute_of(
            modification_views(env.entries()),
            path@,
            attribute@,
            held(*declared),
        ),
{
    match find_modified(env, path, attribute) {
        Some(e) => Some(e.clone()),
        None => copy_optional(declared),
    }
}

fn make_text_attribute(
    tree: &ClassTree,
    env: &ModificationEnvironment,
    path: &QualifiedName,
    attribute: &str,
    declared: &Option<String>,
    info: TypeInfo,
) -> (r: Option<String>)
    requires
        env.wf(),
        info.class is Some ==> info.class->0 < tree@.len(),
    ensures
        held(r) == text_attribute_of(
            modification_views(env.entries()),
            path@,
            attribute@,
            held(*declared),
            inherited_attribute(tree@, info, attribute@),
        ),
{
    let said = match find_modified(env, path, attribute) {
        Some(e) => read_text(e),
        None => copy_text(declared),
    };
    if said.is_some() {
        return said;
    }
    match find_inherited(tree, info, attribute) {
        Some(a) => read_text(&a.value),
        None => None,
    }
}

/// The attributes of a component at a path.
pub fn extract_attributes(
    tree: &ClassTree,
    env: &ModificationEnvironment,
    comp: &Component,
    path: &QualifiedName,
    info: TypeInfo,
) -> (r: ExtractedAttributes)
    requires
        env.wf(),
        comp.wf(),
        info.class is Some ==> info.class->0 < tree@.len(),
    ensures
        r.source_scopes.wf(),
        r@ == attributes_of(tree@, modification_views(env.entries()), comp@, path@, info),
{
    let own = &comp.attributes;
    let fixed: Option<bool> = match find_modified(env, path, "fixed") {
        Some(e) => read_truth(e),
        None => own.fixed,
    };
    let state_select = match find_modified(env, path, "stateSelect") {
        Some(e) => read_selection(e),
        None => own.state_select,
    };
    ExtractedAttributes {
        start: make_attribute(env, path, "start", &own.start),
        start_is_explicit: own.start_is_explicit,
        fixed,
        min: make_attribute(env, path, "min", &own.min),
        max: make_attribute(env, path, "max", &own.max),
        nominal: make_attribute(env, path, "nominal", &own.nominal),
        source_scopes: copy_scopes(&own.source_scopes),
        quantity: make_text_attribute(tree, env, path, "quantity", &own.quantity, info),
        unit: make_text_attribute(tree, env, path, "unit", &own.unit, info),
        display_unit: make_text_attribute(tree, env, path, "displayUnit", &own.display_unit, info),
        state_select,
    }
}

/// The attributes that a component declares itself.
pub open spec fn declared_attributes(comp: ComponentView) -> Seq<(Seq<char>, bool)> {
    let own = comp.attributes;
    seq![
        ("start"@, own.start is Some && own.start_is_explicit),
        ("fixed"@, own.fixed is Some),
        ("min"@, own.min is Some),
        ("max"@, own.max is Some),
        ("nominal"@, own.nominal is Some),
        ("quantity"@, own.quantity is Some),
        ("unit"@, own.unit is Some),
        ("displayUnit"@, own.display_unit is Some),
        ("stateSelect"@, own.state_select != StateSelect::Default),
    ]
}

/// The error of the first of the first `n` attributes that is declared or modified
/// although the type of the component forbids it.
pub open spec fn final_error(
    tree: Seq<ClassView>,
    mods: Seq<Entry<ModificationView>>,
    comp: ComponentView,
    path: Seq<PartView>,
    info: TypeInfo,
    n: int,
) -> Option<InstantiateErrorView>
    decreases n,
{
    if n <= 0 {
        None
    } else {
        match final_error(tree, mods, comp, path, info, n - 1) {
            Some(e) => Some(e),
            None => {
                let (name, declared) = declared_attributes(comp)[n - 1];
                if inherited_attribute(tree, info, name) matches Some(a) && a.is_final && (declared
                    || modification_of(mods, attribute_path(path, name)) is Some) {
                    Some(
                        InstantiateErrorView::FinalAttribute {
                            path: path_text(path),
                            attribute: name,
                            span: comp.span,
                        },
                    )
                } else {
                    None
                }
            },
        }
    }
}

/// How many attributes there are.
pub const ATTRIBUTE_COUNT: usize = 9;

fn attribute_name(i: usize) -> (s: &'static str)
    requires
        i < ATTRIBUTE_COUNT,
    ensures
        forall|comp: ComponentView|
            s@ == (#[trigger] declared_attributes(comp))[i as int].0,
{
    if i == 0 {
        "start"
    } else if i == 1 {
        "fixed"
    } else if i == 2 {
        "min"
    } else if i == 3 {
        "max"
    } else if i == 4 {
        "nominal"
    } else if i == 5 {
        "quantity"
    } else if i == 6 {
        "unit"
    } else if i == 7 {
        "displayUnit"
    } else {
        "stateSelect"
    }
}

fn declares_attribute(comp: &Component, i: usize) -> (r: bool)
    requires
        i < ATTRIBUTE_COUNT,
    ensures
        r == declared_attributes(comp@)[i as int].1,
{
    let own = &comp.attributes;
    if i == 0 {
        own.start.is_some() && own.start_is_explicit
    } else if i == 1 {
        own.fixed.is_some()
    } else if i == 2 {
        own.min.is_some()
    } else if i == 3 {
        own.max.is_some()
    } else if i == 4 {
        own.nominal.is_some()
    } else if i == 5 {
        own.quantity.is_some()
    } else if i == 6 {
        own.unit.is_some()
    } else if i == 7 {
        own.display_unit.is_some()
    } else {
        own.state_select != StateSelect::Default
    }
}

proof fn lemma_final_error_stays(
    tree: Seq<ClassView>,
    mods: Seq<Entry<ModificationView>>,
    comp: ComponentView,
    path: Seq<PartView>,
    info: TypeInfo,
    k: int,
    n: int,
)
    requires
        0 <= k <= n,
        final_error(tree, mods, comp, path, info, k) is Some,
    ensures
        final_error(tree, mods, comp, path, info, n) == final_error(
            tree,
            mods,
            comp,
            path,
            info,
            k,
        ),
    decreases n,
{
    if k < n {
        lemma_final_error_stays(tree, mods, comp, path, info, k, n - 1);
    }
}

/// Refuses a component with an attribute that its type forbids to modify.
pub fn validate_final_type_attribute_overrides(
    tree: &ClassTree,
    env: &ModificationEnvironment,
    comp: &Component,
    path: &QualifiedName,
    info: TypeInfo,
) -> (r: Result<(), InstantiateError>)
    requires
        env.wf(),
        info.class is Some ==> info.class->0 < tree@.len(),
    ensures
        ({
            let mods = modification_views(env.entries());
            let expected = final_error(tree@, mods, comp@, path@, info, ATTRIBUTE_COUNT as int);
            match r {
                Ok(_) => expected is None,
                Err(e) => expected == Some(e@),
            }
        }),
{
    let ghost mods = modification_views(env.entries());
    let mut i: usize = 0;
    while i < ATTRIBUTE_COUNT
        invariant
            env.wf(),
            info.class is Some ==> info.class->0 < tree@.len(),
            mods == modification_views(env.entries()),
            i <= ATTRIBUTE_COUNT,
            final_error(tree@, mods, comp@, path@, info, i as int) is None,
        decreases ATTRIBUTE_COUNT - i,
    {
        let name = attribute_name(i);
        assert(name@ == declared_attributes(comp@)[i as int].0);
        let is_final: bool = match find_inherited(tree, info, name) {
            Some(a) => a.is_final,
            None => false,
        };
        let is_said: bool = declares_attribute(comp, i) || find_modified(env, path, name).is_some();
        if is_final && is_said {
            proof {
                lemma_final_error_stays(
                    tree@,
                    mods,
                    comp@,
                    path@,
                    info,
                    i + 1,
                    ATTRIBUTE_COUNT as int,
                );
            }
            return Err(
                InstantiateError::FinalAttribute {
                    path: path.to_flat_string(),
                    attribute: owned(name),
                    span: comp.span,
                },
            );
        }
        i = i + 1;
    }
    Ok(())
}

/// A text attribute that a modification says is what it says, whatever the component
/// and its type declare.
pub proof fn law_modified_text_attribute(
    mods: Seq<Entry<ModificationView>>,
    path: Seq<PartView>,
    attribute: Seq<char>,
    declared: Option<Seq<char>>,
    inherited: Option<TypeAttributeView>,
)
    requires
        modification_of(mods, attribute_path(path, attribute)) is Some,
        text_of(modification_of(mods, attribute_path(path, attribute))->0.value) is Some,
    ensures
        text_attribute_of(mods, path, attribute, declared, inherited) == text_of(
            modification_of(mods, attribute_path(path, attribute))->0.value,
        ),
{
}

} // verus!
