use rumoca::dae::variable::StateSelect;
use rumoca::expr::tree::{Expression, Literal, Node, OpBinary};
use rumoca::instantiate::annotation::{
    has_evaluate_annotation, has_trainable_annotation, Annotation, AnnotationKind,
};
use rumoca::instantiate::connections::{ConnectionClause, ConnectionEnd, ConnectionKind};
use rumoca::instantiate::context::{InstantiateContext, InstantiateOptions, MissingInnerInfo};
use rumoca::instantiate::error::InstantiateError;
use rumoca::instantiate::model::{
    instantiate, instantiate_model, instantiate_model_with_options,
    instantiate_model_with_outcome, instantiate_model_with_outcome_options,
    instantiate_with_options, InstantiationOutcome,
};
use rumoca::instantiate::record::{
    binding_scope_for_record_expansion, declaration_binding_allows_structural_resolution,
};
use rumoca::instantiate::sections::{ClassEquation, ClassSections, ClassStatement};
use rumoca::instantiate::tree::{ClassDef, ClassTree, Component, Primitive, TypeAttribute};
use rumoca::ir::instance::{
    Causality, ClassOverride, ClassType, InstanceData, InstanceOverlay, Variability,
};
use rumoca::ir::modification::ModificationValue;
use rumoca::ir::name::{ComponentReference, DefId, QualifiedName};
use rumoca::span::Span;

fn span() -> Span {
    Span::from_offsets(1, 3, 9)
}

fn class(name: &str, def_id: u32, components: Vec<Component>) -> ClassDef {
    ClassDef {
        name: name.to_string(),
        def_id: Some(DefId::new(def_id)),
        class_type: ClassType::Model,
        partial: false,
        expandable: false,
        causality: Causality::Empty,
        base: None,
        bases: Vec::new(),
        type_attributes: Vec::new(),
        eq_constraint_size: None,
        components,
        sections: ClassSections::none(),
        description: None,
        span: span(),
        scope: None,
    }
}

fn component(name: &str, type_text: &str) -> Component {
    Component::plain(name, type_text, span())
}

fn number(i: i64) -> Expression {
    Expression { node: Node::Literal(Literal::Integer(i)), args: Vec::new(), span: span() }
}

fn leaf(node: Node) -> Expression {
    Expression { node, args: Vec::new(), span: span() }
}

fn name(text: &str) -> Expression {
    leaf(Node::VarRef { name: text.to_string() })
}

fn truth(value: bool) -> Expression {
    leaf(Node::Literal(Literal::Boolean(value)))
}

fn text(value: &str) -> Expression {
    leaf(Node::Literal(Literal::String(value.to_string())))
}

fn plus(a: Expression, b: Expression) -> Expression {
    Expression { node: Node::Binary(OpBinary::Add), args: vec![a, b], span: span() }
}

fn parameter(text: &str, type_text: &str, value: Expression) -> Component {
    let mut p = component(text, type_text);
    p.variability = Variability::Parameter;
    p.binding = Some(value);
    p
}

fn sized(text: &str, type_text: &str, size: Expression) -> Component {
    let mut c = component(text, type_text);
    c.dims_expr = vec![size];
    c
}

fn with_mods(root_modifications: Vec<(QualifiedName, ModificationValue)>) -> InstantiateOptions {
    InstantiateOptions { depth_limit: 30, root_modifications }
}

fn given(target: &str, value: Expression) -> (QualifiedName, ModificationValue) {
    (QualifiedName::from_dotted(target), ModificationValue::simple(value))
}

fn tree(classes: Vec<ClassDef>) -> ClassTree {
    ClassTree { classes }
}

fn paths(overlay: &InstanceOverlay) -> Vec<String> {
    (0..overlay.components.len())
        .map(|i| overlay.components.value_at(i).qualified_name.to_flat_string())
        .collect()
}

fn find<'a>(overlay: &'a InstanceOverlay, path: &str) -> &'a InstanceData {
    (0..overlay.components.len())
        .map(|i| overlay.components.value_at(i))
        .find(|data| data.qualified_name.to_flat_string() == path)
        .expect("component should exist")
}

#[test]
fn components_are_instantiated_with_paths_and_identities() {
    let mut p = component("p", "Real");
    p.binding = Some(number(2));
    let t = tree(vec![
        class("Inner", 1, vec![p]),
        class("Outer", 2, vec![component("a", "Inner"), component("b", "Inner")]),
    ]);
    let instanced = instantiate(t, "Outer").unwrap();
    let overlay = instanced.overlay();
    assert_eq!(paths(overlay), vec!["a", "a.p", "b", "b.p"]);
    let ids: Vec<u32> = (0..4).map(|i| overlay.components.id_at(i)).collect();
    assert_eq!(ids, vec![1, 3, 4, 6]);
    assert_eq!(overlay.classes.len(), 3);
    let data = find(overlay, "a.p");
    assert!(data.is_primitive && !data.is_discrete_type && !data.binding_from_modification);
    assert_eq!(data.component_ref.as_ref().unwrap().parts.len(), 2);
    assert_eq!(instanced.inner().classes.len(), 2);
    assert_eq!(instanced.into_inner().classes.len(), 2);
}

#[test]
fn unknown_models_and_types_are_refused() {
    let t = tree(vec![class("M", 1, vec![component("x", "Nowhere")])]);
    let error = instantiate_model(&t, "N").err().unwrap();
    assert_eq!(error.message(), "model not found: N");
    let error = instantiate_model(&t, "M").err().unwrap();
    assert_eq!(error.message(), "component x has unknown type Nowhere");
}

#[test]
fn classes_inside_themselves_are_refused() {
    let t = tree(vec![
        class("A", 1, vec![component("b", "B")]),
        class("B", 2, vec![component("a", "A")]),
    ]);
    let error = instantiate_model(&t, "A").err().unwrap();
    assert_eq!(error.message(), "instantiation cycle: A () -> B (b) -> A (b.a)");
}

#[test]
fn nesting_is_limited() {
    let t = tree(vec![
        class("A", 1, vec![component("b", "B")]),
        class("B", 2, vec![component("c", "C")]),
        class("C", 3, vec![]),
    ]);
    let options = InstantiateOptions { depth_limit: 1, root_modifications: Vec::new() };
    let error = instantiate_model_with_options(&t, "A", options).err().unwrap();
    assert_eq!(error.message(), "instantiation of b.c is 2 deep, more than 1");
    let options = InstantiateOptions { depth_limit: 2, root_modifications: Vec::new() };
    assert!(instantiate_model_with_options(&t, "A", options).is_ok());
    assert_eq!(InstantiateOptions::default().depth_limit, 30);
}

#[test]
fn components_with_false_conditions_are_left_out() {
    let mut off = component("off", "Real");
    off.condition = Some(truth(false));
    let mut on = component("on", "Real");
    on.condition = Some(truth(true));
    let overlay = instantiate_model(&tree(vec![class("M", 1, vec![off, on])]), "M").ok().unwrap();
    assert_eq!(paths(&overlay), vec!["on"]);
    assert!(overlay.disabled_components.contains_key("off"));
    assert!(!overlay.disabled_components.contains_key("on"));
}

#[test]
fn root_modifications_override_declarations() {
    let mut n = component("n", "Integer");
    n.variability = Variability::Parameter;
    n.binding = Some(number(1));
    let t = tree(vec![class("Sub", 1, vec![n]), class("M", 2, vec![component("s", "Sub")])]);
    let options = InstantiateOptions {
        depth_limit: 30,
        root_modifications: vec![
            (QualifiedName::from_dotted("s.n"), ModificationValue::simple(number(7))),
            (QualifiedName::from_dotted("s.n"), ModificationValue::simple(number(8))),
            (QualifiedName::from_dotted("s.n.start"), ModificationValue::simple(number(5))),
        ],
    };
    let overlay = instantiate_model_with_options(&t, "M", options).ok().unwrap();
    let data = find(&overlay, "s.n");
    assert!(data.binding_from_modification && data.is_discrete_type);
    let value = &data.binding.as_ref().unwrap().node;
    assert!(matches!(value, Node::Literal(Literal::Integer(7))));
    let start = &data.start.as_ref().unwrap().node;
    assert!(matches!(start, Node::Literal(Literal::Integer(5))));
}

#[test]
fn prefixes_are_handed_on() {
    let mut r = component("r", "Rec");
    r.variability = Variability::Parameter;
    r.causality = Causality::Input;
    r.flow = true;
    r.is_protected = true;
    let mut rec = class("Rec", 1, vec![component("x", "Real")]);
    rec.class_type = ClassType::Connector;
    rec.expandable = true;
    rec.eq_constraint_size = Some(3);
    let overlay =
        instantiate_model(&tree(vec![rec, class("M", 2, vec![r])]), "M").ok().unwrap();
    let outer = find(&overlay, "r");
    assert!(outer.is_connector_type && !outer.is_overconstrained && outer.is_protected);
    let x = find(&overlay, "r.x");
    assert_eq!(x.variability, Variability::Parameter);
    assert_eq!(x.causality, Causality::Input);
    assert!(x.flow && !x.stream && x.from_expandable_connector && x.is_protected);
    assert_eq!(x.oc_record_path.as_deref(), Some("r"));
    assert_eq!(x.oc_eq_constraint_size, Some(3));
}

#[test]
fn partial_classes_need_a_partial_root() {
    let mut base = class("Base", 1, vec![]);
    base.partial = true;
    let mut root = class("M", 2, vec![component("b", "Base")]);
    let error = instantiate_model(&tree(vec![base, root]), "M").err().unwrap();
    assert_eq!(error.message(), "component b has partial type Base");
    let mut base = class("Base", 1, vec![]);
    base.partial = true;
    root = class("M", 2, vec![component("b", "Base")]);
    root.partial = true;
    assert!(instantiate_model(&tree(vec![base, root]), "M").ok().unwrap().is_partial);
}

fn world_tree(inner_in_root: bool) -> ClassTree {
    let mut outer = component("world", "World");
    outer.outer = true;
    let mut components = vec![component("part", "Part")];
    if inner_in_root {
        let mut inner = component("world", "World");
        inner.inner = true;
        components.push(inner);
    }
    tree(vec![
        class("World", 1, vec![component("g", "Real")]),
        class("Part", 2, vec![outer]),
        class("M", 3, components),
    ])
}

#[test]
fn outer_components_are_led_to_inner_ones() {
    // The inner component comes after the outer one and settles it.
    let overlay = instantiate_model(&world_tree(true), "M").ok().unwrap();
    assert_eq!(overlay.outer_prefix_to_inner.get("part.world").unwrap(), "world");
    assert_eq!(paths(&overlay), vec!["part", "part.world", "world", "world.g"]);
    assert!(!overlay.used_synthesized_inners());
}

#[test]
fn missing_inner_components_are_made_up() {
    let overlay = instantiate_model(&world_tree(false), "M").ok().unwrap();
    assert!(overlay.used_synthesized_inners());
    assert_eq!(overlay.synthesized_inners, vec!["world"]);
    assert_eq!(paths(&overlay), vec!["world", "world.g", "part", "part.world"]);
    assert_eq!(overlay.outer_prefix_to_inner.get("part.world").unwrap(), "world");
}

#[test]
fn root_modifications_hold_where_inners_are_made_up() {
    let mut outer = component("world", "World");
    outer.outer = true;
    let mut k = component("k", "Real");
    k.binding = Some(number(1));
    let t = tree(vec![
        class("World", 1, vec![component("g", "Real")]),
        class("Part", 2, vec![outer, k]),
        class("M", 3, vec![component("part", "Part")]),
    ]);
    let options = InstantiateOptions {
        depth_limit: 30,
        root_modifications: vec![said("part.k", 9), said("world.g", 8)],
    };
    let overlay = instantiate_model_with_options(&t, "M", options).ok().unwrap();
    assert_eq!(overlay.synthesized_inners, vec!["world"]);
    assert_eq!(integer(find(&overlay, "part.k")), Some(9));
    assert_eq!(integer(find(&overlay, "world.g")), Some(8));
    assert!(find(&overlay, "world.g").binding_from_modification);
}

fn list(values: &[i64]) -> Expression {
    Expression {
        node: Node::Array { is_matrix: false },
        args: values.iter().map(|i| number(*i)).collect(),
        span: span(),
    }
}

fn plug_tree(pin: Component) -> ClassTree {
    let mut v = component("v", "Real");
    v.binding = Some(number(0));
    let mut flow = component("i", "Real");
    flow.flow = true;
    tree(vec![
        class("Pin", 1, vec![v, flow]),
        class("Plug", 2, vec![pin]),
        class("M", 3, vec![component("plug_p", "Plug")]),
    ])
}

#[test]
fn arrays_of_components_have_an_instance_for_each_element() {
    let mut pin = component("pin", "Pin");
    pin.dims = vec![3];
    let overlay = instantiate_model(&plug_tree(pin), "M").ok().unwrap();
    assert_eq!(
        paths(&overlay),
        vec![
            "plug_p",
            "plug_p.pin[1]",
            "plug_p.pin[1].v",
            "plug_p.pin[1].i",
            "plug_p.pin[2]",
            "plug_p.pin[2].v",
            "plug_p.pin[2].i",
            "plug_p.pin[3]",
            "plug_p.pin[3].v",
            "plug_p.pin[3].i",
        ]
    );
    assert_eq!(overlay.array_parent_dims.get("plug_p.pin").unwrap(), &vec![3]);
    assert!(find(&overlay, "plug_p.pin[2].i").flow);
    assert!(find(&overlay, "plug_p.pin[2]").dims.is_empty());
}

#[test]
fn arrays_without_elements_have_no_instances() {
    let mut pin = component("pin", "Pin");
    pin.dims = vec![2, 0];
    let overlay = instantiate_model(&plug_tree(pin), "M").ok().unwrap();
    assert_eq!(paths(&overlay), vec!["plug_p"]);
    assert_eq!(overlay.array_parent_dims.get("plug_p.pin").unwrap(), &vec![2, 0]);
}

#[test]
fn elements_take_their_part_of_what_is_said_of_the_array() {
    let mut pin = component("pin", "Pin");
    pin.dims = vec![2, 2];
    pin.modifications = vec![(
        QualifiedName::from_dotted("v.start"),
        ModificationValue::with_each(number(4), true),
    )];
    let mut outer = class("N", 4, vec![component("m", "Plug")]);
    let rows = Expression {
        node: Node::Array { is_matrix: false },
        args: vec![list(&[1, 2]), list(&[3, 4])],
        span: span(),
    };
    outer.components[0].modifications =
        vec![(QualifiedName::from_dotted("pin.v"), ModificationValue::simple(rows))];
    let mut t = plug_tree(pin);
    t.classes.push(outer);
    let overlay = instantiate_model(&t, "N").ok().unwrap();
    for (path, value) in [("[1,1]", 1), ("[1,2]", 2), ("[2,1]", 3), ("[2,2]", 4)] {
        let data = find(&overlay, &format!("m.pin{path}.v"));
        assert_eq!(integer(data), Some(value));
        let start = &data.start.as_ref().unwrap().node;
        assert!(matches!(start, Node::Literal(Literal::Integer(4))));
    }
}

#[test]
fn arrays_of_primitive_components_stay_whole() {
    let mut x = component("x", "Real");
    x.dims = vec![3];
    let overlay = instantiate_model(&tree(vec![class("M", 1, vec![x])]), "M").ok().unwrap();
    assert_eq!(paths(&overlay), vec!["x"]);
    assert_eq!(find(&overlay, "x").dims, vec![3]);
    assert!(overlay.array_parent_dims.get("x").is_none());
}

#[test]
fn class_instances_hold_the_sections_of_their_class() {
    let mut part = class("Part", 1, vec![component("x", "Real")]);
    part.sections = ClassSections {
        equations: vec![ClassEquation { residual: number(1), span: span() }],
        initial_equations: vec![ClassEquation { residual: number(2), span: span() }],
        algorithms: vec![vec![ClassStatement {
            target: ComponentReference {
                local: false,
                parts: Vec::new(),
                def_id: None,
                span: span(),
            },
            value: number(3),
            span: span(),
        }]],
        initial_algorithms: vec![vec![]],
        connections: connect(end(&[("p", vec![])]), end(&[("q", vec![]), ("r", vec![])])),
        imports: vec![("S".to_string(), "Lib.S".to_string())],
    };
    let t = tree(vec![part, class("M", 2, vec![component("a", "Part")])]);
    let overlay = instantiate_model(&t, "M").ok().unwrap();
    let instance = (0..overlay.classes.len())
        .map(|i| overlay.classes.value_at(i))
        .find(|data| data.qualified_name.to_flat_string() == "a")
        .unwrap();
    assert_eq!(instance.equations.len(), 1);
    assert_eq!(instance.equations[0].origin.to_flat_string(), "a");
    assert!(matches!(
        instance.initial_equations[0].residual.node,
        Node::Literal(Literal::Integer(2))
    ));
    assert_eq!(instance.algorithms[0].len(), 1);
    assert!(instance.initial_algorithms[0].is_empty());
    assert_eq!(instance.connections[0].a.to_flat_string(), "a.p");
    assert_eq!(instance.connections[0].b.to_flat_string(), "a.q.r");
    assert_eq!(instance.connections[0].connector_type, Some(DefId::new(7)));
    assert_eq!(instance.connections[0].scope, "a");
    assert_eq!(instance.resolved_imports, vec![("S".to_string(), "Lib.S".to_string())]);
}

#[test]
fn inner_components_that_cannot_be_made_up_are_reported() {
    // The type of the outer component is primitive, so no class can be found.
    let mut outer = component("w", "Real");
    outer.outer = true;
    let t = tree(vec![class("M", 1, vec![outer])]);
    match instantiate_model_with_outcome(&t, "M") {
        InstantiationOutcome::NeedsInner { missing_inners, missing_spans, partial_overlay } => {
            assert_eq!(missing_inners, vec!["w"]);
            assert_eq!(missing_spans, vec![span()]);
            assert_eq!(paths(&partial_overlay), vec!["w"]);
        }
        _ => panic!("the model needs an inner component"),
    }
    let error = instantiate_model(&t, "M").err().unwrap();
    assert_eq!(error.message(), "missing inner declarations: w");
}

#[test]
fn inner_and_outer_types_have_to_fit() {
    let mut inner = component("w", "A");
    inner.inner = true;
    let mut outer = component("w", "B");
    outer.outer = true;
    let t = tree(vec![
        class("A", 1, vec![]),
        class("B", 2, vec![]),
        class("Part", 3, vec![outer]),
        class("M", 4, vec![inner, component("p", "Part")]),
    ]);
    let error = instantiate_model(&t, "M").err().unwrap();
    assert_eq!(error.message(), "outer w has type B but inner has type A");
}

#[test]
fn inner_outer_components_bridge_scopes() {
    let mut top = component("w", "W");
    top.inner = true;
    let mut bridge = component("w", "W");
    bridge.inner = true;
    bridge.outer = true;
    let t = tree(vec![
        class("W", 1, vec![]),
        class("Part", 2, vec![bridge]),
        class("M", 3, vec![top, component("p", "Part")]),
    ]);
    let overlay = instantiate_model(&t, "M").ok().unwrap();
    assert_eq!(overlay.inner_outer_to_parent_inner.get("p.w").unwrap(), "w");
    assert!(overlay.outer_prefix_to_inner.get("p.w").is_none());
}

#[test]
fn positions_have_to_be_known() {
    let t = tree(vec![class("M", 1, vec![Component::plain("x", "Real", Span::dummy())])]);
    let error = instantiate_model(&t, "M").err().unwrap();
    assert!(matches!(error, InstantiateError::MissingSourceContext { .. }));
    assert_eq!(error.message(), "instance component reference is missing source provenance");
}

#[test]
fn type_names_are_found_in_enclosing_scopes() {
    let mut x = component("x", "T");
    x.declaration_scope = Some(QualifiedName::from_dotted("P.Q.M"));
    let mut t = class("P.T", 1, vec![]);
    t.base = Some(Primitive::Boolean);
    let overlay = instantiate_model(&tree(vec![t, class("P.Q.M", 2, vec![x])]), "P.Q.M")
        .ok()
        .unwrap();
    let data = find(&overlay, "x");
    assert!(data.is_primitive && data.is_discrete_type);
}

#[test]
fn context_paths_and_numbers() {
    let mut ctx = InstantiateContext::new();
    ctx.push_path("a");
    ctx.push_path_part("b", vec![2]);
    assert_eq!(ctx.current_path().to_flat_string(), "a.b[2]");
    ctx.pop_path();
    assert_eq!(ctx.current_path().to_flat_string(), "a");
    assert_eq!(ctx.alloc_id(), 0);
    assert_eq!(ctx.alloc_id(), 1);
    ctx.mod_env_mut()
        .add(QualifiedName::from_dotted("x"), ModificationValue::simple(number(1)));
    assert!(ctx.mod_env().get(&QualifiedName::from_dotted("x")).is_some());
    assert!(!ctx.has_missing_inners());
    for name in ["w", "w", "v"] {
        ctx.record_missing_inner(MissingInnerInfo {
            name: name.to_string(),
            type_text: "T".to_string(),
            type_def_id: None,
            span: span(),
            outer_path: QualifiedName::from_dotted("p"),
            is_inner_outer: false,
        });
    }
    assert_eq!(ctx.missing_inner_names(), vec!["w", "v"]);
    assert_eq!(ctx.missing_inner_spans().len(), 2);
}

fn flag(value: bool) -> Annotation {
    Annotation { kind: AnnotationKind::Boolean(value), items: Vec::new() }
}

fn argument(name: &str, value: Annotation) -> Annotation {
    Annotation {
        kind: AnnotationKind::NamedArgument { name: name.to_string() },
        items: vec![value],
    }
}

fn modification(target: &str, value: Annotation) -> Annotation {
    Annotation {
        kind: AnnotationKind::Modification {
            target: target.split('.').map(str::to_string).collect(),
        },
        items: vec![value],
    }
}

#[test]
fn annotations_ask_for_evaluation() {
    assert!(has_evaluate_annotation(true, &vec![]));
    assert!(has_evaluate_annotation(false, &vec![argument("Evaluate", flag(true))]));
    assert!(has_evaluate_annotation(false, &vec![modification("Evaluate", flag(true))]));
    assert!(!has_evaluate_annotation(false, &vec![argument("Evaluate", flag(false))]));
    assert!(!has_evaluate_annotation(false, &vec![argument("evaluate", flag(true))]));
    assert!(!has_evaluate_annotation(false, &vec![flag(true)]));
}

#[test]
fn tool_annotations_mark_trainable_parameters() {
    let wrap = |kind, items| vec![Annotation { kind, items }];
    let target = |name: &str| vec![name.to_string()];
    let trainable = || vec![modification("trainable", flag(true))];
    assert!(has_trainable_annotation(&wrap(
        AnnotationKind::ClassModification { target: target("__rumoca") },
        trainable()
    )));
    assert!(has_trainable_annotation(&wrap(
        AnnotationKind::FunctionCall { target: target("__Rumoca") },
        vec![argument("Trainable", flag(true))]
    )));
    let call = Annotation {
        kind: AnnotationKind::FunctionCall { target: target("__rumoca") },
        items: trainable(),
    };
    assert!(has_trainable_annotation(&vec![argument("__rumoca", call)]));
    let call = Annotation {
        kind: AnnotationKind::FunctionCall { target: target("__other") },
        items: trainable(),
    };
    assert!(!has_trainable_annotation(&vec![modification("__rumoca", call)]));
    assert!(!has_trainable_annotation(&trainable()));
    assert!(!has_trainable_annotation(&wrap(
        AnnotationKind::ClassModification { target: target("__rumoca") },
        vec![modification("trainable", flag(false))]
    )));
}

#[test]
fn bindings_are_read_where_they_are_written() {
    let path = QualifiedName::from_dotted("a.b.c");
    let written = Some(QualifiedName::from_dotted("m"));
    let scope = binding_scope_for_record_expansion(&path, true, &written);
    assert_eq!(scope.unwrap().to_flat_string(), "m");
    let scope = binding_scope_for_record_expansion(&path, false, &written);
    assert_eq!(scope.unwrap().to_flat_string(), "a.b");
    let scope = binding_scope_for_record_expansion(&QualifiedName::from_ident("a"), false, &None);
    assert!(scope.unwrap().is_empty());
    assert!(declaration_binding_allows_structural_resolution(Variability::Constant, false, false));
    assert!(!declaration_binding_allows_structural_resolution(Variability::Empty, false, false));
}

fn said(target: &str, value: i64) -> (QualifiedName, ModificationValue) {
    (QualifiedName::from_dotted(target), ModificationValue::simple(number(value)))
}

fn integer(data: &InstanceData) -> Option<i64> {
    match &data.binding.as_ref()?.node {
        Node::Literal(Literal::Integer(i)) => Some(*i),
        _ => None,
    }
}

#[test]
fn components_modify_what_is_inside_them() {
    let mut n = component("n", "Integer");
    n.binding = Some(number(1));
    let mut a = component("a", "Sub");
    a.modifications = vec![said("n", 2), said("n", 3), said("n.start", 4)];
    let mut mid = component("mid", "Mid");
    mid.modifications = vec![said("a.n", 5)];
    let classes = || {
        vec![
            class("Sub", 1, vec![component("m", "Integer")]),
            class("Mid", 2, vec![]),
            class("M", 3, vec![]),
        ]
    };
    let mut list = classes();
    list[0].components = vec![n];
    let mut again = component("a", "Sub");
    again.modifications = vec![said("n", 2), said("n", 3), said("n.start", 4)];
    list[1].components = vec![again];
    list[2].components = vec![a, component("b", "Sub"), mid, component("n", "Integer")];
    let overlay = instantiate_model(&tree(list), "M").ok().unwrap();
    // The first that a component says of what is inside it holds.
    assert_eq!(integer(find(&overlay, "a.n")), Some(2));
    assert!(find(&overlay, "a.n").start.is_some());
    // It holds there alone.
    assert_eq!(integer(find(&overlay, "b.n")), Some(1));
    assert!(find(&overlay, "b.n").start.is_none());
    assert!(find(&overlay, "n").binding.is_none());
    // What is said further out stays.
    assert_eq!(integer(find(&overlay, "mid.a.n")), Some(5));
    assert!(find(&overlay, "mid.a.n").binding_from_modification);
}

#[test]
fn records_hand_their_fields_to_what_is_inside_them() {
    let mut r = component("r", "Rec");
    r.binding = Some(Expression {
        node: Node::VarRef { name: "other".to_string() },
        args: Vec::new(),
        span: span(),
    });
    r.modifications = vec![said("y", 7)];
    let rec = class("Rec", 1, vec![component("x", "Real"), component("y", "Integer")]);
    let overlay =
        instantiate_model(&tree(vec![rec, class("M", 2, vec![r])]), "M").ok().unwrap();
    let x = find(&overlay, "r.x");
    let value = x.binding.as_ref().unwrap();
    assert!(matches!(&value.node, Node::FieldAccess { field } if field == "x"));
    assert!(matches!(&value.args[0].node, Node::VarRef { name } if name == "other"));
    assert!(x.binding_source_scope.as_ref().unwrap().is_empty());
    assert_eq!(integer(find(&overlay, "r.y")), Some(7));
}

#[test]
fn modifications_can_be_forgotten_again() {
    let mut ctx = InstantiateContext::new();
    for (target, value) in [said("a", 1), said("b", 2), said("a", 3)] {
        ctx.add_modification(target, value);
    }
    assert_eq!(ctx.modification_count(), 2);
    ctx.forget_modifications(1);
    assert!(ctx.mod_env().get(&QualifiedName::from_dotted("a")).is_some());
    assert!(ctx.mod_env().get(&QualifiedName::from_dotted("b")).is_none());
}

#[test]
fn instanced_trees_hold_their_classes_and_instances() {
    let classes = || tree(vec![class("M", 1, vec![component("x", "Real"), component("y", "Real")])]);
    let options = InstantiateOptions { depth_limit: 5, root_modifications: Vec::new() };
    let mut instanced = instantiate_with_options(classes(), "M", options).ok().unwrap();
    assert_eq!(paths(instanced.overlay()), vec!["x", "y"]);
    assert_eq!(instanced.inner().classes.len(), 1);
    *instanced.overlay_mut() = InstanceOverlay::default();
    assert!(paths(instanced.overlay()).is_empty());
    assert_eq!(instanced.into_inner().classes[0].name, "M");
    let options = InstantiateOptions { depth_limit: 5, root_modifications: Vec::new() };
    let error = instantiate_with_options(classes(), "N", options).err().unwrap();
    assert!(matches!(error, InstantiateError::ModelNotFound { .. }));
}

fn switched_class(def_id: u32) -> ClassDef {
    let mut y = component("y", "Real");
    y.condition = Some(name("use_y"));
    class(
        "Sub",
        def_id,
        vec![
            parameter("n", "Integer", number(2)),
            parameter("use_y", "Boolean", truth(false)),
            sized("x", "Real", name("n")),
            sized("pin", "Pin", plus(name("n"), number(-1))),
            y,
        ],
    )
}

#[test]
fn root_modifications_decide_dimensions_and_conditions() {
    for made_up in [false, true] {
        let mut outer = component("world", "World");
        outer.outer = true;
        let mut inner = component("world", "World");
        inner.inner = true;
        let mut components = vec![component("s", "Sub"), outer];
        if !made_up {
            components[1] = inner;
        }
        let t = tree(vec![
            class("World", 1, vec![]),
            class("Pin", 2, vec![component("v", "Real")]),
            switched_class(3),
            class("M", 4, components),
        ]);
        let overlay = instantiate_model(&t, "M").ok().unwrap();
        assert_eq!(overlay.used_synthesized_inners(), made_up);
        assert_eq!(find(&overlay, "s.x").dims, vec![2]);
        assert!(overlay.disabled_components.contains_key("s.y"));
        assert!(!paths(&overlay).contains(&"s.pin[2]".to_string()));
        let options = with_mods(vec![given("s.n", number(3)), given("s.use_y", truth(true))]);
        match instantiate_model_with_outcome_options(&t, "M", options) {
            InstantiationOutcome::Success(overlay) => {
                assert_eq!(overlay.used_synthesized_inners(), made_up);
                assert_eq!(integer(find(&overlay, "s.n")), Some(3));
                assert_eq!(find(&overlay, "s.x").dims, vec![3]);
                assert_eq!(overlay.array_parent_dims.get("s.pin").unwrap(), &vec![2]);
                assert!(paths(&overlay).contains(&"s.pin[2].v".to_string()));
                assert!(paths(&overlay).contains(&"s.y".to_string()));
                assert!(!overlay.disabled_components.contains_key("s.y"));
            }
            _ => panic!("the model can be instantiated"),
        }
    }
}

#[test]
fn instances_of_one_class_differ_by_what_is_said_of_them() {
    let mut a = component("a", "Sub");
    a.modifications = vec![said("n", 5)];
    let mut b = component("b", "Sub");
    b.modifications = vec![given("n", name("k")), given("use_y", truth(true))];
    let t = tree(vec![
        class("Pin", 1, vec![]),
        switched_class(2),
        class(
            "M",
            3,
            vec![parameter("k", "Integer", number(4)), a, b, component("c", "Sub")],
        ),
    ]);
    let overlay = instantiate_model(&t, "M").ok().unwrap();
    for (path, n) in [("a", 5), ("b", 4), ("c", 2)] {
        assert_eq!(find(&overlay, &format!("{path}.x")).dims, vec![n]);
        assert_eq!(integer(find(&overlay, &format!("{path}.n"))), Some(n));
    }
    assert!(overlay.disabled_components.contains_key("a.y"));
    assert!(!overlay.disabled_components.contains_key("b.y"));
    // The modifier is kept as it is written.
    let source = find(&overlay, "b.n").binding_source.as_ref().unwrap();
    assert!(matches!(&source.node, Node::VarRef { name } if name == "k"));
}

#[test]
fn declared_values_of_parameters_are_evaluated() {
    let mut v = component("v", "Real");
    v.binding = Some(name("m"));
    let t = tree(vec![class(
        "M",
        1,
        vec![
            parameter("n", "Integer", number(2)),
            parameter("m", "Integer", plus(name("n"), number(1))),
            parameter("unknown", "Integer", name("elsewhere")),
            v,
        ],
    )]);
    let overlay = instantiate_model(&t, "M").ok().unwrap();
    assert_eq!(integer(find(&overlay, "m")), Some(3));
    // What is not known stays as it is written, and so does what may change.
    for path in ["unknown", "v"] {
        let value = &find(&overlay, path).binding.as_ref().unwrap().node;
        assert!(matches!(value, Node::VarRef { .. }));
    }
    let options = with_mods(vec![said("n", 6)]);
    let overlay = instantiate_model_with_options(&t, "M", options).ok().unwrap();
    assert_eq!(integer(find(&overlay, "m")), Some(7));
}

fn replaced(alias: u32, target: u32) -> ClassOverride {
    ClassOverride {
        alias: "Medium".to_string(),
        alias_def_id: DefId::new(alias),
        target_def_id: DefId::new(target),
        target_ref: None,
        modifier_args: Vec::new(),
    }
}

fn media() -> Vec<ClassDef> {
    let mut m = component("m", "Medium");
    m.type_def_id = Some(DefId::new(10));
    vec![
        class("Medium", 10, vec![]),
        class("Water", 11, vec![component("t", "Real")]),
        class("Air", 12, vec![component("h", "Real")]),
        class("Holder", 13, vec![m]),
    ]
}

#[test]
fn components_replace_classes_inside_them() {
    let mut wet = component("wet", "Holder");
    wet.class_overrides = vec![replaced(10, 11)];
    let mut classes = media();
    classes.push(class("M", 14, vec![wet, component("dry", "Holder")]));
    let overlay = instantiate_model(&tree(classes), "M").ok().unwrap();
    assert_eq!(paths(&overlay), vec!["wet", "wet.m", "wet.m.t", "dry", "dry.m"]);
    let outer = find(&overlay, "wet");
    assert_eq!(outer.class_overrides.len(), 1);
    assert_eq!(outer.class_overrides.id_at(0), 10);
    assert_eq!(outer.class_overrides.value_at(0).target_def_id.0, 11);
    assert!(!outer.has_forwarding_class_redeclare);
    let m = find(&overlay, "wet.m");
    assert_eq!((m.type_text.as_str(), m.type_def_id), ("Water", Some(DefId::new(11))));
    let m = find(&overlay, "dry.m");
    assert_eq!((m.type_text.as_str(), m.type_def_id), ("Medium", Some(DefId::new(10))));
}

#[test]
fn replaced_classes_are_handed_on() {
    // The component in the middle replaces the class by what is around it.
    let mut h = component("h", "Holder");
    h.class_overrides = vec![replaced(10, 10)];
    h.has_forwarding_class_redeclare = true;
    let mut mid = component("mid", "Mid");
    mid.class_overrides = vec![replaced(10, 12)];
    let mut classes = media();
    classes.push(class("Mid", 14, vec![h]));
    classes.push(class("M", 15, vec![mid]));
    let overlay = instantiate_model(&tree(classes), "M").ok().unwrap();
    assert_eq!(paths(&overlay), vec!["mid", "mid.h", "mid.h.m", "mid.h.m.h"]);
    let h = find(&overlay, "mid.h");
    assert!(h.has_forwarding_class_redeclare);
    assert_eq!(h.class_overrides.value_at(0).target_def_id.0, 12);
    assert_eq!(find(&overlay, "mid.h.m").type_text, "Air");
}

#[test]
fn attributes_are_what_modifications_say() {
    let mut x = component("x", "Real");
    x.attributes.unit = Some("s".to_string());
    x.attributes.quantity = Some("Time".to_string());
    x.attributes.fixed = Some(false);
    let mut a = component("a", "Sub");
    a.modifications = vec![
        given("x.unit", text("m")),
        given("x.displayUnit", text("km")),
        given("x.fixed", truth(true)),
        given("x.stateSelect", name("StateSelect.prefer")),
        given("x.min", number(1)),
        given("x.max", number(2)),
        given("x.nominal", number(3)),
    ];
    let t = tree(vec![
        class("Sub", 1, vec![x]),
        class("M", 2, vec![a, component("b", "Sub")]),
    ]);
    let options = with_mods(vec![given("a.x.quantity", text("Length"))]);
    let overlay = instantiate_model_with_options(&t, "M", options).ok().unwrap();
    let data = find(&overlay, "a.x");
    assert_eq!(data.unit.as_deref(), Some("m"));
    assert_eq!(data.display_unit.as_deref(), Some("km"));
    assert_eq!(data.quantity.as_deref(), Some("Length"));
    assert_eq!(data.fixed, Some(true));
    assert_eq!(data.state_select, StateSelect::Prefer);
    for (value, expected) in [(&data.min, 1), (&data.max, 2), (&data.nominal, 3)] {
        let value = &value.as_ref().unwrap().node;
        assert!(matches!(value, Node::Literal(Literal::Integer(i)) if *i == expected));
    }
    let data = find(&overlay, "b.x");
    assert_eq!(data.unit.as_deref(), Some("s"));
    assert_eq!(data.quantity.as_deref(), Some("Time"));
    assert_eq!((data.fixed, data.state_select), (Some(false), StateSelect::Default));
    assert!(data.display_unit.is_none() && data.min.is_none());
}

#[test]
fn selections_are_read_by_their_last_segment() {
    for (said, expected) in [
        ("StateSelect.never", StateSelect::Never),
        ("avoid", StateSelect::Avoid),
        ("prefer", StateSelect::Prefer),
        ("a.b.always", StateSelect::Always),
        ("other", StateSelect::Default),
    ] {
        let t = tree(vec![class("M", 1, vec![component("x", "Real")])]);
        let options = with_mods(vec![given("x.stateSelect", name(said))]);
        let overlay = instantiate_model_with_options(&t, "M", options).ok().unwrap();
        assert_eq!(find(&overlay, "x").state_select, expected);
    }
}

fn angles(is_final: bool) -> Vec<ClassDef> {
    let mut angle = class("Angle", 1, vec![]);
    angle.base = Some(Primitive::Number);
    angle.type_attributes =
        vec![TypeAttribute { name: "unit".to_string(), value: text("rad"), is_final }];
    let mut heading = class("Heading", 2, vec![]);
    heading.base = Some(Primitive::Number);
    heading.bases = vec!["Angle".to_string()];
    heading.type_attributes = vec![TypeAttribute {
        name: "displayUnit".to_string(),
        value: text("deg"),
        is_final: false,
    }];
    let mut a = component("a", "Sub");
    a.modifications = vec![given("x.unit", text("grad"))];
    vec![
        angle,
        heading,
        class("Sub", 3, vec![component("x", "Heading")]),
        class("M", 4, vec![a, component("b", "Sub")]),
    ]
}

#[test]
fn types_give_their_values_attributes() {
    let overlay = instantiate_model(&tree(angles(false)), "M").ok().unwrap();
    let data = find(&overlay, "a.x");
    assert_eq!((data.unit.as_deref(), data.display_unit.as_deref()), (Some("grad"), Some("deg")));
    let data = find(&overlay, "b.x");
    assert_eq!((data.unit.as_deref(), data.display_unit.as_deref()), (Some("rad"), Some("deg")));
    assert!(data.quantity.is_none());
}

#[test]
fn final_attributes_of_types_are_not_modified() {
    let error = instantiate_model(&tree(angles(true)), "M").err().unwrap();
    assert!(matches!(error, InstantiateError::FinalAttribute { .. }));
    assert_eq!(error.message(), "attribute unit of component a.x is final");
    let mut classes = angles(true);
    classes[3].components.remove(0);
    let overlay = instantiate_model(&tree(classes), "M").ok().unwrap();
    assert_eq!(find(&overlay, "b.x").unit.as_deref(), Some("rad"));
}

#[test]
fn types_without_a_definition_are_known_by_their_first_segment() {
    let mut x = component("x", "Real");
    x.type_name_def_id = Some(DefId::new(77));
    let mut y = component("y", "Real");
    y.type_def_id = Some(DefId::new(5));
    y.type_name_def_id = Some(DefId::new(77));
    let overlay = instantiate_model(&tree(vec![class("M", 1, vec![x, y])]), "M").ok().unwrap();
    assert_eq!(find(&overlay, "x").type_def_id, Some(DefId::new(77)));
    assert_eq!(find(&overlay, "y").type_def_id, Some(DefId::new(5)));
}

fn related_tree(inner_type: &str, outer_type: &str) -> ClassTree {
    let mut inner = component("w", inner_type);
    inner.inner = true;
    let mut outer = component("w", outer_type);
    outer.outer = true;
    let mut mid = class("Mid", 2, vec![]);
    mid.bases = vec!["Base".to_string()];
    let mut last = class("Last", 3, vec![]);
    last.bases = vec!["Mid".to_string()];
    tree(vec![
        class("Base", 1, vec![]),
        mid,
        last,
        class("Part", 4, vec![outer]),
        class("M", 5, vec![inner, component("p", "Part")]),
    ])
}

#[test]
fn inner_types_may_extend_outer_types() {
    for (inner, outer) in [("Last", "Base"), ("Mid", "Base"), ("Last", "Mid"), ("Mid", "Mid")] {
        let overlay = instantiate_model(&related_tree(inner, outer), "M").ok().unwrap();
        assert_eq!(overlay.outer_prefix_to_inner.get("p.w").unwrap(), "w");
    }
    let error = instantiate_model(&related_tree("Base", "Last"), "M").err().unwrap();
    assert_eq!(error.message(), "outer w has type Last but inner has type Base");
}

fn end(parts: &[(&str, Vec<Expression>)]) -> ConnectionEnd {
    ConnectionEnd {
        parts: parts
            .iter()
            .map(|(text, subs)| (text.to_string(), subs.iter().map(Expression::clone).collect()))
            .collect(),
    }
}

fn connect(a: ConnectionEnd, b: ConnectionEnd) -> ConnectionClause {
    ConnectionClause {
        kind: ConnectionKind::Connect { a, b, connector_type: Some(DefId::new(7)), span: span() },
        items: Vec::new(),
    }
}

fn ends(overlay: &InstanceOverlay, path: &str) -> Vec<(String, String)> {
    let instance = (0..overlay.classes.len())
        .map(|i| overlay.classes.value_at(i))
        .find(|data| data.qualified_name.to_flat_string() == path)
        .unwrap();
    instance
        .connections
        .iter()
        .map(|c| (c.a.to_flat_string(), c.b.to_flat_string()))
        .collect()
}

fn pair(a: &str, b: &str) -> (String, String) {
    (a.to_string(), b.to_string())
}

#[test]
fn connections_under_conditions_are_made_where_these_hold() {
    let branch = |conditions: Vec<Expression>| ConnectionClause {
        kind: ConnectionKind::If { conditions, span: span() },
        items: vec![
            connect(end(&[("p", vec![])]), end(&[("q", vec![])])),
            connect(end(&[("p", vec![])]), end(&[("r", vec![])])),
        ],
    };
    let mut part = class("Part", 1, vec![parameter("use_q", "Boolean", truth(true))]);
    part.sections.connections = ConnectionClause {
        kind: ConnectionKind::Block,
        items: vec![
            branch(vec![name("use_q")]),
            branch(vec![truth(false), name("use_q")]),
            branch(vec![truth(false), truth(false)]),
        ],
    };
    let mut b = component("b", "Part");
    b.modifications = vec![given("use_q", truth(false))];
    let t = tree(vec![part, class("M", 2, vec![component("a", "Part"), b])]);
    let overlay = instantiate_model(&t, "M").ok().unwrap();
    assert_eq!(ends(&overlay, "a"), vec![pair("a.p", "a.q"), pair("a.p", "a.r")]);
    assert_eq!(ends(&overlay, "b"), vec![pair("b.p", "b.r")]);
    assert!(ends(&overlay, "").is_empty());
}

fn looped(last: Expression, subscript: Expression) -> ConnectionClause {
    ConnectionClause {
        kind: ConnectionKind::For {
            index: "k".to_string(),
            first: number(1),
            last,
            span: span(),
        },
        items: vec![connect(
            end(&[("plug", vec![]), ("pin", vec![name("k")])]),
            end(&[("r", vec![subscript]), ("p", vec![])]),
        )],
    }
}

#[test]
fn connections_in_loops_are_made_for_each_value_of_the_index() {
    let mut part = class("Part", 1, vec![parameter("m", "Integer", number(2))]);
    part.sections.connections = looped(name("m"), plus(name("k"), number(1)));
    let mut none = component("none", "Part");
    none.modifications = vec![said("m", 0)];
    let t = tree(vec![part, class("M", 2, vec![component("a", "Part"), none])]);
    let overlay = instantiate_model(&t, "M").ok().unwrap();
    assert_eq!(
        ends(&overlay, "a"),
        vec![pair("a.plug.pin[1]", "a.r[2].p"), pair("a.plug.pin[2]", "a.r[3].p")]
    );
    assert!(ends(&overlay, "none").is_empty());
    let options = with_mods(vec![said("a.m", 3)]);
    let overlay = instantiate_model_with_options(&t, "M", options).ok().unwrap();
    assert_eq!(ends(&overlay, "a").len(), 3);
}

#[test]
fn loops_reach_parameters_of_components() {
    let mut cell = component("cell", "Cell");
    cell.modifications = vec![];
    let mut root = class("M", 2, vec![cell]);
    root.sections.connections = ConnectionClause {
        kind: ConnectionKind::For {
            index: "k".to_string(),
            first: number(1),
            last: number(2),
            span: span(),
        },
        items: vec![looped(name("cell.n"), name("k"))],
    };
    let t = tree(vec![class("Cell", 1, vec![parameter("n", "Integer", number(1))]), root]);
    // The index of the inner loop hides the one of the outer loop.
    let overlay = instantiate_model(&t, "M").ok().unwrap();
    assert_eq!(
        ends(&overlay, ""),
        vec![pair("plug.pin[1]", "r[1].p"), pair("plug.pin[1]", "r[1].p")]
    );
    let options = with_mods(vec![said("cell.n", 3)]);
    let overlay = instantiate_model_with_options(&t, "M", options).ok().unwrap();
    assert_eq!(ends(&overlay, "").len(), 6);
    assert_eq!(ends(&overlay, "")[5], pair("plug.pin[3]", "r[3].p"));
}

#[test]
fn connections_that_depend_on_what_is_not_known_are_refused() {
    let unknown = || name("elsewhere");
    let clauses = vec![
        ConnectionClause {
            kind: ConnectionKind::If { conditions: vec![unknown()], span: span() },
            items: Vec::new(),
        },
        looped(unknown(), name("k")),
        looped(number(1), unknown()),
    ];
    for clause in clauses {
        let mut part = class("Part", 1, vec![]);
        part.sections.connections = clause;
        let t = tree(vec![part, class("M", 2, vec![component("a", "Part")])]);
        let error = instantiate_model(&t, "M").err().unwrap();
        assert!(matches!(error, InstantiateError::UnknownConnection { .. }));
        assert_eq!(error.message(), "a connection depends on what is not known in a");
    }
    // A loop without rounds asks for nothing inside it.
    let mut part = class("Part", 1, vec![]);
    part.sections.connections = looped(number(0), unknown());
    let t = tree(vec![part, class("M", 2, vec![component("a", "Part")])]);
    assert!(instantiate_model(&t, "M").is_ok());
}
