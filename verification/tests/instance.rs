use rumoca::expr::tree::{Expression, Node};
use rumoca::ir::instance::{
    component_reference_for_instance, ClassInstanceData, ClassOverride, InstanceData,
    InstanceOverlay, Variability,
};
use rumoca::ir::modification::{ModificationEnvironment, ModificationValue};
use rumoca::ir::name::{DefId, QualifiedName};
use rumoca::span::Span;

fn test_expr(marker: &str) -> Expression {
    Expression {
        node: Node::VarRef { name: marker.to_string() },
        args: Vec::new(),
        span: Span::dummy(),
    }
}

fn is_test_expr(expr: &Expression, marker: &str) -> bool {
    matches!(&expr.node, Node::VarRef { name } if name == marker)
}

#[test]
fn component_reference_for_instance_preserves_parts_subscripts_and_def_id() {
    let def_id = DefId::new(9);
    let span = Span::from_offsets(1, 1, 5);
    let mut qn = QualifiedName::new();
    qn.push("body".to_string(), vec![]);
    qn.push("frame".to_string(), vec![2]);
    qn.push("r_0".to_string(), vec![]);

    let reference = component_reference_for_instance(&qn, span, Some(def_id));

    assert_eq!(reference.def_id, Some(def_id));
    assert_eq!(reference.parts.len(), 3);
    assert_eq!(reference.parts[0].ident, "body");
    assert_eq!(reference.parts[1].ident, "frame");
    assert_eq!(reference.parts[1].subs, vec![2]);
    assert_eq!(reference.parts[1].span, span);
    assert_eq!(reference.parts[2].ident, "r_0");
}

#[test]
fn test_mod_env_add_and_get() {
    let mut env = ModificationEnvironment::new();
    let path = QualifiedName::from_dotted("x.start");
    let value = ModificationValue::simple(test_expr("value_1"));

    env.add(path.clone(), value);

    let retrieved = env.get(&path);
    assert!(retrieved.is_some());
    assert!(is_test_expr(&retrieved.unwrap().value, "value_1"));
}

#[test]
fn test_mod_env_outer_precedence() {
    let mut env = ModificationEnvironment::new();
    let path = QualifiedName::from_dotted("x.start");

    let outer_value = ModificationValue::simple(test_expr("outer_10"));
    env.add(path.clone(), outer_value);

    let inner_value = ModificationValue::simple(test_expr("inner_5"));
    env.add(path.clone(), inner_value);

    let retrieved = env.get(&path).unwrap();
    assert!(is_test_expr(&retrieved.value, "outer_10"));
}

#[test]
fn test_mod_env_get_attr() {
    let mut env = ModificationEnvironment::new();

    let path = QualifiedName::from_ident("x").child("start");
    let value = ModificationValue::simple(test_expr("start_42"));
    env.add(path, value);

    let start = env.get_attr("x", "start");
    assert!(start.is_some());
    assert!(is_test_expr(start.unwrap(), "start_42"));

    assert!(env.get_attr("x", "min").is_none());
    assert!(env.get_attr("y", "start").is_none());
}

#[test]
fn test_mod_env_remove_with_prefix() {
    let mut env = ModificationEnvironment::new();

    env.add(
        QualifiedName::from_dotted("comp1.x.start"),
        ModificationValue::simple(test_expr("c1_x")),
    );
    env.add(
        QualifiedName::from_dotted("comp1.y.start"),
        ModificationValue::simple(test_expr("c1_y")),
    );
    env.add(
        QualifiedName::from_dotted("comp2.x.start"),
        ModificationValue::simple(test_expr("c2_x")),
    );

    assert_eq!(env.active.len(), 3);

    env.remove_with_prefix("comp1");

    assert_eq!(env.active.len(), 1);
    assert!(env.get(&QualifiedName::from_dotted("comp2.x.start")).is_some());
    assert!(env.get(&QualifiedName::from_dotted("comp1.x.start")).is_none());
}

#[test]
fn test_modification_value_simple() {
    let value = ModificationValue::simple(Expression {
        node: Node::Empty,
        args: Vec::new(),
        span: Span::dummy(),
    });
    assert!(!value.each);
    assert!(!value.final_);
    assert!(matches!(value.value.node, Node::Empty));
}

#[test]
fn test_instance_overlay_component_lookup_by_instance_id() {
    let mut overlay = InstanceOverlay::new();
    let id_a = overlay.alloc_id();
    let id_b = overlay.alloc_id();

    overlay.add_component(InstanceData {
        instance_id: id_a,
        qualified_name: QualifiedName::from_dotted("a"),
        ..Default::default()
    });
    overlay.add_component(InstanceData {
        instance_id: id_b,
        qualified_name: QualifiedName::from_dotted("b"),
        ..Default::default()
    });

    let component_a = overlay.get_component(id_a).expect("component for id_a should exist");
    let component_b = overlay.get_component(id_b).expect("component for id_b should exist");

    assert_eq!(component_a.qualified_name.to_flat_string(), "a");
    assert_eq!(component_b.qualified_name.to_flat_string(), "b");
}

#[test]
fn adding_a_component_again_replaces_it_in_place() {
    let mut overlay = InstanceOverlay::new();
    let id_a = overlay.alloc_id();
    let id_b = overlay.alloc_id();
    for (id, name) in [(id_a, "a"), (id_b, "b"), (id_a, "c")] {
        overlay.add_component(InstanceData {
            instance_id: id,
            qualified_name: QualifiedName::from_dotted(name),
            ..Default::default()
        });
    }
    assert_eq!(overlay.components.len(), 2);
    assert_eq!(overlay.components.value_at(0).qualified_name.to_flat_string(), "c");
    assert!(!overlay.used_synthesized_inners());
    assert!(overlay.get_class(id_a).is_none());
    overlay.add_class(ClassInstanceData {
        instance_id: id_b,
        class_def_id: Some(DefId::new(3)),
        qualified_name: QualifiedName::new(),
        source_scope: None,
        equations: Vec::new(),
        initial_equations: Vec::new(),
        algorithms: Vec::new(),
        initial_algorithms: Vec::new(),
        connections: Vec::new(),
        resolved_imports: Vec::new(),
    });
    assert_eq!(overlay.get_class(id_b).unwrap().class_def_id, Some(DefId::new(3)));
}

#[test]
fn defaults_say_nothing() {
    let data = InstanceData::default();
    assert_eq!(data.variability, Variability::Empty);
    assert!(data.binding.is_none() && data.component_ref.is_none());
    assert!(data.qualified_name.is_empty());
    let replaced = ClassOverride::new("Medium".to_string(), DefId::new(1), DefId::new(2), None)
        .with_modifier_args(vec![test_expr("p")]);
    assert_eq!(replaced.alias, "Medium");
    assert_eq!(replaced.modifier_args.len(), 1);
}

#[test]
fn test_modification_constructors_keep_what_is_said() {
    let value = ModificationValue::with_prefixes(test_expr("v"), true, true);
    assert!(value.each && value.final_ && value.source.is_none());
    let value = ModificationValue::with_source(test_expr("v"), Some(test_expr("s")));
    assert!(is_test_expr(value.source.as_ref().unwrap(), "s"));
    assert!(!value.each && !value.final_ && value.source_scope.is_none());
    let scope = QualifiedName::from_dotted("a.b");
    let value = ModificationValue::with_source_scope(test_expr("v"), None, Some(scope));
    assert_eq!(value.source_scope.unwrap().to_flat_string(), "a.b");
    assert!(ModificationValue::with_each(test_expr("v"), true).each);
}
