use rumoca::ir::name::{
    subscripted_part_matches_rendered, ComponentPath, InstanceId, QualifiedName,
};

#[test]
fn test_from_dotted_simple() {
    let qn = QualifiedName::from_dotted("x.start");
    assert_eq!(qn.parts.len(), 2);
    assert_eq!(qn.parts[0].0, "x");
    assert_eq!(qn.parts[1].0, "start");
    assert_eq!(qn.to_flat_string(), "x.start");
}

#[test]
fn test_from_dotted_single() {
    let qn = QualifiedName::from_dotted("x");
    assert_eq!(qn.parts.len(), 1);
    assert_eq!(qn.parts[0].0, "x");
}

#[test]
fn test_from_dotted_empty() {
    let qn = QualifiedName::from_dotted("");
    assert!(qn.is_empty());
}

#[test]
fn test_from_dotted_trailing_dot() {
    let qn = QualifiedName::from_dotted("x.y.");
    assert_eq!(qn.parts.len(), 2);
    assert_eq!(qn.to_flat_string(), "x.y");
}

#[test]
fn test_from_dotted_leading_dot() {
    let qn = QualifiedName::from_dotted(".x.y");
    assert_eq!(qn.parts.len(), 2);
    assert_eq!(qn.to_flat_string(), "x.y");
}

#[test]
fn test_from_dotted_consecutive_dots() {
    let qn = QualifiedName::from_dotted("x..y");
    assert_eq!(qn.parts.len(), 2);
    assert_eq!(qn.to_flat_string(), "x.y");
}

#[test]
fn test_starts_with_match() {
    let qn = QualifiedName::from_dotted("l2.x.start");
    assert!(qn.starts_with("l2"));
}

#[test]
fn test_starts_with_no_match() {
    let qn = QualifiedName::from_dotted("l2.x.start");
    assert!(!qn.starts_with("l1"));
    assert!(!qn.starts_with("x"));
}

#[test]
fn test_starts_with_empty() {
    let qn = QualifiedName::new();
    assert!(!qn.starts_with("anything"));
}

#[test]
fn test_strip_prefix_success() {
    let qn = QualifiedName::from_dotted("l2.x.start");
    let stripped = qn.strip_prefix("l2").unwrap();
    assert_eq!(stripped.to_flat_string(), "x.start");
}

#[test]
fn test_strip_prefix_no_match() {
    let qn = QualifiedName::from_dotted("l2.x.start");
    assert!(qn.strip_prefix("l1").is_none());
}

#[test]
fn test_strip_prefix_single_part() {
    let qn = QualifiedName::from_dotted("x");
    assert!(qn.strip_prefix("x").is_none());
}

#[test]
fn test_strip_prefix_preserves_subscripts() {
    let mut qn = QualifiedName::new();
    qn.push("comp".to_string(), vec![]);
    qn.push("array".to_string(), vec![1, 2]);
    qn.push("x".to_string(), vec![]);

    let stripped = qn.strip_prefix("comp").unwrap();
    assert_eq!(stripped.parts.len(), 2);
    assert_eq!(stripped.parts[0].0, "array");
    assert_eq!(stripped.parts[0].1, vec![1, 2]);
    assert_eq!(stripped.to_flat_string(), "array[1,2].x");
}

#[test]
fn test_to_component_path_preserves_structured_subscripts() {
    let mut qn = QualifiedName::new();
    qn.push("sys".to_string(), vec![]);
    qn.push("arr".to_string(), vec![1, 2]);
    qn.push("state".to_string(), vec![]);

    let path = qn.to_component_path();
    assert_eq!(
        path.parts,
        vec![
            "sys".to_string(),
            "arr[1,2]".to_string(),
            "state".to_string(),
        ]
    );
    assert_eq!(path.to_flat_string(), "sys.arr[1,2].state");
}

#[test]
fn test_starts_with_component_path_matches_structured_subscripts() {
    let mut qn = QualifiedName::new();
    qn.push("sys".to_string(), vec![]);
    qn.push("arr".to_string(), vec![1, 2]);
    qn.push("state".to_string(), vec![]);

    let prefix = ComponentPath::from_flat_path("sys.arr[1,2]");

    assert!(qn.starts_with_component_path(&prefix));
}

#[test]
fn test_starts_with_component_path_rejects_subscript_mismatch() {
    let mut qn = QualifiedName::new();
    qn.push("sys".to_string(), vec![]);
    qn.push("arr".to_string(), vec![1, 2]);
    qn.push("state".to_string(), vec![]);

    let prefix = ComponentPath::from_flat_path("sys.arr[1,3]");

    assert!(!qn.starts_with_component_path(&prefix));
}

#[test]
fn test_subscripted_part_match_uses_canonical_integer_text() {
    assert!(subscripted_part_matches_rendered("arr", &vec![0], "arr[0]"));
    assert!(subscripted_part_matches_rendered("arr", &vec![-2], "arr[-2]"));
    assert!(!subscripted_part_matches_rendered("arr", &vec![1], "arr[01]"));
    assert!(!subscripted_part_matches_rendered("arr", &vec![0], "arr[-0]"));
}

#[test]
fn test_first_name() {
    let qn = QualifiedName::from_dotted("a.b.c");
    assert_eq!(qn.first_name(), Some("a"));

    let empty = QualifiedName::new();
    assert_eq!(empty.first_name(), None);
}

#[test]
fn test_child() {
    let qn = QualifiedName::from_ident("x");
    let child = qn.child("start");
    assert_eq!(child.to_flat_string(), "x.start");
}

#[test]
fn test_parent_join_use_structured_parts() {
    let qn = QualifiedName::from_dotted("system.medium.nXi");
    assert_eq!(qn.parent().unwrap().to_flat_string(), "system.medium");
    assert_eq!(
        QualifiedName::from_dotted("system")
            .join(&QualifiedName::from_dotted("medium.nXi"))
            .parts,
        qn.parts
    );
}

#[test]
fn test_display_with_subscripts() {
    let mut qn = QualifiedName::new();
    qn.push("matrix".to_string(), vec![1, 2]);
    qn.push("element".to_string(), vec![]);
    assert_eq!(qn.to_flat_string(), "matrix[1,2].element");
}

#[test]
fn flat_paths_split_back_into_their_segments() {
    let mut qn = QualifiedName::from_dotted("body.frame");
    qn.push("r".to_string(), vec![-1, 12]);
    qn.push("x".to_string(), vec![]);
    let text = qn.to_flat_string();
    assert_eq!(text, "body.frame.r[-1,12].x");
    assert_eq!(
        ComponentPath::from_flat_path(&text).parts,
        qn.to_component_path().parts
    );
    assert_eq!(
        ComponentPath::from_flat_path("a[b.c].d").parts,
        vec!["a[b.c]", "d"]
    );
}

#[test]
fn plain_paths_are_read_back() {
    for text in ["", "x", "a.b.c"] {
        let qn = QualifiedName::from_dotted(text);
        assert_eq!(qn.to_flat_string(), text);
        assert!(QualifiedName::from_dotted(&qn.to_flat_string()).same_path(&qn));
    }
    let qn = QualifiedName::from_dotted("a.b");
    assert!(!qn.same_path(&QualifiedName::from_dotted("a.c")));
    assert!(!qn.same_path(&QualifiedName::from_dotted("a")));
    assert!(qn.ends_with_path(&QualifiedName::from_dotted("b")));
    assert!(!qn.ends_with_path(&QualifiedName::new()));
}

#[test]
fn last_names_and_dots_follow_the_segments() {
    let name = QualifiedName::from_dotted("a.b.c");
    assert_eq!(name.last_name(), Some("c"));
    assert!(name.is_dotted());
    let single = QualifiedName::from_dotted("a");
    assert_eq!(single.last_name(), Some("a"));
    assert!(!single.is_dotted());
    let empty = QualifiedName::from_dotted("");
    assert_eq!(empty.last_name(), None);
    assert!(!empty.is_dotted());
}

#[test]
fn instance_ids_show_their_index() {
    assert_eq!(InstanceId::new(42).to_text(), "InstanceId(42)");
    assert_eq!(InstanceId::new(0).to_text(), "InstanceId(0)");
}
