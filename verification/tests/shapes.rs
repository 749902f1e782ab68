use rumoca::dae::shape::{
    flat_index_to_subscripts, format_subscript_key, scalar_name_text_for_flat_index,
};

#[test]
fn scalar_name_for_flat_index_uses_shape_metadata() {
    assert_eq!(scalar_name_text_for_flat_index("v", &[3], 1), "v[2]");
    assert_eq!(scalar_name_text_for_flat_index("M", &[3, 4], 4), "M[2,1]");
    assert_eq!(
        flat_index_to_subscripts(&[2, 3, 4], 23),
        Some(vec![2, 3, 4])
    );
}

#[test]
fn positions_outside_a_shape_have_no_subscripts() {
    assert_eq!(flat_index_to_subscripts(&[2, 3], 6), None);
    assert_eq!(flat_index_to_subscripts(&[], 0), None);
    assert_eq!(flat_index_to_subscripts(&[2, 0], 0), None);
    assert_eq!(flat_index_to_subscripts(&[-1], 0), None);
    assert_eq!(scalar_name_text_for_flat_index("v", &[2, 3], 6), "v[7]");
}

#[test]
fn subscript_keys_are_comma_separated() {
    assert_eq!(format_subscript_key("x", &[1, 20, 3]), "x[1,20,3]");
    assert_eq!(format_subscript_key("x", &[]), "x[]");
}

#[test]
fn elements_have_keys_of_their_own() {
    let dims = [2, 3];
    let names: Vec<String> =
        (0..6).map(|i| scalar_name_text_for_flat_index("m", &dims, i)).collect();
    assert_eq!(names, vec!["m[1,1]", "m[1,2]", "m[1,3]", "m[2,1]", "m[2,2]", "m[2,3]"]);
    for (i, name) in names.iter().enumerate() {
        let subscripts = flat_index_to_subscripts(&dims, i).unwrap();
        assert_eq!(*name, format_subscript_key("m", &subscripts));
    }
    assert_eq!(scalar_name_text_for_flat_index("v", &[3], 2), format_subscript_key("v", &[3]));
    assert_ne!(format_subscript_key("m", &[1, 12]), format_subscript_key("m", &[11, 2]));
    assert_ne!(format_subscript_key("m", &[]), format_subscript_key("m", &[0]));
}
