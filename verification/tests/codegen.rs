use rumoca::codegen::linsolve_mlir::render_linsolve_mlir_function;
use rumoca::codegen::matmul_mlir::render_matmul_mlir_function;
use rumoca::codegen::matmul_text::{
    render_matmul_c_function, render_matmul_casadi_function, render_matmul_jax_function,
};
use rumoca::codegen::mlir_ops::emit_linear_ops_mlir;
use rumoca::codegen::shown::show_value;
use rumoca::codegen::targets::{
    render_optional_solve_slot_assign_c_function, render_solve_pre_param_binding_c_function,
    render_solve_slot_assign_c_function, solve_block_output_count_function, solve_output_targets,
    SlotPatterns, SolveOutputTargets,
};
use rumoca::codegen::template::{
    is_simple_template, render_ast_template_with_name, render_template_with_texts,
};
use rumoca::codegen::value::{
    required_bool_field, required_string_field, TemplateValue, ValueKind,
};

fn whole(i: i128) -> TemplateValue {
    TemplateValue::leaf(ValueKind::Integer(i))
}

fn number(text: &str) -> TemplateValue {
    TemplateValue::leaf(ValueKind::Number(text.to_string()))
}

fn text(s: &str) -> TemplateValue {
    TemplateValue::leaf(ValueKind::Text(s.to_string()))
}

fn list(items: Vec<TemplateValue>) -> TemplateValue {
    TemplateValue::list(items)
}

fn record(fields: Vec<(&str, TemplateValue)>) -> TemplateValue {
    let mut names = Vec::new();
    let mut items = Vec::new();
    for (name, item) in fields {
        names.push(name.to_string());
        items.push(item);
    }
    TemplateValue::record(names, items)
}

fn constant(dst: i128, value: &str) -> TemplateValue {
    record(vec![("Const", record(vec![("dst", whole(dst)), ("value", number(value))]))])
}

fn load_y(dst: i128, index: i128) -> TemplateValue {
    record(vec![("LoadY", record(vec![("dst", whole(dst)), ("index", whole(index))]))])
}

fn node(
    lhs_ops: Vec<TemplateValue>,
    rhs_ops: Vec<TemplateValue>,
    rhs_start: i128,
    sizes: (i128, i128, i128),
    sparsity: TemplateValue,
) -> TemplateValue {
    record(vec![
        ("lhs_ops", list(lhs_ops)),
        ("lhs_start", whole(0)),
        ("rhs_ops", list(rhs_ops)),
        ("rhs_start", whole(rhs_start)),
        ("m", whole(sizes.0)),
        ("k", whole(sizes.1)),
        ("n", whole(sizes.2)),
        ("lhs_sparsity", sparsity),
    ])
}

fn two_by_two() -> TemplateValue {
    node(
        vec![constant(0, "1.0"), constant(1, "2.0"), constant(2, "3.0"), constant(3, "4.0")],
        vec![constant(4, "5.0"), constant(5, "6.0"), constant(6, "7.0"), constant(7, "8.0")],
        4,
        (2, 2, 2),
        text("Dense"),
    )
}

fn matvec(sparsity: TemplateValue) -> TemplateValue {
    node(
        vec![constant(0, "1.0"), constant(1, "2.0"), constant(2, "3.0"), constant(3, "4.0")],
        vec![load_y(4, 0), load_y(5, 1)],
        4,
        (2, 2, 1),
        sparsity,
    )
}

fn registers() -> Vec<String> {
    ["1.0", "2.0", "3.0", "4.0", "5.0", "6.0", "7.0", "8.0"].iter().map(|s| s.to_string()).collect()
}

fn explicit(positions: Vec<(i128, i128)>) -> TemplateValue {
    let pairs = positions.into_iter().map(|(r, c)| list(vec![whole(r), whole(c)])).collect();
    record(vec![("Explicit", record(vec![("nnz", list(pairs))]))])
}

#[test]
fn test_render_ast_template_with_name() {
    let rendered =
        render_ast_template_with_name("model {{ model_name }} end {{ model_name }};", "M").unwrap();
    assert_eq!(rendered, "model M end M;");
}

#[test]
fn templates_use_their_text_variables_and_report_errors() {
    let names = vec!["a".to_string(), "b".to_string()];
    let texts = vec!["x".to_string(), "y".to_string()];
    let rendered = render_template_with_texts("{{ b | upper }}{{ a }}", &names, &texts).unwrap();
    assert_eq!(rendered, "Yx");
    let error = render_template_with_texts("{{ ", &names, &texts).unwrap_err();
    assert!(error.message.starts_with("syntax error"), "{}", error.message);
}

#[test]
fn templates_branch_and_compare() {
    let names = vec!["a".to_string(), "b".to_string()];
    let texts = vec!["x".to_string(), "x".to_string()];
    let template = "{# [a] #}{% if a == b %}f[{{ a | upper }}] = {0};{% endif %}";
    let rendered = render_template_with_texts(template, &names, &texts).unwrap();
    assert_eq!(rendered, "f[X] = {0};");
}

#[test]
fn templates_that_are_not_simple_are_refused() {
    let refused =
        "tags may hold only names, filters without arguments and comparisons, and few of them";
    for template in [
        "{{ model_name[::-1] }}",
        "{{ 'a' | indent(99999999999999999999) }}",
        "{{ '%.70000f' | format(1.5) }}",
        "{{ model_name * 2 }}",
        "{# {{ #}",
        "{{ { }}",
    ] {
        assert!(!is_simple_template(template));
        assert_eq!(render_ast_template_with_name(template, "").unwrap_err().message, refused);
    }
    for template in ["{{ model_name | format }}", "{% if 4 is divisibleby 0 %}{% endif %}"] {
        assert!(is_simple_template(template));
        let message = render_ast_template_with_name(template, "%.70000f").unwrap_err().message;
        assert!(message.contains("unknown"), "{message}");
    }
    assert_eq!(render_ast_template_with_name("[{{ range }}]", "M").unwrap(), "[]");
}

#[test]
fn templates_with_too_much_in_their_tags_are_refused() {
    let render = |template: &str| render_ast_template_with_name(template, "M");
    let minus = |n: usize| format!("{{{{{}model_name}}}}", "-".repeat(n - 10));
    let elif = |n: usize| format!("{{%if a%}}{}{{%endif%}}", "{%elif a%}".repeat(n));
    let chain = |n: usize| format!("{{{{model_name{}}}}}", "|e".repeat(n));
    assert!(is_simple_template(&minus(1024)) && !is_simple_template(&minus(1025)));
    assert!(render(&minus(1024)).is_err());
    assert!(is_simple_template(&elif(169)) && !is_simple_template(&elif(170)));
    assert_eq!(render(&elif(169)).unwrap(), "");
    assert!(is_simple_template(&chain(507)) && !is_simple_template(&chain(508)));
    assert_eq!(render(&chain(507)).unwrap(), "M");
    assert!(!is_simple_template(&format!("{{{{{}x}}}}", "not ".repeat(300))));
    assert!(is_simple_template(&"{[not in a tag]}".repeat(1000)));
}

#[test]
fn jax_product_multiplies_whole_operands() {
    let rendered = render_matmul_jax_function(&two_by_two(), &whole(0), &registers()).unwrap();
    assert_eq!(
        rendered,
        "\t# MatMul 2x2x2 (jax): out[0..4]\n\
         \t__mm0 = matmul(stack([1.0, 2.0, 3.0, 4.0]).reshape((2, 2)), stack([5.0, 6.0, 7.0, 8.0]).reshape((2, 2)))\n\
         \tout[0] = __mm0[0, 0]\n\
         \tout[1] = __mm0[0, 1]\n\
         \tout[2] = __mm0[1, 0]\n\
         \tout[3] = __mm0[1, 1]"
    );
    let rendered =
        render_matmul_jax_function(&matvec(text("Dense")), &whole(3), &registers()).unwrap();
    assert!(rendered.contains(".reshape((2, 1))"));
    assert!(rendered.contains("out[3] = __mm3[0, 0]") && rendered.contains("out[4] = __mm3[1, 0]"));
}

#[test]
fn casadi_product_fills_operands_transposed() {
    let rendered = render_matmul_casadi_function(&two_by_two(), &whole(0), &registers()).unwrap();
    assert!(rendered.contains("mtimes(reshape(vertcat(1.0, 2.0, 3.0, 4.0), 2, 2).T, "));
    let rendered =
        render_matmul_casadi_function(&matvec(text("Dense")), &whole(0), &registers()).unwrap();
    assert!(rendered.contains("reshape(vertcat(5.0, 6.0), 1, 2).T"));
}

#[test]
fn test_jax_solve_renders_native_matvec() {
    let rendered =
        render_matmul_jax_function(&matvec(text("Dense")), &whole(0), &registers()).unwrap();
    assert!(rendered.contains("matmul("), "{rendered}");
    assert!(rendered.contains(".reshape((2, 1))"), "{rendered}");
    assert!(rendered.contains("out[0] =") && rendered.contains("out[1] ="), "{rendered}");
}

#[test]
fn test_casadi_solve_renders_native_matvec() {
    let rendered =
        render_matmul_casadi_function(&matvec(text("Dense")), &whole(0), &registers()).unwrap();
    assert!(rendered.contains("mtimes("), "{rendered}");
    assert!(rendered.contains(", 1, 2).T"), "{rendered}");
    assert!(rendered.contains("out[0] =") && rendered.contains("out[1] ="), "{rendered}");
}

#[test]
fn diagonal_products_are_written_out() {
    let node = matvec(text("Diagonal"));
    assert_eq!(
        render_matmul_c_function(&node, &whole(5), &registers()).unwrap(),
        "    /* DiagonalMul 2x2: output[5..7] */\n\
         \tm->xdot[5] = (1.0) * (5.0);\n\
         \tm->xdot[6] = (4.0) * (6.0);"
    );
    assert_eq!(
        render_matmul_jax_function(&node, &whole(5), &registers()).unwrap(),
        "\t# DiagonalMul 2x2 (jax): out[5..7]\n\
         \tout[5] = (1.0) * (5.0)\n\
         \tout[6] = (4.0) * (6.0)"
    );
    assert_eq!(
        render_matmul_mlir_function(&node, &whole(2), &whole(5)).unwrap(),
        "    // MatMul 2x2x1 → out[5..7]\n\
         \x20   %mm2_r0 = arith.constant 1.0 : f64\n\
         \x20   %mm2_r1 = arith.constant 2.0 : f64\n\
         \x20   %mm2_r2 = arith.constant 3.0 : f64\n\
         \x20   %mm2_r3 = arith.constant 4.0 : f64\n\
         \x20   %mm2_iy4 = arith.constant 0 : index\n\
         \t%mm2_r4 = memref.load %y[%mm2_iy4] : memref<?xf64>\n\
         \x20   %mm2_iy5 = arith.constant 1 : index\n\
         \t%mm2_r5 = memref.load %y[%mm2_iy5] : memref<?xf64>\n\
         \x20   %mm2_diag0 = arith.mulf %mm2_r0, %mm2_r4 : f64\n\
         \x20   %mm2_douti0 = arith.constant 5 : index\n\
         \x20   memref.store %mm2_diag0, %out[%mm2_douti0] : memref<?xf64>\n\
         \x20   %mm2_diag1 = arith.mulf %mm2_r3, %mm2_r5 : f64\n\
         \x20   %mm2_douti1 = arith.constant 6 : index\n\
         \x20   memref.store %mm2_diag1, %out[%mm2_douti1] : memref<?xf64>\n"
    );
}

#[test]
fn sparse_products_sum_over_the_given_positions() {
    let node = matvec(explicit(vec![(0, 0), (0, 1)]));
    assert_eq!(
        render_matmul_c_function(&node, &whole(0), &registers()).unwrap(),
        "    /* SparseMul 2x2x1 (2 nnz): output[0..2] */\n\
         \tm->xdot[0] = (1.0) * (5.0) + (2.0) * (6.0);\n\
         \tm->xdot[1] = 0.0;"
    );
    assert_eq!(
        render_matmul_casadi_function(&node, &whole(0), &registers()).unwrap(),
        "\t# SparseMul 2x2x1 (2 nnz, casadi): out[0..2]\n\
         \tout[0] = (1.0) * (5.0) + (2.0) * (6.0)\n\
         \tout[1] = 0.0"
    );
    let mlir = render_matmul_mlir_function(&node, &whole(0), &whole(0)).unwrap();
    assert!(mlir.contains("    // Explicit sparse: 2 nnz\n"));
    assert!(mlir.contains("%mm0_eacc0_0_0 = arith.mulf %mm0_r0, %mm0_r4 : f64\n"));
    assert!(mlir.contains("%mm0_eacc0_0_1 = arith.addf %mm0_eacc0_0_0, %mm0_eprod0_0_1 : f64\n"));
    assert!(mlir.contains("memref.store %mm0_eacc0_0_1, %out[%mm0_eoi0_0] : memref<?xf64>\n"));
    assert!(mlir.contains("%mm0_ez1_0 = arith.constant 0.0 : f64\n"));
}

#[test]
fn dense_c_product_calls_the_matrix_routine() {
    assert_eq!(
        render_matmul_c_function(&two_by_two(), &whole(1), &registers()).unwrap(),
        "    /* MatMul 2x2x2: output[1..5] */\n\
         \t{\n\
         \t\tdouble __lhs[4] = {1.0, 2.0, 3.0, 4.0};\n\
         \t\tdouble __rhs[4] = {5.0, 6.0, 7.0, 8.0};\n\
         \t\t__rumoca_dgemm(2, 2, 2, __lhs, __rhs, &m->xdot[1]);\n\
         \t}"
    );
    let mlir = render_matmul_mlir_function(&two_by_two(), &whole(0), &whole(0)).unwrap();
    assert!(mlir.contains("%mm0_A = memref.alloca() : memref<2x2xf64>\n"));
    assert!(mlir.contains(
        "memref.store %mm0_r3, %mm0_A[%mm0_Ai1_1, %mm0_Aj1_1] : memref<2x2xf64>\n"
    ));
    assert!(mlir.contains(
        "linalg.matmul ins(%mm0_A, %mm0_B : memref<2x2xf64>, memref<2x2xf64>) outs(%mm0_C : memref<2x2xf64>)\n"
    ));
    assert!(mlir.contains("memref.store %mm0_Cv1_0, %out[%mm0_oi1_0] : memref<?xf64>\n"));
}

#[test]
fn products_that_cannot_be_written_out_are_refused() {
    let detail = |r: Result<String, rumoca::codegen::value::RenderError>| r.unwrap_err().detail;
    let big = node(vec![], vec![], 0, (2000, 2000, 1), text("Dense"));
    assert_eq!(
        detail(render_matmul_c_function(&big, &whole(0), &registers())),
        "MatMul lhs element count (4000000) exceeds render enumeration limit 1000000"
    );
    let huge = node(vec![], vec![], 0, (i64::MAX as i128, 1, 8), text("Dense"));
    assert_eq!(
        detail(render_matmul_c_function(&huge, &whole(0), &registers())),
        "MatMul output count overflows host index range"
    );
    assert_eq!(
        detail(render_matmul_c_function(&two_by_two(), &whole(-1), &registers())),
        "output_offset must be a non-negative integer"
    );
    assert_eq!(
        detail(render_matmul_mlir_function(&two_by_two(), &text("x"), &whole(0))),
        "MatMul node_id must be a non-negative integer"
    );
    assert_eq!(
        detail(render_matmul_c_function(&two_by_two(), &whole(0), &vec!["1.0".to_string()])),
        "solve register 1 has no expression"
    );
    let bad = matvec(record(vec![("Explicit", record(vec![("nnz", list(vec![list(vec![whole(0)])]))]))]));
    assert_eq!(
        detail(render_matmul_c_function(&bad, &whole(0), &registers())),
        "MatMul Explicit sparsity nnz[0] col must be a non-negative integer"
    );
    let error = render_matmul_c_function(&record(vec![]), &whole(0), &registers()).unwrap_err();
    assert_eq!(error.message(), "invalid operation: missing field `lhs_ops`");
}

#[test]
fn linear_solve_calls_the_routine_for_each_component() {
    let node = record(vec![
        ("setup_ops", list(vec![constant(0, "2.0"), constant(1, "4.0")])),
        ("matrix_start", whole(0)),
        ("rhs_start", whole(1)),
        ("n", whole(1)),
    ]);
    assert_eq!(
        render_linsolve_mlir_function(&node, &whole(7), &whole(3)).unwrap(),
        "    // LinSolve 1×1 → out[3..4]\n\
         \x20   %ls7_r0 = arith.constant 2.0 : f64\n\
         \x20   %ls7_r1 = arith.constant 4.0 : f64\n\
         \x20   %ls7_A = memref.alloca() : memref<1xf64>\n\
         \x20   %ls7_Ai0 = arith.constant 0 : index\n\
         \tmemref.store %ls7_r0, %ls7_A[%ls7_Ai0] : memref<1xf64>\n\
         \x20   %ls7_b = memref.alloca() : memref<1xf64>\n\
         \x20   %ls7_bi0 = arith.constant 0 : index\n\
         \tmemref.store %ls7_r1, %ls7_b[%ls7_bi0] : memref<1xf64>\n\
         \x20   %ls7_Aidx = memref.extract_aligned_pointer_as_index %ls7_A : memref<1xf64> -> index\n\
         \t%ls7_Ai64 = arith.index_cast %ls7_Aidx : index to i64\n\
         \t%ls7_bidx = memref.extract_aligned_pointer_as_index %ls7_b : memref<1xf64> -> index\n\
         \t%ls7_bi64 = arith.index_cast %ls7_bidx : index to i64\n\
         \t%ls7_nn = arith.constant 1 : i64\n\
         \x20   %ls7_comp0 = arith.constant 0 : i64\n\
         \t%ls7_x0 = func.call @rumoca_solve_linear_component(%ls7_Ai64, %ls7_bi64, %ls7_nn, %ls7_comp0) : (i64, i64, i64, i64) -> f64\n\
         \t%ls7_oi0 = arith.constant 3 : index\n\
         \tmemref.store %ls7_x0, %out[%ls7_oi0] : memref<?xf64>\n"
    );
    let big = record(vec![
        ("setup_ops", list(vec![])),
        ("matrix_start", whole(0)),
        ("rhs_start", whole(0)),
        ("n", whole(1001)),
    ]);
    assert_eq!(
        render_linsolve_mlir_function(&big, &whole(0), &whole(0)).unwrap_err().detail,
        "LinSolve matrix element count (1002001) exceeds render enumeration limit 1000000"
    );
}

#[test]
fn instructions_become_operations() {
    let op = |name: &str, fields| record(vec![(name, record(fields))]);
    let program = list(vec![
        op("LoadP", vec![("dst", whole(0)), ("index", whole(3))]),
        op("Move", vec![("dst", whole(1)), ("src", whole(0))]),
        op("Unary", vec![("dst", whole(2)), ("op", text("Sin")), ("arg", whole(1))]),
        op("Binary", vec![("dst", whole(3)), ("op", text("Max")), ("lhs", whole(2)), ("rhs", whole(0))]),
        op(
            "LoadIndexedP",
            vec![("dst", whole(4)), ("base", whole(9)), ("count", whole(0)), ("index", whole(3))],
        ),
        op("StoreOutput", vec![("src", whole(4))]),
        constant(5, "-inf"),
    ]);
    let rendered = emit_linear_ops_mlir(&program, "q").unwrap();
    assert!(rendered.starts_with(
        "    %q_ip0 = arith.constant 3 : index\n\t%q_r0 = memref.load %p[%q_ip0] : memref<?xf64>\n"
    ));
    assert!(rendered.contains("%q_r1 = arith.addf %q_r0, %q_mz1 : f64\n"));
    assert!(rendered.contains("    %q_r2 = math.sin %q_r1 : f64\n"));
    assert!(rendered.contains("    %q_r3 = arith.maximumf %q_r2, %q_r0 : f64\n"));
    assert!(rendered.contains("%q_hi4 = arith.constant 0.0 : f64\n"));
    assert!(rendered.ends_with("    %q_r5 = arith.constant -INFINITY : f64\n"));

    let detail = |v| emit_linear_ops_mlir(&list(vec![v]), "q").unwrap_err().detail;
    assert_eq!(
        detail(op("Unary", vec![("dst", whole(2)), ("op", text("Erf")), ("arg", whole(1))])),
        "unsupported unary in MatMul ops: Erf"
    );
    assert_eq!(
        detail(op(
            "Binary",
            vec![("dst", whole(2)), ("op", text("Atan2")), ("lhs", whole(1)), ("rhs", whole(1))]
        )),
        "unsupported binary in MatMul ops: Atan2"
    );
    assert_eq!(
        detail(op("LoadTime", vec![("dst", whole(2))])),
        "unsupported LinearOp in MatMul lhs/rhs: {\"LoadTime\": {\"dst\": 2}}"
    );
    assert_eq!(
        emit_linear_ops_mlir(&whole(1), "q").unwrap_err().detail,
        "MatMul lhs_ops/rhs_ops must be iterable"
    );
}

#[test]
fn output_targets_are_an_offset_or_a_list() {
    assert!(matches!(solve_output_targets(None), Ok(SolveOutputTargets::DenseOffset(0))));
    let dense = solve_output_targets(Some(&whole(4))).unwrap();
    assert_eq!(dense.target_for(3).unwrap(), 7);
    assert_eq!(dense.target_for(usize::MAX).unwrap_err().detail, "solve output index overflow");
    let listed = solve_output_targets(Some(&list(vec![whole(9), whole(2)]))).unwrap();
    assert_eq!(listed.target_for(1).unwrap(), 2);
    assert_eq!(
        listed.target_for(2).unwrap_err().detail,
        "solve output_indices missing entry for StoreOutput #2"
    );
    assert_eq!(
        solve_output_targets(Some(&list(vec![whole(-1)]))).unwrap_err().detail,
        "solve output_indices entries must be non-negative integers"
    );
    assert_eq!(
        solve_output_targets(Some(&text("x"))).unwrap_err().detail,
        "solve output target must be an offset or output_indices array"
    );
}

#[test]
fn stored_results_are_counted() {
    let store = || record(vec![("StoreOutput", record(vec![("src", whole(0))]))]);
    let programs =
        list(vec![list(vec![constant(0, "1.0"), store()]), list(vec![store(), store()])]);
    assert_eq!(solve_block_output_count_function(&programs).unwrap(), 3);
    assert_eq!(
        solve_block_output_count_function(&whole(0)).unwrap_err().detail,
        "solve programs must be an array"
    );
    assert_eq!(
        solve_block_output_count_function(&list(vec![whole(0)])).unwrap_err().detail,
        "solve program must be an array of LinearOp values"
    );
}

#[test]
fn slots_are_assigned_by_pattern() {
    let config = SlotPatterns { y: "y[{}] = {}".to_string(), p: "p[{}] = {}".to_string() };
    let access = SlotPatterns { y: "y[{}]".to_string(), p: "p[{}]".to_string() };
    let slot = |name: &str, index| record(vec![(name, record(vec![("index", whole(index))]))]);
    let set = |slot: &TemplateValue| render_solve_slot_assign_c_function(slot, &text("v"), &config);
    assert_eq!(set(&slot("Y", 2)).unwrap(), "y[2] = v;");
    assert_eq!(set(&slot("P", 5)).unwrap(), "p[5] = v;");
    assert_eq!(
        set(&slot("Time", 1)).unwrap_err().detail,
        "unsupported solve assignment target slot: {\"Time\": {\"index\": 1}}"
    );
    let none = TemplateValue::leaf(ValueKind::Null);
    assert_eq!(
        render_optional_solve_slot_assign_c_function(&none, &text("v"), &config).unwrap(),
        ""
    );
    assert_eq!(
        render_optional_solve_slot_assign_c_function(&slot("Y", 0), &whole(3), &config).unwrap(),
        "y[0] = 3;"
    );
    let binding = |source| record(vec![("dest_p_index", whole(8)), ("source", source)]);
    let bind = |b: TemplateValue| render_solve_pre_param_binding_c_function(&b, &access, &config);
    assert_eq!(bind(binding(slot("Y", 1))).unwrap(), "p[8] = y[1];");
    assert_eq!(bind(binding(slot("P", 4))).unwrap(), "p[8] = p[4];");
    assert_eq!(
        bind(binding(slot("T", 4))).unwrap_err().detail,
        "unsupported pre-parameter source slot: {\"T\": {\"index\": 4}}"
    );
}

#[test]
fn fields_have_their_kinds() {
    let value = record(vec![
        ("b", TemplateValue::leaf(ValueKind::Bool(true))),
        ("s", text("q")),
        ("n", TemplateValue::leaf(ValueKind::Null)),
        ("l", list(vec![whole(1), whole(-2)])),
    ]);
    assert!(required_bool_field(&value, "b").unwrap());
    assert_eq!(required_string_field(&value, "s").unwrap(), "q");
    assert_eq!(required_string_field(&value, "b").unwrap_err().detail, "`b` must be a string");
    assert_eq!(required_bool_field(&value, "s").unwrap_err().detail, "`s` must be a boolean");
    assert_eq!(
        show_value(&value, false),
        "{\"b\": true, \"s\": \"q\", \"n\": none, \"l\": [1, -2]}"
    );
}
