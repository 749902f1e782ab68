use rumoca::dae::equation::{Algorithm, Equation, Reference, Statement, WhenClause};
use rumoca::dae::model::{
    check_schema_version, scalar_name_for_flat_index, Dae, DaeShapeContractError, DaeVariablePartition, Function,
    FunctionParam, FunctionShapeContractError, DAE_SCHEMA_VERSION,
};
use rumoca::dae::variable::{
    Variable, VariableCausality, VariableOrigin, VariableShapeContractError,
};
use rumoca::expr::tree::{Expression, Literal};
use rumoca::ir::name::{ComponentRefPart, ComponentReference};
use rumoca::span::Span;

fn test_span() -> Span {
    Span::from_offsets(11, 1, 2)
}

fn fixture_span() -> Span {
    Span::from_offsets(12, 10, 20)
}

fn named(name: &str) -> Variable {
    let mut variable = Variable::empty_with_span(test_span());
    variable.name = name.to_string();
    variable
}

fn one() -> Expression {
    Expression::literal(Literal::Integer(1), Span::dummy())
}

#[test]
fn dae_variable_size_preserves_zero_sized_arrays() {
    let mut variable = named("x");
    variable.dims = vec![0, 3];
    assert_eq!(variable.try_size().unwrap(), 0);
}

#[test]
fn dae_variable_shape_contract_rejects_negative_dims() {
    let mut variable = named("x");
    variable.dims = vec![2, -1];
    match variable.try_size() {
        Err(VariableShapeContractError::NegativeDimension {
            variable,
            dimension,
            span,
        }) => {
            assert_eq!(variable, "x");
            assert_eq!(dimension, -1);
            assert_eq!(span, test_span());
        }
        Ok(size) => panic!("negative dimension gave size {size}"),
    }
}

#[test]
fn dae_variable_shape_contract_error_displays_reason() {
    let error = VariableShapeContractError::NegativeDimension {
        variable: "x".to_string(),
        dimension: -1,
        span: Span::dummy(),
    };
    assert_eq!(
        error.message(),
        "DAE variable `x` has negative dimension -1"
    );
}

#[test]
fn dae_model_shape_contract_rejects_key_name_mismatch() {
    let mut dae = Dae::new();
    dae.variables.states.insert("key", named("stored"));
    match dae.validate_shape_contract() {
        Err(DaeShapeContractError::VariableKeyNameMismatch {
            partition,
            key,
            name,
            span,
        }) => {
            assert_eq!(partition, DaeVariablePartition::State);
            assert_eq!(key, "key");
            assert_eq!(name, "stored");
            assert_eq!(span, test_span());
        }
        other => panic!("unexpected {other:?}"),
    }
}

#[test]
fn dae_shape_contract_error_displays_key_mismatch() {
    let error = DaeShapeContractError::VariableKeyNameMismatch {
        partition: DaeVariablePartition::State,
        key: "key".to_string(),
        name: "stored".to_string(),
        span: Span::dummy(),
    };
    assert_eq!(
        error.message(),
        "DAE state variable key `key` does not match variable name `stored`"
    );
}

#[test]
fn dae_shape_contract_error_displays_nested_variable_reason() {
    let error = DaeShapeContractError::Variable(VariableShapeContractError::NegativeDimension {
        variable: "x".to_string(),
        dimension: -1,
        span: Span::dummy(),
    });
    assert_eq!(
        error.message(),
        "DAE variable shape contract failed: DAE variable `x` has negative dimension -1"
    );
    assert_eq!(
        error.source_message(),
        Some("DAE variable `x` has negative dimension -1".to_string())
    );
}

#[test]
fn dae_model_shape_contract_rejects_function_param_negative_dims() {
    let mut dae = Dae::new();
    let mut function = Function::new("Pkg.f", Span::dummy());
    function.outputs.push(FunctionParam {
        name: "y".to_string(),
        type_text: "Real".to_string(),
        dims: vec![-1],
        span: test_span(),
    });
    dae.symbols.functions.insert("Pkg.f", function);

    assert!(matches!(
        dae.validate_shape_contract(),
        Err(DaeShapeContractError::Function(
            FunctionShapeContractError::Param { .. }
        ))
    ));
}

#[test]
fn variable_new_does_not_synthesize_component_reference() {
    let variable = Variable::new("plant.motor[1].w".to_string(), fixture_span());

    assert_eq!(variable.name, "plant.motor[1].w");
    assert!(variable.component_ref.is_none());
    assert_eq!(variable.origin, VariableOrigin::Generated);
    assert_eq!(variable.source_span, fixture_span());
}

#[test]
fn test_runtime_partition_scalar_counts() {
    let mut dae = Dae::default();
    dae.variables.parameters.insert("p", named("p"));
    dae.variables.constants.insert("c", named("c"));
    let mut x = named("x");
    x.dims = vec![2];
    dae.variables.states.insert("x", x);
    dae.variables.algebraics.insert("y", named("y"));
    dae.variables.outputs.insert("w", named("w"));
    let mut z = named("z");
    z.dims = vec![3];
    dae.variables.discrete_reals.insert("z", z);
    dae.variables.discrete_valued.insert("m", named("m"));

    let counts = dae.runtime_partition_scalar_counts();
    assert_eq!(counts.p, 2);
    assert_eq!(counts.t, 1);
    assert_eq!(counts.x, 2);
    assert_eq!(counts.y, 2);
    assert_eq!(counts.z, 3);
    assert_eq!(counts.m, 1);
    assert_eq!(dae.num_variables(), 7);
    assert_eq!(dae.num_equations(), 0);
}

fn assignment_stmt(name: &str) -> Statement {
    Statement::Assignment {
        comp: ComponentReference {
            local: false,
            parts: vec![ComponentRefPart {
                ident: name.to_string(),
                subs: Vec::new(),
                span: Span::dummy(),
            }],
            def_id: None,
            span: Span::dummy(),
        },
        value: one(),
        span: Span::dummy(),
    }
}

#[test]
fn test_dae_algorithm_from_flat_fills_outputs_from_statements() {
    let dae_alg = Algorithm::new(
        vec![assignment_stmt("y")],
        Span::dummy(),
        "algorithm section",
    );
    assert_eq!(dae_alg.outputs.len(), 1);
    assert_eq!(dae_alg.outputs[0].name, "y");
    assert!(dae_alg.outputs[0].has_structure());
}

#[test]
fn algorithm_outputs_are_named_once() {
    let algorithm = Algorithm::new(
        vec![
            assignment_stmt("a"),
            Statement::Compound {
                controls: vec![one()],
                body: vec![assignment_stmt("b"), assignment_stmt("a")],
                span: Span::dummy(),
            },
            assignment_stmt("b"),
        ],
        Span::dummy(),
        "algorithm",
    );
    assert_eq!(algorithm.num_outputs(), 2);
    assert_eq!(algorithm.outputs[0].name, "a");
    assert_eq!(algorithm.outputs[1].name, "b");
}

#[test]
fn test_explicit_with_scalar_count_clamps_zero_to_one() {
    let eq = Equation::explicit_with_scalar_count(
        Reference::from_name("x"),
        one(),
        Span::dummy(),
        "test",
        0,
    );
    assert_eq!(eq.scalar_count, 1);
}

#[test]
fn test_explicit_with_scalar_count_preserves_nonzero_count() {
    let eq = Equation::explicit_with_scalar_count(
        Reference::from_name("x"),
        one(),
        Span::dummy(),
        "test",
        3,
    );
    assert_eq!(eq.scalar_count, 3);
}

#[test]
fn explicit_targets_gain_the_structure_their_name_spells_out() {
    let eq = Equation::explicit(
        Reference::from_name("a.b[2,3].c"),
        one(),
        fixture_span(),
        "test",
    );
    let reference = eq.lhs.unwrap().component_ref.unwrap();
    let idents: Vec<&str> = reference.parts.iter().map(|p| p.ident.as_str()).collect();
    assert_eq!(idents, vec!["a", "b", "c"]);
    assert_eq!(reference.parts[1].subs, vec![2, 3]);

    let open = Equation::explicit(Reference::from_name("a[i]"), one(), fixture_span(), "test");
    assert!(!open.lhs.unwrap().has_structure());
}

#[test]
fn residual_forms_define_nothing() {
    let eq = Equation::residual(one(), fixture_span(), "r");
    assert!(eq.lhs.is_none());
    assert_eq!(eq.scalar_count, 1);
    let array = Equation::residual_array(one(), fixture_span(), "r", 4);
    assert_eq!(array.scalar_count, 4);
    let clause = WhenClause::new(one(), fixture_span(), "when");
    assert!(clause.equations.is_empty());
}

#[test]
fn sizes_are_capped_at_the_largest_count() {
    let mut variable = named("x");
    variable.dims = vec![i64::MAX, i64::MAX];
    assert_eq!(variable.size(), usize::MAX);
    variable.dims = vec![i64::MAX, i64::MAX, 0];
    assert_eq!(variable.size(), 0);
    variable.dims = vec![];
    assert!(variable.is_scalar());
    assert_eq!(variable.size(), 1);
}

#[test]
fn other_schema_versions_are_refused() {
    assert!(check_schema_version(DAE_SCHEMA_VERSION).is_ok());
    assert_eq!(
        check_schema_version(DAE_SCHEMA_VERSION + 1),
        Err("unsupported DAE schema_version 6; expected 5".to_string())
    );
}

#[test]
fn errors_know_their_position_and_partition() {
    let mut dae = Dae::new();
    dae.variables.discrete_reals.insert("k", named("other"));
    let error = dae.validate_shape_contract().unwrap_err();
    assert_eq!(error.span(), test_span());
    assert_eq!(
        error.message(),
        "DAE discrete Real variable key `k` does not match variable name `other`"
    );
    assert_eq!(error.source_message(), None);

    let mut functions = Dae::new();
    functions
        .symbols
        .functions
        .insert("f", Function::new("g", test_span()));
    assert_eq!(
        functions.validate_shape_contract().unwrap_err().message(),
        "DAE function key `f` does not match function name `g`"
    );
    assert_eq!(VariableCausality::default(), VariableCausality::Local);
}

#[test]
fn attribute_positions_are_kept_apart() {
    let mut variable = named("x");
    assert_eq!(variable.min_attribute_span(), None);
    variable.min_span = Some(Span::from_offsets(1, 2, 3));
    variable.max_span = Some(Span::from_offsets(1, 4, 5));
    variable.nominal_span = Some(Span::from_offsets(1, 6, 7));
    assert_eq!(variable.start_attribute_span(), None);
    assert_eq!(variable.min_attribute_span(), Some(Span::from_offsets(1, 2, 3)));
    assert_eq!(variable.max_attribute_span(), Some(Span::from_offsets(1, 4, 5)));
    assert_eq!(variable.nominal_attribute_span(), Some(Span::from_offsets(1, 6, 7)));
}

#[test]
fn scalars_of_arrays_have_subscripted_names() {
    assert_eq!(scalar_name_for_flat_index("M", &[2, 3], 5), "M[2,3]");
    assert_eq!(scalar_name_for_flat_index("v", &[4], 0), "v[1]");
}
