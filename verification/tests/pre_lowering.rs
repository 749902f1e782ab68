use rumoca::dae::equation::{DaeEventAction, DaeEventActionKind, Equation, Reference};
use rumoca::dae::error::ToDaeError;
use rumoca::dae::model::Dae;
use rumoca::dae::pre_lowering::lower_pre_operator;
use rumoca::dae::pre_rewrite::is_pre_free;
use rumoca::dae::variable::{Variable, VariableOrigin};
use rumoca::expr::tree::{
    same_expression, BuiltinFunction, Expression, Literal, Node, OpBinary, OpUnary,
};
use rumoca::solve::error::Real;
use rumoca::span::Span;

fn test_span(start: usize, end: usize) -> Span {
    Span::from_offsets(7, start, end)
}

fn real_literal(value: f64) -> Literal {
    Literal::Real(Real {
        bits: value.to_bits(),
    })
}

fn var_ref(name: &str) -> Expression {
    Expression::var_ref(name, vec![], test_span(10, 10 + name.len()))
}

fn builtin(function: BuiltinFunction, args: Vec<Expression>) -> Expression {
    Expression::builtin_call(function, args, test_span(1, 2))
}

fn pre_call(name: &str) -> Expression {
    Expression::builtin_call(
        BuiltinFunction::Pre,
        vec![var_ref(name)],
        test_span(20, 25 + name.len()),
    )
}

fn previous_call(name: &str) -> Expression {
    Expression::function_call(
        "previous",
        vec![var_ref(name)],
        false,
        test_span(30, 40 + name.len()),
    )
}

fn field_access(base: Expression, field: &str, span: Span) -> Expression {
    Expression::new(
        Node::FieldAccess {
            field: field.to_string(),
        },
        vec![base],
        span,
    )
}

fn index(base: Expression, subscript: Expression, span: Span) -> Expression {
    Expression::new(Node::Index, vec![base, subscript], span)
}

fn indexed_field_access(base_name: &str, at: i64, field: &str) -> Expression {
    field_access(
        index(
            var_ref(base_name),
            Expression::subscript_index(at, test_span(45, 48)),
            test_span(40, 50 + base_name.len()),
        ),
        field,
        test_span(40, 55 + base_name.len() + field.len()),
    )
}

fn integer_literal(value: i64) -> Expression {
    Expression::literal(Literal::Integer(value), test_span(60, 63))
}

fn sample_with_clock_call(name: &str) -> Expression {
    Expression::builtin_call(
        BuiltinFunction::Sample,
        vec![
            var_ref(name),
            Expression::function_call("Clock", vec![], false, test_span(80, 87)),
        ],
        test_span(70, 88 + name.len()),
    )
}

fn inferred_clock_sample_call(name: &str) -> Expression {
    Expression::builtin_call(
        BuiltinFunction::Sample,
        vec![var_ref(name)],
        test_span(90, 99 + name.len()),
    )
}

fn discrete_valued_var(name: &str) -> Variable {
    let mut variable = Variable::empty_with_span(test_span(1, 2));
    variable.name = name.to_string();
    variable.origin = VariableOrigin::Source;
    variable
}

fn explicit(lhs: &str, rhs: Expression, origin: &str) -> Equation {
    Equation::explicit(Reference::from_name(lhs), rhs, test_span(1, 2), origin)
}

fn residual(rhs: Expression) -> Equation {
    Equation::residual(rhs, test_span(1, 2), "test")
}

fn is_plain_ref(e: &Expression, wanted: &str) -> bool {
    matches!(&e.node, Node::VarRef { name } if name == wanted) && e.args.is_empty()
}

fn ref_name(e: &Expression) -> &str {
    match &e.node {
        Node::VarRef { name } => name.as_str(),
        other => panic!("Expected VarRef, got {:?}", other),
    }
}

/// `c and not __pre__.c`
fn is_rise_of(e: &Expression, current: &str, previous: &str) -> bool {
    matches!(e.node, Node::Binary(OpBinary::And))
        && is_plain_ref(&e.args[0], current)
        && matches!(e.args[1].node, Node::Unary(OpUnary::Not))
        && is_plain_ref(&e.args[1].args[0], previous)
}

#[test]
fn test_lower_pre_rewrites_inferred_clock_sample_to_left_limit() -> Result<(), ToDaeError> {
    let mut dae = Dae::new();
    dae.variables
        .discrete_valued
        .insert("sampled.u", discrete_valued_var("sampled.u"));
    dae.discrete.valued_updates.push(explicit(
        "sampled.y",
        inferred_clock_sample_call("sampled.u"),
        "inferred clock sample update",
    ));

    lower_pre_operator(&mut dae)?;

    assert!(
        dae.variables.parameters.contains_key("__pre__.sampled.u"),
        "sample(u) must sample the tick left limit of u"
    );
    assert!(
        is_plain_ref(
            &dae.discrete.valued_updates[0].rhs,
            "__pre__.sampled.u"
        ),
        "sample(u) must lower to the sampled value's pre slot"
    );
    Ok(())
}

#[test]
fn test_lower_pre_is_idempotent_for_generated_pre_parameters() -> Result<(), ToDaeError> {
    let mut dae = Dae::new();
    dae.variables
        .discrete_reals
        .insert("x", discrete_valued_var("x"));
    dae.discrete
        .real_updates
        .push(explicit("y", pre_call("x"), "pre value update"));

    lower_pre_operator(&mut dae)?;
    lower_pre_operator(&mut dae)?;

    assert!(
        dae.variables.parameters.contains_key("__pre__.x"),
        "first pre-lowering pass should allocate __pre__.x"
    );
    assert!(
        !dae.variables.parameters.contains_key("__pre__.__pre__.x"),
        "second pre-lowering pass must not allocate nested pre parameters"
    );
    assert!(
        is_plain_ref(&dae.discrete.real_updates[0].rhs, "__pre__.x"),
        "second pre-lowering pass must preserve the existing pre parameter reference"
    );
    Ok(())
}

#[test]
fn test_lower_pre_allocates_sampled_value_parameter_without_rewriting_call(
) -> Result<(), ToDaeError> {
    let mut dae = Dae::new();
    dae.variables
        .discrete_valued
        .insert("sampled.u", discrete_valued_var("sampled.u"));
    dae.discrete.valued_updates.push(explicit(
        "sampled.y",
        sample_with_clock_call("sampled.u"),
        "clocked sample update",
    ));

    lower_pre_operator(&mut dae)?;

    assert!(
        dae.variables.parameters.contains_key("__pre__.sampled.u"),
        "sample(u, clock) must sample the tick left limit of u"
    );
    assert!(
        matches!(
            &dae.discrete.valued_updates[0].rhs.node,
            Node::FunctionCall { name, .. } if name == "__rumoca_sample"
        ),
        "sample(u, clock) must lower to the internal DAE sample-tick form"
    );
    Ok(())
}

#[test]
fn test_lower_pre_does_not_allocate_sampled_time_parameter() -> Result<(), ToDaeError> {
    let mut dae = Dae::new();
    dae.discrete.real_updates.push(explicit(
        "source.simTime",
        builtin(
            BuiltinFunction::Sample,
            vec![Expression::var_ref("time", vec![], test_span(1, 2))],
        ),
        "clocked time sample",
    ));

    lower_pre_operator(&mut dae)?;

    assert!(
        !dae.variables.parameters.contains_key("__pre__.time"),
        "time is a runtime scalar, not a pre-snapshot variable"
    );
    Ok(())
}

#[test]
fn test_lower_pre_does_not_rewrite_memoryless_time_edge_to_raw_relation() -> Result<(), ToDaeError>
{
    let mut dae = Dae::new();
    let time_guard = Expression::binary(
        OpBinary::Ge,
        var_ref("time"),
        Expression::literal(real_literal(0.5), test_span(1, 2)),
        test_span(1, 2),
    );
    dae.discrete.real_updates.push(explicit(
        "v",
        builtin(BuiltinFunction::Edge, vec![time_guard]),
        "time-event guard",
    ));

    lower_pre_operator(&mut dae)?;

    assert!(
        matches!(
            dae.discrete.real_updates[0].rhs.node,
            Node::Binary(OpBinary::And)
        ),
        "memoryless time-threshold edge guards must not lower to a level-sensitive raw relation"
    );
    Ok(())
}

#[test]
fn test_lower_pre_preserves_pre_time_threshold_condition_memory() -> Result<(), ToDaeError> {
    let mut dae = Dae::new();
    dae.variables
        .discrete_reals
        .insert("deadline", discrete_valued_var("deadline"));
    dae.variables
        .discrete_valued
        .insert("c", discrete_valued_var("c"));
    let time_guard = Expression::binary(
        OpBinary::Ge,
        var_ref("time"),
        pre_call("deadline"),
        test_span(1, 2),
    );
    dae.conditions.relations.push(time_guard.clone());
    dae.conditions
        .equations
        .push(explicit("c", time_guard.clone(), "condition variable"));
    dae.discrete.real_updates.push(explicit(
        "v",
        builtin(BuiltinFunction::Edge, vec![time_guard]),
        "pre time-event guard",
    ));

    lower_pre_operator(&mut dae)?;

    assert!(
        is_rise_of(&dae.discrete.real_updates[0].rhs, "c", "__pre__.c"),
        "pre-based time-threshold edge guards keep condition-memory edge detection"
    );
    Ok(())
}

#[test]
fn test_lower_pre_rewrites_relation_edge_to_condition_memory() -> Result<(), ToDaeError> {
    let mut dae = Dae::new();
    dae.variables.states.insert("x", discrete_valued_var("x"));
    dae.variables
        .discrete_valued
        .insert("c", discrete_valued_var("c"));
    let relation = Expression::binary(
        OpBinary::Lt,
        var_ref("x"),
        Expression::literal(real_literal(0.0), test_span(1, 2)),
        test_span(1, 2),
    );
    dae.conditions.relations.push(relation.clone());
    dae.conditions.equations.push(Equation {
        lhs: Some(Reference::from_name("c")),
        rhs: relation.clone(),
        span: test_span(1, 2),
        origin: "condition variable".to_string(),
        scalar_count: 1,
    });
    dae.events.event_actions.push(DaeEventAction {
        condition: builtin(BuiltinFunction::Edge, vec![relation]),
        kind: DaeEventActionKind::Terminate {
            message: Expression::literal(
                Literal::String("edge fired".to_string()),
                test_span(1, 2),
            ),
        },
        span: test_span(1, 2),
        origin: "when x < 0".to_string(),
    });

    lower_pre_operator(&mut dae)?;

    assert!(
        is_rise_of(&dae.events.event_actions[0].condition, "c", "__pre__.c"),
        "edge(relation) should lower directly to c && !pre(c)"
    );

    lower_pre_operator(&mut dae)?;

    assert!(
        is_rise_of(&dae.events.event_actions[0].condition, "c", "__pre__.c"),
        "condition-memory edge should lower to c && !pre(c)"
    );
    Ok(())
}

#[test]
fn test_lower_pre_creates_parameter() -> Result<(), ToDaeError> {
    let mut dae = Dae::new();
    let mut variable = discrete_valued_var("pulse_count");
    variable.start = Some(Expression::literal(real_literal(0.0), test_span(1, 2)));
    dae.variables.discrete_reals.insert("pulse_count", variable);
    dae.continuous
        .equations
        .push(residual(pre_call("pulse_count")));

    lower_pre_operator(&mut dae)?;

    assert!(dae.variables.parameters.contains_key("__pre__.pulse_count"));
    let pre_param = dae.variables.parameters.get("__pre__.pulse_count").unwrap();
    assert!(same_expression(
        pre_param.start.as_ref().unwrap(),
        &Expression::literal(real_literal(0.0), test_span(1, 2)),
    ));
    assert_eq!(
        ref_name(&dae.continuous.equations[0].rhs),
        "__pre__.pulse_count"
    );
    Ok(())
}

#[test]
fn test_lower_pre_allocates_previous_parameter_without_rewriting_call() -> Result<(), ToDaeError> {
    let mut dae = Dae::new();
    dae.variables
        .discrete_valued
        .insert("unitDelay.u", discrete_valued_var("unitDelay.u"));
    dae.discrete.valued_updates.push(explicit(
        "unitDelay.y",
        previous_call("unitDelay.u"),
        "clocked previous update",
    ));

    lower_pre_operator(&mut dae)?;

    assert!(
        dae.variables.parameters.contains_key("__pre__.unitDelay.u"),
        "previous(v) must allocate a pre parameter so solve lowering can read the tick left limit"
    );
    let rhs = &dae.discrete.valued_updates[0].rhs;
    assert_eq!(ref_name(rhs), "__pre__.unitDelay.u");
    assert!(rhs.args.is_empty());
    Ok(())
}

#[test]
fn test_lower_pre_no_pre_calls_is_noop() -> Result<(), ToDaeError> {
    let mut dae = Dae::new();
    dae.continuous.equations.push(residual(var_ref("x")));

    lower_pre_operator(&mut dae)?;

    assert_eq!(dae.variables.parameters.len(), 0);
    Ok(())
}

#[test]
fn test_lower_pre_rejects_missing_source_provenance() {
    let mut dae = Dae::new();
    dae.variables
        .discrete_reals
        .insert("x", discrete_valued_var("x"));
    dae.continuous.equations.push(Equation::residual(
        Expression::builtin_call(
            BuiltinFunction::Pre,
            vec![Expression::var_ref("x", vec![], Span::dummy())],
            Span::dummy(),
        ),
        Span::dummy(),
        "unspanned pre",
    ));

    let err = lower_pre_operator(&mut dae)
        .expect_err("source-free pre targets should fail before rewriting");

    assert!(matches!(err, ToDaeError::RuntimeMetadataViolation { .. }));
    assert!(err.message().contains("source provenance"));
}

#[test]
fn test_lower_pre_does_not_allocate_time_for_change() -> Result<(), ToDaeError> {
    let mut dae = Dae::new();
    dae.conditions
        .relations
        .push(builtin(BuiltinFunction::Change, vec![var_ref("time")]));

    lower_pre_operator(&mut dae)?;

    assert!(
        !dae.variables.parameters.contains_key("__pre__.time"),
        "time is a runtime scalar, not a pre-snapshot variable"
    );
    Ok(())
}

#[test]
fn test_lower_pre_normalizes_encoded_integer_subscript_target() -> Result<(), ToDaeError> {
    let mut dae = Dae::new();
    let mut variable = discrete_valued_var("buf");
    variable.dims = vec![2];
    dae.variables.discrete_reals.insert("buf", variable);
    dae.continuous.equations.push(residual(pre_call("buf[1]")));

    lower_pre_operator(&mut dae)?;

    assert!(
        dae.variables.parameters.contains_key("__pre__.buf"),
        "encoded buf[1] target should use base array metadata"
    );
    let rhs = &dae.continuous.equations[0].rhs;
    assert_eq!(ref_name(rhs), "__pre__.buf");
    assert_eq!(rhs.args.len(), 1);
    assert!(same_expression(
        &rhs.args[0],
        &Expression::subscript_index(1, test_span(10, 16))
    ));
    Ok(())
}

#[test]
fn test_lower_pre_rejects_missing_target_variable() -> Result<(), ToDaeError> {
    let mut dae = Dae::new();
    dae.continuous.equations.push(residual(pre_call("missing")));

    let err = lower_pre_operator(&mut dae).expect_err("missing pre target must fail");

    assert!(
        err.message().contains("pre() target `missing`"),
        "expected missing pre target diagnostic, got {err:?}"
    );
    Ok(())
}

#[test]
fn test_lower_pre_ignores_enum_literals_in_edge_relations() -> Result<(), ToDaeError> {
    let mut dae = Dae::new();
    dae.variables
        .discrete_valued
        .insert("logic", discrete_valued_var("logic"));
    dae.symbols
        .enum_literal_ordinals
        .insert("Modelica.Electrical.Digital.Interfaces.Logic.'1'", 4);

    let relation = Expression::binary(
        OpBinary::Eq,
        var_ref("logic"),
        var_ref("Modelica.Electrical.Digital.Interfaces.Logic.'1'"),
        test_span(1, 2),
    );
    dae.continuous
        .equations
        .push(residual(builtin(BuiltinFunction::Edge, vec![relation])));

    lower_pre_operator(&mut dae)?;

    assert!(
        dae.variables.parameters.contains_key("__pre__.logic"),
        "discrete variable should still get a pre parameter"
    );
    assert!(
        !dae.variables
            .parameters
            .contains_key("__pre__.Modelica.Electrical.Digital.Interfaces.Logic.'1'"),
        "enum literal must not get a pre parameter"
    );
    let rhs = format!("{:?}", dae.continuous.equations[0].rhs);
    assert!(
        !rhs.contains("BuiltinCall(Pre)"),
        "pre operator should be fully lowered: {rhs}"
    );
    assert!(
        rhs.contains("__pre__.logic"),
        "missing pre logic ref: {rhs}"
    );
    assert!(
        rhs.contains("Modelica.Electrical.Digital.Interfaces.Logic.'1'"),
        "enum literal should remain as a symbol: {rhs}"
    );
    Ok(())
}

#[test]
fn test_lower_pre_rejects_continuous_state_target() {
    let mut dae = Dae::new();
    dae.variables.states.insert("x", discrete_valued_var("x"));
    dae.continuous.equations.push(residual(pre_call("x")));

    let err = lower_pre_operator(&mut dae).expect_err("pre(state) must fail");

    assert!(
        err.message().contains("not a discrete-time variable"),
        "expected pre(state) diagnostic, got {err:?}"
    );
}

#[test]
fn test_lower_pre_keeps_existing_pre_parameter_metadata() -> Result<(), ToDaeError> {
    let mut dae = Dae::new();
    let mut x = discrete_valued_var("x");
    x.start = Some(Expression::literal(real_literal(1.0), test_span(1, 2)));
    dae.variables.discrete_reals.insert("x", x);
    let mut pre = discrete_valued_var("__pre__.x");
    pre.start = Some(Expression::literal(real_literal(5.0), test_span(1, 2)));
    pre.fixed = Some(true);
    pre.description = Some("first pass metadata".to_string());
    dae.variables.parameters.insert("__pre__.x", pre);
    dae.continuous.equations.push(residual(pre_call("x")));

    lower_pre_operator(&mut dae)?;

    let pre_param = dae.variables.parameters.get("__pre__.x").unwrap();
    assert!(same_expression(
        pre_param.start.as_ref().unwrap(),
        &Expression::literal(real_literal(5.0), test_span(1, 2)),
    ));
    assert_eq!(
        pre_param.description.as_deref(),
        Some("first pass metadata")
    );
    Ok(())
}

#[test]
fn test_lower_pre_preserves_unhandled_pre_shape() -> Result<(), ToDaeError> {
    let mut dae = Dae::new();
    dae.continuous.equations.push(residual(builtin(
        BuiltinFunction::Pre,
        vec![Expression::literal(Literal::Integer(1), test_span(1, 2))],
    )));

    lower_pre_operator(&mut dae)?;

    assert!(matches!(
        &dae.continuous.equations[0].rhs.node,
        Node::Literal(Literal::Integer(1))
    ));
    Ok(())
}

#[test]
fn left_limits_without_a_parameter_are_refused() {
    let no_operand = builtin(BuiltinFunction::Pre, vec![]);
    let two_numbers = builtin(BuiltinFunction::Pre, vec![integer_literal(1), integer_literal(2)]);
    for call in [no_operand, two_numbers] {
        let mut dae = Dae::new();
        dae.discrete.real_updates.push(residual(call));
        match lower_pre_operator(&mut dae) {
            Err(ToDaeError::RuntimeContractViolation { message, span }) => {
                assert_eq!(message, "pre() call cannot be lowered to a parameter reference");
                assert_eq!(span, test_span(1, 2));
            }
            _ => panic!("the left limit has no parameter"),
        }
    }
}

#[test]
fn left_limits_inside_other_left_limits_are_lowered() {
    let mut dae = Dae::new();
    for name in ["x", "k"] {
        dae.variables.discrete_valued.insert(name, discrete_valued_var(name));
    }
    let of_pre = builtin(BuiltinFunction::Change, vec![pre_call("x")]);
    dae.continuous.equations.push(residual(of_pre));
    let subscripted =
        Expression::var_ref("x", vec![pre_call("k")], test_span(10, 11));
    dae.discrete
        .valued_updates
        .push(residual(Expression::function_call(
            "previous",
            vec![subscripted],
            false,
            test_span(1, 2),
        )));
    lower_pre_operator(&mut dae).unwrap();
    let rhs = &dae.continuous.equations[0].rhs;
    assert!(is_pre_free(rhs));
    for side in &rhs.args {
        assert!(matches!(&side.node, Node::VarRef { name } if name == "__pre__.x"));
    }
    let rhs = &dae.discrete.valued_updates[0].rhs;
    assert!(is_pre_free(rhs));
    assert!(matches!(&rhs.node, Node::VarRef { name } if name == "__pre__.x"));
    assert!(matches!(&rhs.args[0].node, Node::VarRef { name } if name == "__pre__.k"));
    assert!(dae.variables.parameters.contains_key("__pre__.x"));
    assert!(dae.variables.parameters.contains_key("__pre__.k"));
}

#[test]
fn test_lower_pre_rewrites_expression_variables_to_pre_parameters() -> Result<(), ToDaeError> {
    let mut dae = Dae::new();
    for name in ["left", "right"] {
        dae.variables
            .discrete_valued
            .insert(name, discrete_valued_var(name));
    }
    dae.discrete.valued_updates.push(residual(builtin(
        BuiltinFunction::Pre,
        vec![Expression::binary(
            OpBinary::Or,
            var_ref("left"),
            Expression::unary(OpUnary::Not, var_ref("right"), test_span(1, 2)),
            test_span(1, 2),
        )],
    )));

    lower_pre_operator(&mut dae)?;

    assert!(dae.variables.parameters.contains_key("__pre__.left"));
    assert!(dae.variables.parameters.contains_key("__pre__.right"));
    let rhs = format!("{:?}", dae.discrete.valued_updates[0].rhs);
    assert!(
        rhs.contains("VarRef { name: \"__pre__.left\" }")
            && rhs.contains("VarRef { name: \"__pre__.right\" }")
            && !rhs.contains("BuiltinCall(Pre)"),
        "pre(expression) should lower structurally, got {rhs}"
    );
    Ok(())
}

#[test]
fn test_lower_pre_registers_change_operand_left_limit() -> Result<(), ToDaeError> {
    let mut dae = Dae::new();
    dae.variables
        .discrete_valued
        .insert("clock", discrete_valued_var("clock"));
    dae.variables
        .discrete_valued
        .insert("flag", discrete_valued_var("flag"));
    dae.discrete.valued_updates.push(explicit(
        "flag",
        builtin(BuiltinFunction::Change, vec![var_ref("clock")]),
        "flag = change(clock)",
    ));

    lower_pre_operator(&mut dae)?;

    assert!(dae.variables.parameters.contains_key("__pre__.clock"));
    let rhs = &dae.discrete.valued_updates[0].rhs;
    assert!(
        matches!(rhs.node, Node::Binary(OpBinary::Neq))
            && ref_name(&rhs.args[0]) == "clock"
            && ref_name(&rhs.args[1]) == "__pre__.clock",
        "change(clock) must lower to clock <> __pre__.clock"
    );
    Ok(())
}

#[test]
fn test_lower_pre_rewrites_triggered_clock_conditions() -> Result<(), ToDaeError> {
    let mut dae = Dae::new();
    dae.variables
        .discrete_valued
        .insert("clock_gate", discrete_valued_var("clock_gate"));
    dae.clocks.triggered_conditions.push(pre_call("clock_gate"));

    lower_pre_operator(&mut dae)?;

    assert!(
        dae.variables.parameters.contains_key("__pre__.clock_gate"),
        "triggered clock conditions must allocate pre parameters"
    );
    assert!(
        is_plain_ref(&dae.clocks.triggered_conditions[0], "__pre__.clock_gate"),
        "pre() should not survive in triggered clock conditions"
    );
    Ok(())
}

#[test]
fn test_lower_pre_preserves_index_subscripts() -> Result<(), ToDaeError> {
    let mut dae = Dae::new();
    let mut sampled = discrete_valued_var("sampled");
    sampled.dims = vec![3];
    dae.variables.discrete_reals.insert("sampled", sampled);
    dae.discrete
        .real_updates
        .push(residual(Expression::builtin_call(
            BuiltinFunction::Pre,
            vec![index(
                var_ref("sampled"),
                Expression::subscript_index(2, test_span(120, 123)),
                test_span(110, 124),
            )],
            test_span(100, 125),
        )));

    lower_pre_operator(&mut dae)?;

    let pre_param = dae.variables.parameters.get("__pre__.sampled").unwrap();
    assert_eq!(pre_param.dims, vec![3]);
    let rhs = &dae.discrete.real_updates[0].rhs;
    assert_eq!(ref_name(rhs), "__pre__.sampled");
    assert_eq!(rhs.args.len(), 1);
    assert!(same_expression(
        &rhs.args[0],
        &Expression::subscript_index(2, test_span(120, 123))
    ));
    Ok(())
}

#[test]
fn test_lower_pre_rewrites_var_ref_subscript_expressions() -> Result<(), ToDaeError> {
    let mut dae = Dae::new();
    dae.variables
        .discrete_valued
        .insert("selector", discrete_valued_var("selector"));
    dae.variables
        .discrete_valued
        .insert("target", discrete_valued_var("target"));
    dae.discrete.valued_updates.push(explicit(
        "target",
        Expression::var_ref(
            "table",
            vec![Expression::subscript_expr(
                pre_call("selector"),
                test_span(1, 2),
            )],
            test_span(1, 2),
        ),
        "target = table[pre(selector)]",
    ));

    lower_pre_operator(&mut dae)?;

    assert!(dae.variables.parameters.contains_key("__pre__.selector"));
    let rhs = &dae.discrete.valued_updates[0].rhs;
    assert_eq!(ref_name(rhs), "table");
    assert_eq!(rhs.args.len(), 1);
    assert!(matches!(rhs.args[0].node, Node::SubscriptExpr));
    assert_eq!(ref_name(&rhs.args[0].args[0]), "__pre__.selector");
    assert!(
        !format!("{rhs:?}").contains("BuiltinCall(Pre)"),
        "pre() should not survive in VarRef subscripts: {rhs:?}"
    );
    Ok(())
}

#[test]
fn test_lower_pre_rewrites_index_subscript_expressions() -> Result<(), ToDaeError> {
    let mut dae = Dae::new();
    dae.variables
        .discrete_valued
        .insert("selector", discrete_valued_var("selector"));
    dae.variables
        .discrete_valued
        .insert("target", discrete_valued_var("target"));
    dae.discrete.valued_updates.push(explicit(
        "target",
        index(
            var_ref("table"),
            Expression::subscript_expr(pre_call("selector"), test_span(1, 2)),
            test_span(1, 2),
        ),
        "target = table[pre(selector)]",
    ));

    lower_pre_operator(&mut dae)?;

    assert!(dae.variables.parameters.contains_key("__pre__.selector"));
    let rhs = &dae.discrete.valued_updates[0].rhs;
    assert!(matches!(rhs.node, Node::Index));
    assert_eq!(rhs.args.len(), 2);
    assert!(matches!(rhs.args[1].node, Node::SubscriptExpr));
    assert_eq!(ref_name(&rhs.args[1].args[0]), "__pre__.selector");
    Ok(())
}

#[test]
fn test_lower_pre_rewrites_record_field_target() -> Result<(), ToDaeError> {
    let mut dae = Dae::new();
    dae.variables
        .discrete_reals
        .insert("recorded.value", discrete_valued_var("recorded.value"));
    dae.discrete
        .valued_updates
        .push(residual(Expression::builtin_call(
            BuiltinFunction::Pre,
            vec![field_access(
                var_ref("recorded"),
                "value",
                test_span(130, 144),
            )],
            test_span(126, 145),
        )));

    lower_pre_operator(&mut dae)?;

    assert!(dae
        .variables
        .parameters
        .contains_key("__pre__.recorded.value"));
    let rhs = &dae.discrete.valued_updates[0].rhs;
    assert_eq!(ref_name(rhs), "__pre__.recorded.value");
    assert!(rhs.args.is_empty());
    Ok(())
}

#[test]
fn test_lower_pre_rewrites_indexed_record_field_target() -> Result<(), ToDaeError> {
    let mut dae = Dae::new();
    dae.variables.discrete_valued.insert(
        "step.outPort[1].reset",
        discrete_valued_var("step.outPort[1].reset"),
    );
    dae.discrete.valued_updates.push(residual(builtin(
        BuiltinFunction::Pre,
        vec![indexed_field_access("step.outPort", 1, "reset")],
    )));

    lower_pre_operator(&mut dae)?;

    assert!(dae
        .variables
        .parameters
        .contains_key("__pre__.step.outPort[1].reset"));
    let rhs = &dae.discrete.valued_updates[0].rhs;
    assert_eq!(ref_name(rhs), "__pre__.step.outPort[1].reset");
    assert!(rhs.args.is_empty());
    Ok(())
}

#[test]
fn test_lower_pre_prunes_static_if_branch_when_collecting_pre_values() -> Result<(), ToDaeError> {
    let mut dae = Dae::new();
    dae.variables.discrete_valued.insert(
        "step.outPort[1].available",
        discrete_valued_var("step.outPort[1].available"),
    );
    dae.variables
        .discrete_valued
        .insert("step.localActive", discrete_valued_var("step.localActive"));
    let condition = Expression::binary(
        OpBinary::Eq,
        integer_literal(1),
        integer_literal(1),
        test_span(1, 2),
    );
    let guarded = Expression::new(
        Node::If,
        vec![
            condition,
            var_ref("step.localActive"),
            indexed_field_access("step.outPort", 0, "available"),
        ],
        test_span(1, 2),
    );
    dae.conditions
        .relations
        .push(builtin(BuiltinFunction::Change, vec![guarded]));

    lower_pre_operator(&mut dae)?;

    assert!(dae
        .variables
        .parameters
        .contains_key("__pre__.step.localActive"));
    assert!(!dae
        .variables
        .parameters
        .contains_key("__pre__.step.outPort[0].available"));
    Ok(())
}

#[test]
fn test_lower_pre_resolves_singleton_scalarized_field_selection() -> Result<(), ToDaeError> {
    let mut dae = Dae::new();
    dae.variables.discrete_valued.insert(
        "step.suspend[1].reset",
        discrete_valued_var("step.suspend[1].reset"),
    );
    dae.conditions.relations.push(builtin(
        BuiltinFunction::Change,
        vec![var_ref("step.suspend.reset")],
    ));

    lower_pre_operator(&mut dae)?;

    assert!(dae
        .variables
        .parameters
        .contains_key("__pre__.step.suspend[1].reset"));
    assert!(!dae
        .variables
        .parameters
        .contains_key("__pre__.step.suspend.reset"));
    Ok(())
}

#[test]
fn test_lower_pre_resolves_encoded_matrix_element_to_declared_array() -> Result<(), ToDaeError> {
    let mut dae = Dae::new();
    let mut memory = discrete_valued_var("dLATRAM.mem");
    memory.dims = vec![4, 2];
    dae.variables.discrete_valued.insert("dLATRAM.mem", memory);
    dae.discrete
        .valued_updates
        .push(Equation::residual(
            pre_call("dLATRAM.mem[1,1]"),
            test_span(1, 2),
            "matrix memory read",
        ));

    lower_pre_operator(&mut dae)?;

    assert!(dae.variables.parameters.contains_key("__pre__.dLATRAM.mem"));
    assert_eq!(
        dae.variables
            .parameters
            .get("__pre__.dLATRAM.mem")
            .unwrap()
            .dims,
        vec![4, 2]
    );
    assert!(!dae
        .variables
        .parameters
        .contains_key("__pre__.dLATRAM.mem[1,1]"));
    let rhs = &dae.discrete.valued_updates[0].rhs;
    assert_eq!(ref_name(rhs), "__pre__.dLATRAM.mem");
    assert_eq!(rhs.args.len(), 2);
    Ok(())
}

#[test]
fn ambiguous_scalarized_field_is_not_resolved() {
    let mut dae = Dae::new();
    for name in ["s.port[1].on", "s.port[2].on"] {
        dae.variables
            .discrete_valued
            .insert(name, discrete_valued_var(name));
    }
    dae.conditions
        .relations
        .push(builtin(BuiltinFunction::Change, vec![var_ref("s.port.on")]));
    let err = lower_pre_operator(&mut dae).expect_err("two candidates are one too many");
    assert_eq!(
        err.message(),
        "pre() target `s.port.on` was not declared in DAE variables"
    );
}

#[test]
fn encoded_subscripts_need_a_source_position() {
    let mut dae = Dae::new();
    dae.variables
        .discrete_reals
        .insert("buf", discrete_valued_var("buf"));
    dae.continuous.equations.push(residual(Expression::builtin_call(
        BuiltinFunction::Pre,
        vec![Expression::var_ref("buf[1]", vec![], Span::dummy())],
        test_span(1, 2),
    )));
    let err = lower_pre_operator(&mut dae).expect_err("no position for the subscript");
    assert_eq!(
        err.message(),
        "encoded pre() target subscript is missing source provenance"
    );
}

#[test]
fn failed_lowering_leaves_what_was_done() {
    let mut dae = Dae::new();
    dae.variables
        .discrete_reals
        .insert("x", discrete_valued_var("x"));
    dae.continuous.equations.push(residual(pre_call("x")));
    dae.conditions
        .relations
        .push(Expression::literal(Literal::Boolean(true), test_span(1, 2)));
    dae.conditions.equations.push(explicit(
        "gone",
        Expression::literal(Literal::Boolean(true), test_span(1, 2)),
        "condition",
    ));
    let err = lower_pre_operator(&mut dae).expect_err("the memory is not declared");
    assert_eq!(
        err.message(),
        "relation memory target `gone` has scalar_count=1 but no DAE variable metadata"
    );
    assert!(dae.variables.parameters.contains_key("__pre__.x"));
    assert!(matches!(
        dae.continuous.equations[0].rhs.node,
        Node::BuiltinCall(BuiltinFunction::Pre)
    ));
}

#[test]
fn array_memories_are_indexed_by_position() -> Result<(), ToDaeError> {
    let mut dae = Dae::new();
    let mut c = discrete_valued_var("c");
    c.dims = vec![2];
    dae.variables.discrete_valued.insert("c", c);
    dae.variables.states.insert("x", discrete_valued_var("x"));
    let first = Expression::binary(
        OpBinary::Gt,
        var_ref("x"),
        integer_literal(1),
        test_span(1, 2),
    );
    let second = Expression::binary(
        OpBinary::Lt,
        var_ref("x"),
        integer_literal(0),
        test_span(3, 4),
    );
    dae.conditions.relations.push(first);
    dae.conditions.relations.push(second.clone());
    dae.conditions
        .equations
        .push(Equation::explicit_with_scalar_count(
            Reference::from_name("c"),
            integer_literal(0),
            test_span(5, 6),
            "conditions",
            2,
        ));
    dae.discrete
        .real_updates
        .push(residual(builtin(BuiltinFunction::Pre, vec![second])));
    lower_pre_operator(&mut dae)?;
    let rhs = &dae.discrete.real_updates[0].rhs;
    assert_eq!(ref_name(rhs), "__pre__.c");
    assert!(matches!(rhs.args[0].node, Node::SubscriptIndex(2)));
    Ok(())
}
