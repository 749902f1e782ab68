use rumoca::dae::condition_finalize::finalize_canonical_condition_variables;
use rumoca::dae::conditions::populate_canonical_conditions;
use rumoca::dae::equation::Equation;
use rumoca::dae::error::ToDaeError;
use rumoca::dae::model::Dae;
use rumoca::dae::variable::Variable;
use rumoca::expr::tree::{
    same_expression, BuiltinFunction, Expression, Literal, Node, OpBinary, OpUnary,
};
use rumoca::solve::error::Real;
use rumoca::span::Span;

fn span(start: usize, end: usize) -> Span {
    Span::from_offsets(3, start, end)
}

fn time_gt_zero(span: Span) -> Expression {
    Expression::binary(
        OpBinary::Gt,
        Expression::var_ref("time", vec![], span),
        Expression::literal(
            Literal::Real(Real {
                bits: 0.0f64.to_bits(),
            }),
            span,
        ),
        span,
    )
}

fn less(name: &str, bound: i64, at: Span) -> Expression {
    Expression::binary(
        OpBinary::Lt,
        Expression::var_ref(name, vec![], at),
        Expression::literal(Literal::Integer(bound), at),
        at,
    )
}

fn variable(name: &str) -> Variable {
    Variable::new(name.to_string(), span(1, 2))
}

#[test]
fn canonical_condition_subscript_requires_source_provenance() {
    let mut dae_model = Dae::default();
    dae_model.continuous.equations.push(Equation::residual(
        time_gt_zero(Span::dummy()),
        Span::dummy(),
        "time > 0",
    ));

    let err = populate_canonical_conditions(&mut dae_model)
        .expect_err("source-derived condition subscripts require provenance");

    assert!(matches!(err, ToDaeError::RuntimeMetadataViolation { .. }));
    assert!(
        err.message().contains("canonical condition reference"),
        "unexpected error: {err:?}"
    );
}

#[test]
fn shared_relations_are_interned_and_numbered() {
    let mut dae = Dae::new();
    dae.variables.states.insert("x", variable("x"));
    dae.variables.parameters.insert("p", variable("p"));
    let sum = Expression::binary(
        OpBinary::Add,
        Expression::new(
            Node::If,
            vec![
                less("x", 1, span(10, 11)),
                Expression::literal(Literal::Integer(1), span(12, 13)),
                Expression::literal(Literal::Integer(2), span(14, 15)),
            ],
            span(9, 16),
        ),
        Expression::new(
            Node::If,
            vec![
                less("p", 1, span(20, 21)),
                Expression::literal(Literal::Integer(1), span(22, 23)),
                Expression::literal(Literal::Integer(2), span(24, 25)),
            ],
            span(19, 26),
        ),
        span(8, 27),
    );
    dae.continuous
        .equations
        .push(Equation::residual(sum, span(8, 27), "first"));
    dae.discrete.real_updates.push(Equation::residual(
        Expression::unary(OpUnary::Not, less("x", 1, span(30, 31)), span(29, 32)),
        span(29, 32),
        "second",
    ));
    dae.discrete.valued_updates.push(Equation::residual(
        Expression::builtin_call(
            BuiltinFunction::NoEvent,
            vec![less("x", 5, span(40, 41))],
            span(39, 42),
        ),
        span(39, 42),
        "third",
    ));

    populate_canonical_conditions(&mut dae).unwrap();

    assert_eq!(dae.conditions.relations.len(), 1);
    assert!(same_expression(
        &dae.conditions.relations[0],
        &less("x", 1, span(10, 11))
    ));
    assert_eq!(dae.conditions.equations.len(), 1);
    let eq = &dae.conditions.equations[0];
    assert_eq!(eq.lhs.as_ref().unwrap().name, "c[1]");
    assert_eq!(eq.origin, "condition equation from first");
    assert_eq!(eq.span, span(10, 11));

    finalize_canonical_condition_variables(&mut dae).unwrap();

    let c = dae.variables.discrete_valued.get("c").unwrap();
    assert_eq!(c.dims, vec![1]);
    assert!(dae.variables.parameters.contains_key("__pre__.c"));
    let rhs = &dae.continuous.equations[0].rhs;
    let condition = &rhs.args[0].args[0];
    assert!(matches!(&condition.node, Node::VarRef { name } if name == "c"));
    assert!(matches!(condition.args[0].node, Node::SubscriptIndex(1)));
    assert!(matches!(rhs.args[1].args[0].node, Node::Binary(OpBinary::Lt)));
}

#[test]
fn taken_names_make_way_for_generated_ones() {
    let mut dae = Dae::new();
    dae.variables.states.insert("x", variable("x"));
    dae.variables.algebraics.insert("c.y", variable("c.y"));
    dae.variables
        .constants
        .insert("__rumoca_c", variable("__rumoca_c"));
    dae.continuous
        .equations
        .push(Equation::residual(less("x", 1, span(3, 4)), span(3, 4), "eq"));
    populate_canonical_conditions(&mut dae).unwrap();
    assert_eq!(
        dae.conditions.equations[0].lhs.as_ref().unwrap().name,
        "__rumoca_c_1[1]"
    );
    dae.variables
        .inputs
        .insert("__rumoca_c_1", variable("__rumoca_c_1"));
    finalize_canonical_condition_variables(&mut dae).unwrap();
    assert_eq!(
        dae.conditions.equations[0].lhs.as_ref().unwrap().name,
        "__rumoca_c_2[1]"
    );
    assert!(dae
        .variables
        .discrete_valued
        .contains_key("__rumoca_c_2"));
}

#[test]
fn branches_that_cannot_be_reached_cause_no_events() {
    let mut dae = Dae::new();
    dae.variables.states.insert("x", variable("x"));
    let dead = Expression::new(
        Node::If,
        vec![
            Expression::literal(Literal::Boolean(true), span(1, 2)),
            less("x", 1, span(3, 4)),
            less("x", 2, span(5, 6)),
        ],
        span(1, 6),
    );
    dae.continuous
        .equations
        .push(Equation::residual(dead, span(1, 6), "eq"));
    populate_canonical_conditions(&mut dae).unwrap();
    assert_eq!(dae.conditions.relations.len(), 1);
    assert!(same_expression(
        &dae.conditions.relations[0],
        &less("x", 1, span(3, 4))
    ));
}

#[test]
fn finalizing_without_conditions_does_nothing() {
    let mut dae = Dae::new();
    finalize_canonical_condition_variables(&mut dae).unwrap();
    assert_eq!(dae.num_variables(), 0);
}
