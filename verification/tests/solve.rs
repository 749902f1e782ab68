use rumoca::solve::adjoint::{AdjointAction, AdjointRun, Trajectory};
use rumoca::solve::block::{start_single_row, BlockAction, BlockRun};
use rumoca::solve::error::{EvalSolveError, Real};
use rumoca::solve::event::{
    event_action_request, event_message, select_event_action, wants_conditions,
    EventActionRequest, SolveEventAction, SolveEventActionKind, SolveEventMessagePart,
};
use rumoca::solve::inputs::{
    input_requirements_for_op, row_input_requirements, scalar_program_block_input_requirements,
    validate_output_len, validate_row_inputs, validate_scalar_program_block_io,
    RowInputRequirements, ScalarProgramBlock,
};
use rumoca::solve::linear_op::{
    linear_op_name, BinaryOp, CompareOp, LinearOp, RandomGenerator, UnaryOp,
};
use rumoca::solve::registers::{
    checked_reg_range_last, checked_square_len, max_register, op_sources_initialized,
    required_registers, row_register_flow_is_valid,
};
use rumoca::solve::row::{
    resolve_indexed_slot, IndexedVector, OutputCursor, RowAction, RowInput, RowMachine,
    ValueRequest,
};
use rumoca::solve::runtime_state::{
    clear_runtime_state, external_table_error, integer_span, ordered_bounds,
    projected_random_value, SimulationContext, SimulationRuntimeState, StreamTable,
};
use rumoca::solve::trace::{
    record_solve_block_eval, reset_solve_row_eval_trace, top_blocks,
    trace_solve_row_eval_snapshot, RowEvalTrace,
};
use rumoca::solve::train_run::{TrainPhase, TrainRun};
use rumoca::solve::training::{
    gather_slots, scatter_slots, step_range, validate_adjoint_inputs, validate_train_inputs,
};
use rumoca::span::Span;

fn num(x: f64) -> Real {
    Real { bits: x.to_bits() }
}

fn nums(values: &[f64]) -> Vec<Real> {
    values.iter().map(|x| num(*x)).collect()
}

fn value(x: Real) -> f64 {
    f64::from_bits(x.bits)
}

fn message(e: &EvalSolveError) -> String {
    e.message("1.5", "2")
}

/// Computes what the rows of these tests ask for.
fn compute(request: &ValueRequest) -> Real {
    match request {
        ValueRequest::Unary { op: UnaryOp::Neg, arg } => num(-value(*arg)),
        ValueRequest::Binary { op: BinaryOp::Mul, lhs, rhs } => num(value(*lhs) * value(*rhs)),
        ValueRequest::Binary { op: BinaryOp::Add, lhs, rhs } => num(value(*lhs) + value(*rhs)),
        ValueRequest::Compare { op: CompareOp::Lt, lhs, rhs } => {
            num(if value(*lhs) < value(*rhs) { 1.0 } else { 0.0 })
        }
        ValueRequest::LinearSolve { matrix, rhs, component } => {
            assert_eq!(matrix.len(), rhs.len() * rhs.len());
            num(value(rhs[*component]) / value(matrix[component * (rhs.len() + 1)]))
        }
        _ => panic!("unexpected request"),
    }
}

fn run_row(
    row: &[LinearOp],
    input: &RowInput,
    out_len: usize,
) -> Result<Vec<Real>, EvalSolveError> {
    let count = required_registers(row)?;
    let mut machine = RowMachine::new(count, OutputCursor::new(nums(&vec![0.0; out_len])));
    let mut next = 0;
    loop {
        match machine.eval_row_prepared_with_context(row, &mut next, input)? {
            RowAction::Done => return Ok(machine.sink.out),
            RowAction::Value { dst, request } => {
                machine.set(dst, compute(&request), input.source_span)?;
            }
            RowAction::Slot { dst, vector, index, base, count } => {
                assert!(count > 0);
                let offset = (value(index) as usize - 1).min(count - 1);
                machine.load_slot(dst, vector, base + offset, input)?;
            }
        }
    }
}

fn input<'a>(y: &'a [Real], p: &'a [Real]) -> RowInput<'a> {
    RowInput { y, p, t: num(0.25), seed: None, source_span: None }
}

#[test]
fn rows_compute_and_store_their_outputs() {
    let row = [
        LinearOp::Const { dst: 0, value: num(2.0) },
        LinearOp::LoadY { dst: 1, index: 1 },
        LinearOp::LoadP { dst: 2, index: 0 },
        LinearOp::Binary { dst: 3, op: BinaryOp::Mul, lhs: 0, rhs: 1 },
        LinearOp::Binary { dst: 4, op: BinaryOp::Add, lhs: 3, rhs: 2 },
        LinearOp::StoreOutput { src: 4 },
        LinearOp::LoadTime { dst: 5 },
        LinearOp::Unary { dst: 6, op: UnaryOp::Neg, arg: 5 },
        LinearOp::Move { dst: 7, src: 6 },
        LinearOp::StoreOutput { src: 7 },
    ];
    let y = nums(&[1.0, 3.0]);
    let p = nums(&[10.0]);
    let out = run_row(&row, &input(&y, &p), 3).unwrap();
    assert_eq!(out, nums(&[16.0, -0.25, 0.0]));
    assert_eq!(required_registers(&row).unwrap(), 8);
    assert!(row_register_flow_is_valid(&row).unwrap());
    assert_eq!(
        row_input_requirements(&row).unwrap(),
        RowInputRequirements { y_len: 2, p_len: 1, seed_len: 0 }
    );
}

#[test]
fn selects_take_the_branch_of_their_condition() {
    for (left, right, expected) in [(1.0, 2.0, 7.0), (2.0, 1.0, 9.0)] {
        let row = [
            LinearOp::Const { dst: 0, value: num(left) },
            LinearOp::Const { dst: 1, value: num(right) },
            LinearOp::Const { dst: 2, value: num(7.0) },
            LinearOp::Const { dst: 3, value: num(9.0) },
            LinearOp::Compare { dst: 4, op: CompareOp::Lt, lhs: 0, rhs: 1 },
            LinearOp::Select { dst: 5, cond: 4, if_true: 2, if_false: 3 },
            LinearOp::StoreOutput { src: 5 },
        ];
        assert_eq!(run_row(&row, &input(&[], &[]), 1).unwrap(), nums(&[expected]));
    }
    assert!(num(-0.0).is_zero() && num(0.0).is_zero() && !num(0.5).is_zero());
}

#[test]
fn indexed_loads_read_their_window() {
    let row = [
        LinearOp::Const { dst: 0, value: num(2.0) },
        LinearOp::LoadIndexedP { dst: 1, base: 1, count: 3, index: 0 },
        LinearOp::StoreOutput { src: 1 },
        LinearOp::LoadIndexedSeed { dst: 2, base: 0, count: 2, index: 0 },
        LinearOp::StoreOutput { src: 2 },
        LinearOp::LoadSeed { dst: 3, index: 0 },
        LinearOp::StoreOutput { src: 3 },
    ];
    let p = nums(&[1.0, 2.0, 3.0, 4.0]);
    let seed = nums(&[5.0, 6.0]);
    let with_seed =
        RowInput { y: &[], p: &p, t: num(0.0), seed: Some(&seed), source_span: None };
    assert_eq!(run_row(&row, &with_seed, 3).unwrap(), nums(&[3.0, 6.0, 5.0]));
    let error = run_row(&row, &input(&[], &p), 3).err().unwrap();
    assert!(matches!(error, EvalSolveError::MissingInput { vector: "seed", len: 0, .. }));
    assert_eq!(
        row_input_requirements(&row).unwrap(),
        RowInputRequirements { y_len: 0, p_len: 4, seed_len: 2 }
    );
    let mut machine = RowMachine::new(1, OutputCursor::new(vec![]));
    machine.load_slot(0, IndexedVector::P, 3, &with_seed).unwrap();
    assert_eq!(machine.get(0, None).unwrap(), num(4.0));
    let error = machine.load_slot(0, IndexedVector::Seed, 2, &with_seed).err().unwrap();
    assert_eq!(
        message(&error),
        "missing seed[2] while evaluating Solve-IR row; vector length is 2"
    );
}

#[test]
fn linear_solves_hand_out_matrix_and_right_hand_side() {
    let row = [
        LinearOp::Const { dst: 0, value: num(2.0) },
        LinearOp::Const { dst: 1, value: num(0.0) },
        LinearOp::Const { dst: 2, value: num(0.0) },
        LinearOp::Const { dst: 3, value: num(4.0) },
        LinearOp::Const { dst: 4, value: num(6.0) },
        LinearOp::Const { dst: 5, value: num(8.0) },
        LinearOp::LinearSolveComponent {
            dst: 6,
            matrix_start: 0,
            rhs_start: 4,
            n: 2,
            component: 1,
        },
        LinearOp::StoreOutput { src: 6 },
    ];
    assert_eq!(run_row(&row, &input(&[], &[]), 1).unwrap(), nums(&[2.0]));
    assert_eq!(max_register(&row[6]).unwrap(), 6);
    assert_eq!(linear_op_name(&row[6]), "LinearSolveComponent");
}

#[test]
fn reads_before_writes_are_refused() {
    let row = [LinearOp::Move { dst: 0, src: 1 }, LinearOp::StoreOutput { src: 0 }];
    assert!(!row_register_flow_is_valid(&row).unwrap());
    let error = run_row(&row, &input(&[], &[]), 1).err().unwrap();
    assert_eq!(message(&error), "cannot read uninitialized Solve-IR register r1");
    assert!(op_sources_initialized(&row[0], &[false, true]));
    assert!(!op_sources_initialized(&row[0], &[true, false]));
    assert!(!op_sources_initialized(&row[0], &[true]));
    let machine = RowMachine::new(1, OutputCursor::new(vec![]));
    let error = machine.get(3, None).err().unwrap();
    assert_eq!(
        message(&error),
        "cannot read Solve-IR register r3; register file length is 1"
    );
    let mut machine = machine;
    let span = Some(Span::from_offsets(1, 2, 3));
    let error = machine.set(3, num(1.0), span).err().unwrap();
    assert_eq!(
        message(&error),
        "cannot write Solve-IR register r3; register file length is 1"
    );
    assert_eq!(error.source_span(), span);
}

#[test]
fn outputs_take_the_listed_slots() {
    let mut sink = OutputCursor::with_output_indices(nums(&[0.0, 0.0, 0.0]), vec![2, 0]);
    sink.store(num(1.0)).unwrap();
    sink.store(num(2.0)).unwrap();
    assert_eq!(sink.out, nums(&[2.0, 0.0, 1.0]));
    let error = sink.store(num(3.0)).err().unwrap();
    assert_eq!(
        message(&error),
        "invalid Solve-IR row: StoreOutput exceeded scalar program output_indices"
    );
    assert_eq!(sink.cursor, 2);
    let mut sink = OutputCursor::new(nums(&[0.0]));
    sink.store(num(1.0)).unwrap();
    let error = sink.store(num(2.0)).err().unwrap();
    assert_eq!(
        message(&error),
        "output buffer too small while evaluating Solve-IR row block: 1 < 2"
    );
}

#[test]
fn register_ranges_stay_in_bounds() {
    assert_eq!(checked_square_len(3, "matrix").unwrap(), 9);
    let error = checked_square_len(usize::MAX, "matrix").err().unwrap();
    assert_eq!(message(&error), "invalid Solve-IR row: matrix size overflow");
    assert_eq!(checked_reg_range_last(4, 0, "state").unwrap(), 4);
    assert_eq!(checked_reg_range_last(4, 3, "state").unwrap(), 6);
    let error = checked_reg_range_last(u32::MAX, 2, "state").err().unwrap();
    assert_eq!(
        message(&error),
        "invalid Solve-IR row: state range starting at 4294967295 overflows"
    );
    let draw = LinearOp::RandomResult {
        dst: 0,
        generator: RandomGenerator::Xorshift128Plus,
        state_start: 1,
        state_len: 4,
    };
    assert_eq!(max_register(&draw).unwrap(), 4);
    assert_eq!(required_registers(&[]).unwrap(), 0);
}

#[test]
fn inputs_are_checked_before_rows_run() {
    let op = LinearOp::LoadIndexedP { dst: 1, base: 2, count: 3, index: 0 };
    assert_eq!(input_requirements_for_op(op).unwrap().p_len, 5);
    let far = LinearOp::LoadY { dst: 0, index: usize::MAX };
    assert!(matches!(
        input_requirements_for_op(far).err().unwrap(),
        EvalSolveError::InvalidRow { .. }
    ));
    let merged = RowInputRequirements { y_len: 1, p_len: 5, seed_len: 0 }
        .merge(RowInputRequirements { y_len: 3, p_len: 2, seed_len: 1 });
    assert_eq!(merged, RowInputRequirements { y_len: 3, p_len: 5, seed_len: 1 });
    let row = [LinearOp::LoadY { dst: 0, index: 2 }];
    assert!(validate_row_inputs(&row, 3, 0, None).is_ok());
    let error = validate_row_inputs(&row, 2, 0, None).err().unwrap();
    assert_eq!(
        message(&error),
        "missing y[2] while evaluating Solve-IR row; vector length is 2"
    );
    assert!(validate_output_len(2, 2).is_ok());
    assert!(matches!(
        validate_output_len(1, 2).err().unwrap(),
        EvalSolveError::OutputTooSmall { required: 2, len: 1, span: None }
    ));
}

fn two_rows() -> ScalarProgramBlock {
    ScalarProgramBlock {
        programs: vec![
            vec![
                LinearOp::LoadY { dst: 0, index: 0 },
                LinearOp::LoadP { dst: 1, index: 0 },
                LinearOp::Binary { dst: 2, op: BinaryOp::Mul, lhs: 0, rhs: 1 },
                LinearOp::StoreOutput { src: 2 },
            ],
            vec![
                LinearOp::Const { dst: 0, value: num(1.0) },
                LinearOp::LoadIndexedP { dst: 1, base: 0, count: 1, index: 0 },
                LinearOp::StoreOutput { src: 1 },
            ],
        ],
        output_indices: vec![1, 0],
        program_spans: vec![Span::from_offsets(1, 0, 4)],
        output_count: 2,
    }
}

fn run_block(
    block: &ScalarProgramBlock,
    input: &RowInput,
    out_len: usize,
) -> Result<Vec<Real>, EvalSolveError> {
    let seed_len = input.seed.map(|s| s.len());
    let mut run = BlockRun::start(block, input.y.len(), input.p.len(), seed_len, out_len)?;
    loop {
        let (after, action) = run.advance(block, input);
        match (after, action?) {
            (Some(run), BlockAction::Finished) => return Ok(run.machine.sink.out),
            (Some(stopped), BlockAction::Left(RowAction::Value { dst, request })) => {
                run = stopped;
                run.supply(block, dst, compute(&request))?;
            }
            (Some(stopped), BlockAction::Left(RowAction::Slot { dst, vector, base, .. })) => {
                run = stopped;
                run.supply_slot(block, input, dst, vector, base)?;
            }
            _ => panic!("a block stops with something to do"),
        }
    }
}

#[test]
fn blocks_run_row_after_row() {
    let block = two_rows();
    let y = nums(&[3.0]);
    let p = nums(&[5.0]);
    assert_eq!(run_block(&block, &input(&y, &p), 3).unwrap(), nums(&[5.0, 15.0, 0.0]));
    let empty = ScalarProgramBlock {
        programs: vec![],
        output_indices: vec![],
        program_spans: vec![],
        output_count: 0,
    };
    assert_eq!(run_block(&empty, &input(&[], &[]), 1).unwrap(), nums(&[0.0]));
}

#[test]
fn single_rows_start_with_one_output() {
    let row = vec![LinearOp::LoadY { dst: 2, index: 0 }];
    let machine = start_single_row(&row, 1, 0, None).ok().unwrap();
    assert_eq!(machine.regs.len(), 3);
    assert_eq!(machine.sink.out, nums(&[0.0]));
    let error = start_single_row(&row, 0, 0, None).err().unwrap();
    assert!(matches!(error, EvalSolveError::MissingInput { vector: "y", index: 0, .. }));
}

#[test]
fn blocks_are_checked_before_they_run() {
    let block = two_rows();
    assert_eq!(
        scalar_program_block_input_requirements(&block).unwrap(),
        RowInputRequirements { y_len: 1, p_len: 1, seed_len: 0 }
    );
    assert!(validate_scalar_program_block_io(&block, 1, 1, None, 2).is_ok());
    let error = validate_scalar_program_block_io(&block, 1, 1, None, 1).err().unwrap();
    assert!(matches!(error, EvalSolveError::OutputTooSmall { required: 2, .. }));
    let error = BlockRun::start(&block, 1, 0, None, 2).err().unwrap();
    assert_eq!(
        message(&error),
        "missing p[0] while evaluating Solve-IR row; vector length is 0"
    );
    let mut bad = two_rows();
    bad.programs[0] = vec![LinearOp::Move { dst: 0, src: 1 }];
    let error = run_block(&bad, &input(&[], &nums(&[1.0])), 2).err().unwrap();
    assert!(matches!(error, EvalSolveError::UninitializedRegister { register: 1, .. }));
    assert_eq!(error.source_span(), Some(Span::from_offsets(1, 0, 4)));
}

#[test]
fn valid_rows_run_alike_without_register_checks() {
    let row = [
        LinearOp::LoadY { dst: 0, index: 0 },
        LinearOp::Move { dst: 1, src: 0 },
        LinearOp::StoreOutput { src: 1 },
    ];
    assert!(row_register_flow_is_valid(&row).unwrap());
    let y = nums(&[4.5]);
    let mut machine = RowMachine::new(2, OutputCursor::new(nums(&[0.0])));
    let mut next = 0;
    let action = machine.eval_row_prepared_fast(&row, &mut next, &input(&y, &[])).unwrap();
    assert!(matches!(action, RowAction::Done));
    assert_eq!(machine.sink.out, run_row(&row, &input(&y, &[]), 1).unwrap());
    assert_eq!(next, 3);
}

#[test]
fn only_safe_rows_skip_register_checks() {
    let row = [
        LinearOp::LoadY { dst: 0, index: 0 },
        LinearOp::StoreOutput { src: 0 },
        LinearOp::Move { dst: 0, src: 1 },
    ];
    assert!(!row_register_flow_is_valid(&row).unwrap());
    let y = nums(&[2.5]);
    for (register_safe, expected) in [(true, None), (false, Some(1))] {
        let mut machine = RowMachine::new(2, OutputCursor::new(nums(&[0.0])));
        let mut next = 0;
        let result = machine.eval_row_prepared_maybe_fast(
            &row,
            &mut next,
            &input(&y, &[]),
            register_safe,
        );
        assert_eq!(machine.sink.out, nums(&[2.5]));
        assert_eq!(next, 3);
        match expected {
            None => assert!(matches!(result, Ok(RowAction::Done))),
            Some(unset) => assert!(matches!(
                result,
                Err(EvalSolveError::UninitializedRegister { register, .. }) if register == unset
            )),
        }
    }
}

#[test]
fn errors_say_what_went_wrong() {
    let table = external_table_error(
        "lookup",
        num(1.5),
        Some(num(2.0)),
        "no such table".to_string(),
    );
    assert_eq!(
        message(&table),
        "external table lookup failed for table id 1.5 column 2: no such table"
    );
    let cases = [
        (
            EvalSolveError::UpdateRowTargetMismatch { rows: 1, targets: 2 },
            "update RHS row count 1 does not match target count 2",
        ),
        (
            EvalSolveError::UpdateDidNotConverge { t: num(1.5), max_iters: 9 },
            "update equations did not converge at t=1.5 after 9 iterations",
        ),
        (
            EvalSolveError::SingularTargetAssignment {
                row: 1,
                target_y_index: 2,
                coefficient: num(1.5),
                span: None,
            },
            "cannot isolate target y[2] from Solve-IR row 1: singular coefficient 1.5",
        ),
        (
            EvalSolveError::MissingRuntimeState { operation: "ImpureRandom" },
            "missing simulation runtime state while evaluating Solve-IR ImpureRandom",
        ),
        (
            EvalSolveError::InvalidLinearOp { helper: "table", op: "Const" },
            "Solve-IR table helper cannot evaluate Const op",
        ),
        (
            EvalSolveError::Scalarization { message: "m".to_string(), span: None },
            "Solve-IR scalarization failed: m",
        ),
        (
            EvalSolveError::ShapeContract { message: "m".to_string(), span: None },
            "Solve-IR shape contract failed: m",
        ),
    ];
    for (error, expected) in cases {
        assert_eq!(message(&error), expected);
    }
    let span = Some(Span::from_offsets(1, 2, 3));
    let placed = EvalSolveError::UninitializedRegister { register: 1, span: None }
        .with_source_span(span);
    assert_eq!(placed.source_span(), span);
    let kept = placed.with_source_span(None);
    assert_eq!(kept.source_span(), span);
    let without = EvalSolveError::MissingRuntimeState { operation: "x" }.with_source_span(span);
    assert_eq!(without.source_span(), None);
}

#[test]
fn the_first_active_event_action_counts() {
    let action = |kind, message| SolveEventAction { kind, message };
    let text = |s: &str| SolveEventMessagePart::Text(s.to_string());
    let actions = vec![
        action(SolveEventActionKind::Assert, vec![text("x is ")]),
        action(
            SolveEventActionKind::Terminate,
            vec![text("t="), SolveEventMessagePart::Number(vec![]), text("!")],
        ),
    ];
    assert_eq!(select_event_action(&actions, &nums(&[0.0, 1.0])).unwrap(), Some(1));
    assert_eq!(select_event_action(&actions, &nums(&[0.6, 1.0])).unwrap(), Some(0));
    assert_eq!(select_event_action(&actions, &nums(&[0.5, -3.0])).unwrap(), None);
    assert_eq!(select_event_action(&vec![], &nums(&[1.0])).unwrap(), None);
    assert!(!wants_conditions(&vec![], 3).unwrap());
    assert!(wants_conditions(&actions, 2).unwrap());
    assert!(wants_conditions(&actions, 3).is_err());
    let error = select_event_action(&actions, &nums(&[1.0])).err().unwrap();
    assert_eq!(
        message(&error),
        "event action condition row count 1 does not match event action count 2"
    );
    let numbers = vec!["2.5".to_string()];
    assert_eq!(event_message(&actions[1].message, &numbers), "t=2.5!");
    assert!(matches!(
        event_action_request(&actions[1], &numbers),
        EventActionRequest::Terminate { message } if message == "t=2.5!"
    ));
    assert!(matches!(
        event_action_request(&actions[0], &vec![]),
        EventActionRequest::AssertionFailed { message } if message == "x is "
    ));
}

#[test]
fn simulations_share_streams_with_their_clones_only() {
    let mut table = StreamTable::new();
    let first = SimulationRuntimeState::new(&mut table);
    let shared = first.clone();
    let context = SimulationContext::new(&mut table);
    let second = *context.runtime_state();
    first.keep_stream_state(&mut table, 1, 0, 11);
    second.keep_stream_state(&mut table, 1, 0, 21);
    assert_eq!(shared.stream_state(&table, 1, 0), Some(11));
    assert_eq!(second.stream_state(&table, 1, 0), Some(21));
    shared.keep_stream_state(&mut table, 1, 0, 12);
    assert_eq!(first.stream_state(&table, 1, 0), Some(12));
    assert_eq!(second.stream_state(&table, 1, 0), Some(21));
    clear_runtime_state(&mut table);
    first.clear(&mut table);
    assert_eq!(shared.stream_state(&table, 1, 0), None);
    assert_eq!(second.stream_state(&table, 1, 0), Some(21));
    context.close(&mut table);
    assert_eq!(second.stream_state(&table, 1, 0), None);
}

#[test]
fn run_time_indices_stay_inside_their_window() {
    assert_eq!(resolve_indexed_slot(0, 10, 3), 10);
    assert_eq!(resolve_indexed_slot(2, 10, 3), 12);
    assert_eq!(resolve_indexed_slot(-5, 10, 3), 10);
    assert_eq!(resolve_indexed_slot(i64::MAX, 10, 3), 12);
    assert_eq!(resolve_indexed_slot(7, 10, 0), 10);
}

#[test]
fn random_streams_are_kept_apart() {
    let mut table = StreamTable::new();
    let state = SimulationRuntimeState::new(&mut table);
    assert_eq!(state.stream_state(&table, 1, 0), None);
    state.keep_stream_state(&mut table, 1, 0, 11);
    state.keep_stream_state(&mut table, 1, 2, 12);
    state.keep_stream_state(&mut table, 1, 0, 13);
    assert_eq!(state.stream_state(&table, 1, 0), Some(13));
    assert_eq!(state.stream_state(&table, 1, 2), Some(12));
    assert_eq!(state.stream_state(&table, 2, 0), None);
    state.clear(&mut table);
    assert_eq!(state.stream_state(&table, 1, 0), None);
    assert_eq!(ordered_bounds(5, -2), (-2, 5));
    assert_eq!(integer_span(-2, 5), 8);
    assert_eq!(projected_random_value(&nums(&[1.0, 2.0]), 1).unwrap(), num(2.0));
    let error = projected_random_value(&nums(&[1.0]), 1).err().unwrap();
    assert_eq!(
        message(&error),
        "random state projection index 1 is out of bounds for state length 1"
    );
}

#[test]
fn the_trace_lists_the_busiest_blocks() {
    let mut trace = RowEvalTrace::new();
    record_solve_block_eval(&mut trace, false, "residual", 3, 3);
    assert!(trace.blocks.is_empty());
    record_solve_block_eval(&mut trace, true, "residual", 3, 3);
    record_solve_block_eval(&mut trace, true, "derivative", 9, 9);
    record_solve_block_eval(&mut trace, true, "residual", 3, 4);
    record_solve_block_eval(&mut trace, true, "residual", 2, 7);
    let keys: Vec<(&str, usize)> =
        trace.blocks.iter().map(|b| (b.kind.as_str(), b.len)).collect();
    assert_eq!(keys, vec![("derivative", 9), ("residual", 2), ("residual", 3)]);
    assert_eq!(trace.blocks[2].calls, 2);
    assert_eq!(trace.blocks[2].rows, 7);
    let top = top_blocks(&trace.blocks, 1);
    assert_eq!(top, vec![0]);
    assert!(trace_solve_row_eval_snapshot(&trace, false, "run").is_empty());
    let lines = trace_solve_row_eval_snapshot(&trace, true, "run");
    assert_eq!(lines.len(), 3);
    assert_eq!(lines[0], "run: block kind=derivative len=9 calls=1 rows=9");
    trace.record_row(true, 40);
    trace.record_row(true, 2);
    trace.record_row(false, 5);
    assert_eq!((trace.calls, trace.nanos), (2, 42));
    reset_solve_row_eval_trace(&mut trace, false);
    assert_eq!(trace.calls, 2);
    reset_solve_row_eval_trace(&mut trace, true);
    assert_eq!((trace.calls, trace.blocks.len()), (0, 0));
}

#[test]
fn training_inputs_are_checked_in_order() {
    let check = |x0, slots: &[usize], targets: &[usize]| {
        validate_train_inputs(2, x0, 3, &slots.to_vec(), &targets.to_vec(), 2, 4)
            .err()
            .map(|e| e.message)
    };
    assert_eq!(check(2, &[0, 2], &[2, 2]), None);
    assert_eq!(
        check(1, &[0], &[2, 2]).unwrap(),
        "train: x0 has 1 entries, expected state_count = 2"
    );
    assert_eq!(check(2, &[0], &[2]).unwrap(), "train: 1 targets, expected steps + 1 = 2");
    assert_eq!(
        check(2, &[0], &[2, 5]).unwrap(),
        "train: targets[1] has 5 entries, expected state_count = 2"
    );
    assert_eq!(
        check(2, &[0, 4], &[2, 2]).unwrap(),
        "train: trainable slot 4 out of range for p_scalars = 4"
    );
    assert_eq!(
        check(2, &[3], &[2, 2]).unwrap(),
        "train: trainable slot 3 out of range for params length 3"
    );
    let error = validate_adjoint_inputs(2, 2, &vec![2, 1], 2).err().unwrap();
    assert_eq!(
        error.message,
        "trajectory adjoint: state_cotangents[1] has 1 entries, expected state_count = 2"
    );
    assert!(validate_adjoint_inputs(2, 2, &vec![2, 2], 2).is_ok());
}

#[test]
fn trained_values_go_back_where_they_came_from() {
    let mut values = nums(&[1.0, 2.0, 3.0]);
    let slots = vec![2, 0];
    assert_eq!(gather_slots(&values, &slots), nums(&[3.0, 1.0]));
    scatter_slots(&mut values, &slots, &nums(&[30.0, 10.0]));
    assert_eq!(values, nums(&[10.0, 2.0, 30.0]));
    assert_eq!(gather_slots(&values, &slots), nums(&[30.0, 10.0]));
    assert_eq!(step_range(2, 3, 4), (6, 9));
}

#[test]
fn trajectories_keep_their_states_in_order() {
    let mut trajectory = Trajectory::new(2);
    trajectory.store(&nums(&[1.0, 2.0]));
    trajectory.store(&nums(&[3.0, 4.0]));
    assert_eq!(trajectory.len(), 2);
    assert_eq!(trajectory.state(0), &nums(&[1.0, 2.0])[..]);
    assert_eq!(trajectory.state(1), &nums(&[3.0, 4.0])[..]);
    let mut empty = Trajectory::new(0);
    empty.store(&vec![]);
    assert!(empty.state(0).is_empty());
}

#[test]
fn adjoint_runs_go_forward_and_then_back() {
    // x' = p x with the step h: x_{n+1} = (1 + h p) x_n.
    let (h, p, steps) = (0.5, 2.0, 3);
    let cotangents = vec![nums(&[0.0]), nums(&[0.0]), nums(&[1.0]), nums(&[1.0])];
    let mut run = AdjointRun::start(1, 1, steps, 1, &nums(&[1.0]), &cotangents).ok().unwrap();
    let mut order = Vec::new();
    loop {
        let action = run.action();
        order.push(action);
        match action {
            AdjointAction::Forward { n } => {
                let x = value(run.state(n)[0]);
                run.supply_state(&nums(&[x + h * p * x]));
            }
            AdjointAction::Backward { n } => {
                let x = value(run.state(n)[0]);
                let adjoint = value(run.adjoint()[0]);
                run.supply_kernel(nums(&[p * adjoint, x * adjoint]));
            }
            AdjointAction::Gather { n } => {
                let cotangent = value(run.cotangent(n)[0]);
                let adjoint = value(run.adjoint()[0]);
                let gradient = value(run.gradient()[0]);
                let by_state = value(run.kernel_by_states()[0]);
                let by_parameter = value(run.kernel_by_parameters()[0]);
                run.supply_adjoint(
                    nums(&[cotangent + adjoint + h * by_state]),
                    nums(&[gradient + h * by_parameter]),
                );
            }
            AdjointAction::Finished => break,
        }
    }
    assert_eq!(
        order,
        vec![
            AdjointAction::Forward { n: 0 },
            AdjointAction::Forward { n: 1 },
            AdjointAction::Forward { n: 2 },
            AdjointAction::Backward { n: 2 },
            AdjointAction::Gather { n: 2 },
            AdjointAction::Backward { n: 1 },
            AdjointAction::Gather { n: 1 },
            AdjointAction::Backward { n: 0 },
            AdjointAction::Gather { n: 0 },
            AdjointAction::Finished,
        ]
    );
    assert_eq!(run.state(3), &nums(&[8.0])[..]);
    // L = x_2 + x_3 with x_n = (1 + h p)^n.
    assert_eq!(run.adjoint(), &nums(&[12.0]));
    assert_eq!(run.gradient(), &nums(&[8.0]));
}

#[test]
fn adjoint_runs_need_fitting_shapes() {
    let error = AdjointRun::start(1, 1, 1, 0, &nums(&[]), &vec![]).err().unwrap();
    assert_eq!(
        error.message,
        "trajectory adjoint: x0 has 0 entries, expected state_count = 1"
    );
    let error = AdjointRun::start(1, 1, 1, 0, &nums(&[1.0]), &vec![]).err().unwrap();
    assert_eq!(
        error.message,
        "trajectory adjoint: 0 state cotangents, expected steps + 1 = 2"
    );
}

#[test]
fn adjoint_runs_need_a_model_without_solver_algebraics() {
    for steps in 0..3 {
        let cotangents = vec![nums(&[1.0]); steps + 1];
        let error = AdjointRun::start(1, 2, steps, 0, &nums(&[1.0]), &cotangents).err().unwrap();
        assert_eq!(
            error.message,
            "trajectory adjoint: solver_count = 2, expected state_count = 1"
        );
        assert!(AdjointRun::start(1, 1, steps, 0, &nums(&[1.0]), &cotangents).is_ok());
    }
}

#[test]
fn trainings_ask_for_losses_gradients_and_updates_in_turn() {
    let params = nums(&[1.0, 2.0, 3.0]);
    let mut run =
        TrainRun::start(1, 1, params, vec![2, 0], &vec![1, 1], 2, 3, 2).ok().unwrap();
    let mut order = Vec::new();
    let mut loss = 10.0;
    loop {
        order.push(run.phase);
        match run.phase {
            TrainPhase::InitialLoss | TrainPhase::EpochLoss | TrainPhase::FinalLoss => {
                run.supply_loss(num(loss));
                loss -= 1.0;
            }
            TrainPhase::Gradient => {
                run.supply_gradient(&nums(&[0.5, 0.0, 0.25]));
                assert_eq!(run.gradient, nums(&[0.25, 0.5]));
            }
            TrainPhase::Update => {
                let values: Vec<f64> = run
                    .trained_values()
                    .iter()
                    .zip(&run.gradient)
                    .map(|(x, g)| value(*x) - value(*g))
                    .collect();
                run.supply_update(&nums(&values));
            }
            TrainPhase::Finished => break,
        }
    }
    assert_eq!(
        order,
        vec![
            TrainPhase::InitialLoss,
            TrainPhase::EpochLoss,
            TrainPhase::Gradient,
            TrainPhase::Update,
            TrainPhase::EpochLoss,
            TrainPhase::Gradient,
            TrainPhase::Update,
            TrainPhase::FinalLoss,
            TrainPhase::Finished,
        ]
    );
    assert_eq!(run.params, nums(&[0.0, 2.0, 2.5]));
    assert_eq!((run.initial_loss, run.final_loss), (num(10.0), num(7.0)));
    assert_eq!(run.losses, nums(&[9.0, 8.0]));
    let mut idle = TrainRun::start(1, 1, vec![], vec![], &vec![1], 1, 0, 0).ok().unwrap();
    idle.supply_loss(num(1.0));
    assert_eq!(idle.phase, TrainPhase::FinalLoss);
}
