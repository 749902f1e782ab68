//! Errors of solve-row evaluation.
use crate::span::Span;
use crate::text::{nat_text, push_nat, push_usize};
use vstd::prelude::*;

verus! {

/// A double-precision number carried as its IEEE bit pattern.
#[derive(Clone, Copy, Debug, PartialEq, Eq, Structural)]
pub struct Real {
    pub bits: u64,
}

impl Real {
    /// Positive zero.
    pub open spec fn zero_spec() -> Real {
        Real { bits: 0 }
    }

    pub fn zero() -> (r: Real)
        ensures
            r == Real::zero_spec(),
    {
        Real { bits: 0 }
    }

    /// Whether the number compares equal to zero: positive or negative zero.
    pub open spec fn is_zero_spec(self) -> bool {
        self.bits == 0 || self.bits == 0x8000_0000_0000_0000
    }

    pub fn is_zero(&self) -> (r: bool)
        ensures
            r == self.is_zero_spec(),
    {
        self.bits == 0 || self.bits == 0x8000_0000_0000_0000
    }
}

/// What can go wrong while checking or evaluating solve rows.
#[derive(Debug)]
pub enum EvalSolveError {
    ExternalTable { operation: &'static str, table_id: Real, column: Option<Real>, reason: String },
    MissingInput { vector: &'static str, index: usize, len: usize, span: Option<Span> },
    RegisterOutOfBounds { access: &'static str, register: u32, len: usize, span: Option<Span> },
    UninitializedRegister { register: u32, span: Option<Span> },
    OutputTooSmall { required: usize, len: usize, span: Option<Span> },
    UpdateRowTargetMismatch { rows: usize, targets: usize },
    UpdateDidNotConverge { t: Real, max_iters: usize },
    SingularTargetAssignment {
        row: usize,
        target_y_index: usize,
        coefficient: Real,
        span: Option<Span>,
    },
    EventActionConditionMismatch { rows: usize, actions: usize },
    MissingRuntimeState { operation: &'static str },
    RandomStateProjectionOutOfBounds { index: usize, len: usize },
    InvalidLinearOp { helper: &'static str, op: &'static str },
    InvalidRow { message: String, span: Option<Span> },
    Scalarization { message: String, span: Option<Span> },
    ShapeContract { message: String, span: Option<Span> },
}

/// The mathematical content of an [`EvalSolveError`].
pub enum EvalErrorView {
    ExternalTable {
        operation: Seq<char>,
        table_id: Real,
        column: Option<Real>,
        reason: Seq<char>,
    },
    MissingInput { vector: Seq<char>, index: usize, len: usize, span: Option<Span> },
    RegisterOutOfBounds { access: Seq<char>, register: u32, len: usize, span: Option<Span> },
    UninitializedRegister { register: u32, span: Option<Span> },
    OutputTooSmall { required: usize, len: usize, span: Option<Span> },
    UpdateRowTargetMismatch { rows: usize, targets: usize },
    UpdateDidNotConverge { t: Real, max_iters: usize },
    SingularTargetAssignment {
        row: usize,
        target_y_index: usize,
        coefficient: Real,
        span: Option<Span>,
    },
    EventActionConditionMismatch { rows: usize, actions: usize },
    MissingRuntimeState { operation: Seq<char> },
    RandomStateProjectionOutOfBounds { index: usize, len: usize },
    InvalidLinearOp { helper: Seq<char>, op: Seq<char> },
    InvalidRow { message: Seq<char>, span: Option<Span> },
    Scalarization { message: Seq<char>, span: Option<Span> },
    ShapeContract { message: Seq<char>, span: Option<Span> },
}

impl View for EvalSolveError {
    type V = EvalErrorView;

    open spec fn view(&self) -> EvalErrorView {
        match *self {
            EvalSolveError::ExternalTable { operation, table_id, column, reason } =>
                EvalErrorView::ExternalTable {
                    operation: operation@,
                    table_id,
                    column,
                    reason: reason@,
                },
            EvalSolveError::MissingInput { vector, index, len, span } =>
                EvalErrorView::MissingInput { vector: vector@, index, len, span },
            EvalSolveError::RegisterOutOfBounds { access, register, len, span } =>
                EvalErrorView::RegisterOutOfBounds { access: access@, register, len, span },
            EvalSolveError::UninitializedRegister { register, span } =>
                EvalErrorView::UninitializedRegister { register, span },
            EvalSolveError::OutputTooSmall { required, len, span } =>
                EvalErrorView::OutputTooSmall { required, len, span },
            EvalSolveError::UpdateRowTargetMismatch { rows, targets } =>
                EvalErrorView::UpdateRowTargetMismatch { rows, targets },
            EvalSolveError::UpdateDidNotConverge { t, max_iters } =>
                EvalErrorView::UpdateDidNotConverge { t, max_iters },
            EvalSolveError::SingularTargetAssignment { row, target_y_index, coefficient, span } =>
                EvalErrorView::SingularTargetAssignment { row, target_y_index, coefficient, span },
            EvalSolveError::EventActionConditionMismatch { rows, actions } =>
                EvalErrorView::EventActionConditionMismatch { rows, actions },
            EvalSolveError::MissingRuntimeState { operation } =>
                EvalErrorView::MissingRuntimeState { operation: operation@ },
            EvalSolveError::RandomStateProjectionOutOfBounds { index, len } =>
                EvalErrorView::RandomStateProjectionOutOfBounds { index, len },
            EvalSolveError::InvalidLinearOp { helper, op } =>
                EvalErrorView::InvalidLinearOp { helper: helper@, op: op@ },
            EvalSolveError::InvalidRow { message, span } =>
                EvalErrorView::InvalidRow { message: message@, span },
            EvalSolveError::Scalarization { message, span } =>
                EvalErrorView::Scalarization { message: message@, span },
            EvalSolveError::ShapeContract { message, span } =>
                EvalErrorView::ShapeContract { message: message@, span },
        }
    }
}

impl EvalErrorView {
    /// The source position the error names, if its kind carries one.
    pub open spec fn source_span(self) -> Option<Span> {
        match self {
            EvalErrorView::MissingInput { span, .. } => span,
            EvalErrorView::RegisterOutOfBounds { span, .. } => span,
            EvalErrorView::UninitializedRegister { span, .. } => span,
            EvalErrorView::OutputTooSmall { span, .. } => span,
            EvalErrorView::SingularTargetAssignment { span, .. } => span,
            EvalErrorView::InvalidRow { span, .. } => span,
            EvalErrorView::Scalarization { span, .. } => span,
            EvalErrorView::ShapeContract { span, .. } => span,
            _ => None,
        }
    }

    /// Whether the error is of a kind that evaluation may still give a position.
    pub open spec fn accepts_span(self) -> bool {
        ||| self is MissingInput
        ||| self is RegisterOutOfBounds
        ||| self is UninitializedRegister
        ||| self is OutputTooSmall
        ||| self is SingularTargetAssignment
        ||| self is InvalidRow
    }

    /// The same error with its position replaced.
    pub open spec fn set_span(self, span: Option<Span>) -> EvalErrorView {
        match self {
            EvalErrorView::MissingInput { vector, index, len, .. } =>
                EvalErrorView::MissingInput { vector, index, len, span },
            EvalErrorView::RegisterOutOfBounds { access, register, len, .. } =>
                EvalErrorView::RegisterOutOfBounds { access, register, len, span },
            EvalErrorView::UninitializedRegister { register, .. } =>
                EvalErrorView::UninitializedRegister { register, span },
            EvalErrorView::OutputTooSmall { required, len, .. } =>
                EvalErrorView::OutputTooSmall { required, len, span },
            EvalErrorView::SingularTargetAssignment { row, target_y_index, coefficient, .. } =>
                EvalErrorView::SingularTargetAssignment { row, target_y_index, coefficient, span },
            EvalErrorView::InvalidRow { message, .. } =>
                EvalErrorView::InvalidRow { message, span },
            other => other,
        }
    }

    /// Fills in a position where the kind accepts one and none is there yet.
    pub open spec fn with_source_span(self, span: Option<Span>) -> EvalErrorView {
        if self.accepts_span() && self.source_span() is None {
            self.set_span(span)
        } else {
            self
        }
    }

    /// The message; `first` and `second` render the numbers that the kind
    /// carries, in field order.
    pub open spec fn message(self, first: Seq<char>, second: Seq<char>) -> Seq<char> {
        match self {
            EvalErrorView::ExternalTable { operation, column, reason, .. } => {
                let head = "external table "@ + operation + " failed for table id "@ + first;
                if column is Some {
                    head + " column "@ + second + ": "@ + reason
                } else {
                    head + ": "@ + reason
                }
            },
            EvalErrorView::MissingInput { vector, index, len, .. } => "missing "@ + vector + "["@
                + nat_text(index as nat)
                + "] while evaluating Solve-IR row; vector length is "@ + nat_text(len as nat),
            EvalErrorView::RegisterOutOfBounds { access, register, len, .. } => "cannot "@ + access
                + " Solve-IR register r"@ + nat_text(register as nat)
                + "; register file length is "@ + nat_text(len as nat),
            EvalErrorView::UninitializedRegister { register, .. } =>
                "cannot read uninitialized Solve-IR register r"@ + nat_text(register as nat),
            EvalErrorView::OutputTooSmall { required, len, .. } =>
                "output buffer too small while evaluating Solve-IR row block: "@ + nat_text(
                len as nat,
            ) + " < "@ + nat_text(required as nat),
            EvalErrorView::UpdateRowTargetMismatch { rows, targets } => "update RHS row count "@
                + nat_text(rows as nat) + " does not match target count "@ + nat_text(
                targets as nat,
            ),
            EvalErrorView::UpdateDidNotConverge { max_iters, .. } =>
                "update equations did not converge at t="@ + first + " after "@ + nat_text(
                max_iters as nat,
            ) + " iterations"@,
            EvalErrorView::SingularTargetAssignment { row, target_y_index, .. } =>
                "cannot isolate target y["@ + nat_text(target_y_index as nat)
                + "] from Solve-IR row "@ + nat_text(row as nat) + ": singular coefficient "@
                + first,
            EvalErrorView::EventActionConditionMismatch { rows, actions } =>
                "event action condition row count "@ + nat_text(rows as nat)
                + " does not match event action count "@ + nat_text(actions as nat),
            EvalErrorView::MissingRuntimeState { operation } =>
                "missing simulation runtime state while evaluating Solve-IR "@ + operation,
            EvalErrorView::RandomStateProjectionOutOfBounds { index, len } =>
                "random state projection index "@ + nat_text(index as nat)
                + " is out of bounds for state length "@ + nat_text(len as nat),
            EvalErrorView::InvalidLinearOp { helper, op } => "Solve-IR "@ + helper
                + " helper cannot evaluate "@ + op + " op"@,
            EvalErrorView::InvalidRow { message, .. } => "invalid Solve-IR row: "@ + message,
            EvalErrorView::Scalarization { message, .. } => "Solve-IR scalarization failed: "@
                + message,
            EvalErrorView::ShapeContract { message, .. } => "Solve-IR shape contract failed: "@
                + message,
        }
    }
}

impl EvalSolveError {
    /// The source position the error names, if its kind carries one.
    pub fn source_span(&self) -> (span: Option<Span>)
        ensures
            span == self@.source_span(),
    {
        match self {
            EvalSolveError::MissingInput { span, .. } => *span,
            EvalSolveError::RegisterOutOfBounds { span, .. } => *span,
            EvalSolveError::UninitializedRegister { span, .. } => *span,
            EvalSolveError::OutputTooSmall { span, .. } => *span,
            EvalSolveError::SingularTargetAssignment { span, .. } => *span,
            EvalSolveError::InvalidRow { span, .. } => *span,
            EvalSolveError::Scalarization { span, .. } => *span,
            EvalSolveError::ShapeContract { span, .. } => *span,
            _ => None,
        }
    }

    /// Gives the error a position where its kind accepts one and none is known.
    pub fn with_source_span(self, span: Option<Span>) -> (r: EvalSolveError)
        ensures
            r@ == self@.with_source_span(span),
    {
        match self {
            EvalSolveError::MissingInput { vector, index, len, span: None } =>
                EvalSolveError::MissingInput { vector, index, len, span },
            EvalSolveError::RegisterOutOfBounds { access, register, len, span: None } =>
                EvalSolveError::RegisterOutOfBounds { access, register, len, span },
            EvalSolveError::UninitializedRegister { register, span: None } =>
                EvalSolveError::UninitializedRegister { register, span },
            EvalSolveError::OutputTooSmall { required, len, span: None } =>
                EvalSolveError::OutputTooSmall { required, len, span },
            EvalSolveError::SingularTargetAssignment {
                row,
                target_y_index,
                coefficient,
                span: None,
            } => EvalSolveError::SingularTargetAssignment { row, target_y_index, coefficient, span },
            EvalSolveError::InvalidRow { message, span: None } =>
                EvalSolveError::InvalidRow { message, span },
            other => other,
        }
    }

    /// The message of the error. `first` and `second` are the renderings of
    /// the numbers that its kind carries, in field order; kinds without
    /// numbers ignore them.
    pub fn message(&self, first: &str, second: &str) -> (out: String)
        ensures
            out@ == self@.message(first@, second@),
    {
        let mut out: String;
        match self {
            EvalSolveError::ExternalTable { operation, column, reason, .. } => {
                out = String::from_str("external table ");
                out.append(operation);
                out.append(" failed for table id ");
                out.append(first);
                if column.is_some() {
                    out.append(" column ");
                    out.append(second);
                }
                out.append(": ");
                out.append(reason.as_str());
            },
            EvalSolveError::MissingInput { vector, index, len, .. } => {
                out = String::from_str("missing ");
                out.append(vector);
                out.append("[");
                push_usize(&mut out, *index);
                out.append("] while evaluating Solve-IR row; vector length is ");
                push_usize(&mut out, *len);
            },
            EvalSolveError::RegisterOutOfBounds { access, register, len, .. } => {
                out = String::from_str("cannot ");
                out.append(access);
                out.append(" Solve-IR register r");
                push_nat(&mut out, *register as u64);
                out.append("; register file length is ");
                push_usize(&mut out, *len);
            },
            EvalSolveError::UninitializedRegister { register, .. } => {
                out = String::from_str("cannot read uninitialized Solve-IR register r");
                push_nat(&mut out, *register as u64);
            },
            EvalSolveError::OutputTooSmall { required, len, .. } => {
                out =
                String::from_str("output buffer too small while evaluating Solve-IR row block: ");
                push_usize(&mut out, *len);
                out.append(" < ");
                push_usize(&mut out, *required);
            },
            EvalSolveError::UpdateRowTargetMismatch { rows, targets } => {
                out = String::from_str("update RHS row count ");
                push_usize(&mut out, *rows);
                out.append(" does not match target count ");
                push_usize(&mut out, *targets);
            },
            EvalSolveError::UpdateDidNotConverge { max_iters, .. } => {
                out = String::from_str("update equations did not converge at t=");
                out.append(first);
                out.append(" after ");
                push_usize(&mut out, *max_iters);
                out.append(" iterations");
            },
            EvalSolveError::SingularTargetAssignment { row, target_y_index, .. } => {
                out = String::from_str("cannot isolate target y[");
                push_usize(&mut out, *target_y_index);
                out.append("] from Solve-IR row ");
                push_usize(&mut out, *row);
                out.append(": singular coefficient ");
                out.append(first);
            },
            EvalSolveError::EventActionConditionMismatch { rows, actions } => {
                out = String::from_str("event action condition row count ");
                push_usize(&mut out, *rows);
                out.append(" does not match event action count ");
                push_usize(&mut out, *actions);
            },
            EvalSolveError::MissingRuntimeState { operation } => {
                out =
                String::from_str("missing simulation runtime state while evaluating Solve-IR ");
                out.append(operation);
            },
            EvalSolveError::RandomStateProjectionOutOfBounds { index, len } => {
                out = String::from_str("random state projection index ");
                push_usize(&mut out, *index);
                out.append(" is out of bounds for state length ");
                push_usize(&mut out, *len);
            },
            EvalSolveError::InvalidLinearOp { helper, op } => {
                out = String::from_str("Solve-IR ");
                out.append(helper);
                out.append(" helper cannot evaluate ");
                out.append(op);
                out.append(" op");
            },
            EvalSolveError::InvalidRow { message, .. } => {
                out = String::from_str("invalid Solve-IR row: ");
                out.append(message.as_str());
            },
            EvalSolveError::Scalarization { message, .. } => {
                out = String::from_str("Solve-IR scalarization failed: ");
                out.append(message.as_str());
            },
            EvalSolveError::ShapeContract { message, .. } => {
                out = String::from_str("Solve-IR shape contract failed: ");
                out.append(message.as_str());
            },
        }
        out
    }
}

/// An invalid-row error without a position.
pub fn invalid_row(message: String) -> (e: EvalSolveError)
    ensures
        e@ == (EvalErrorView::InvalidRow { message: message@, span: None }),
{
    EvalSolveError::InvalidRow { message, span: None }
}

/// Whether two errors are of one kind and say the same but for the position.
pub open spec fn say_the_same(a: EvalErrorView, b: EvalErrorView) -> bool {
    match (a, b) {
        (
            EvalErrorView::MissingInput { vector: v, index: i, len: n, .. },
            EvalErrorView::MissingInput { vector, index, len, .. },
        ) => v == vector && i == index && n == len,
        (
            EvalErrorView::RegisterOutOfBounds { access: a, register: r, len: n, .. },
            EvalErrorView::RegisterOutOfBounds { access, register, len, .. },
        ) => a == access && r == register && n == len,
        (
            EvalErrorView::UninitializedRegister { register: r, .. },
            EvalErrorView::UninitializedRegister { register, .. },
        ) => r == register,
        (
            EvalErrorView::OutputTooSmall { required: r, len: n, .. },
            EvalErrorView::OutputTooSmall { required, len, .. },
        ) => r == required && n == len,
        (
            EvalErrorView::SingularTargetAssignment {
                row: r,
                target_y_index: t,
                coefficient: c,
                ..
            },
            EvalErrorView::SingularTargetAssignment { row, target_y_index, coefficient, .. },
        ) => r == row && t == target_y_index && c == coefficient,
        (
            EvalErrorView::InvalidRow { message: m, .. },
            EvalErrorView::InvalidRow { message, .. },
        ) => m == message,
        _ => a == b,
    }
}

/// A position is filled in where evaluation of a row found the error and it has none yet,
/// and changes nothing else; a position that is there stays.
pub proof fn law_positions_are_filled_in(e: EvalErrorView, span: Option<Span>)
    ensures
        e.source_span() is Some ==> e.with_source_span(span) == e,
        say_the_same(e, e.with_source_span(span)),
        e.source_span() is None && (e is MissingInput || e is RegisterOutOfBounds
            || e is UninitializedRegister || e is OutputTooSmall || e is SingularTargetAssignment
            || e is InvalidRow) ==> e.with_source_span(span).source_span() == span,
{
}

} // verus!
