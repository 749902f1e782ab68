//! What an event asks of a simulation.
use crate::solve::error::{EvalErrorView, EvalSolveError, Real};
use crate::solve::inputs::ScalarProgramBlock;
use crate::solve::linear_op::LinearOp;
use crate::text::owned;
use vstd::prelude::*;

verus! {

/// What an active event action does.
#[derive(Clone, Copy, Debug, PartialEq, Eq, Structural)]
pub enum SolveEventActionKind {
    Assert,
    Terminate,
}

/// A part of a message: a text, or a number that a row computes.
#[derive(Debug)]
pub enum SolveEventMessagePart {
    Text(String),
    Number(Vec<LinearOp>),
}

pub enum PartView {
    Text(Seq<char>),
    Number,
}

impl View for SolveEventMessagePart {
    type V = PartView;

    open spec fn view(&self) -> PartView {
        match *self {
            SolveEventMessagePart::Text(s) => PartView::Text(s@),
            SolveEventMessagePart::Number(_) => PartView::Number,
        }
    }
}

/// An action and the message that goes with it.
#[derive(Debug)]
pub struct SolveEventAction {
    pub kind: SolveEventActionKind,
    pub message: Vec<SolveEventMessagePart>,
}

/// Actions and their conditions: one value of the block for each action.
pub struct SolveEventPartition {
    pub actions: Vec<SolveEventAction>,
    pub action_conditions: ScalarProgramBlock,
}

/// What an event asks of a simulation.
#[derive(Debug)]
pub enum EventActionRequest {
    Continue,
    AssertionFailed { message: String },
    Terminate { message: String },
}

pub enum RequestView {
    Continue,
    AssertionFailed { message: Seq<char> },
    Terminate { message: Seq<char> },
}

impl View for EventActionRequest {
    type V = RequestView;

    open spec fn view(&self) -> RequestView {
        match *self {
            EventActionRequest::Continue => RequestView::Continue,
            EventActionRequest::AssertionFailed { message } => RequestView::AssertionFailed {
                message: message@,
            },
            EventActionRequest::Terminate { message } => RequestView::Terminate {
                message: message@,
            },
        }
    }
}

/// Whether a condition holds: its number is not one half or less. A value that is
/// no number counts as holding.
pub open spec fn condition_holds(value: Real) -> bool {
    if value.bits < 0x8000_0000_0000_0000 {
        value.bits > 0x3FE0_0000_0000_0000
    } else {
        value.bits > 0xFFF0_0000_0000_0000
    }
}

fn is_active(value: Real) -> (r: bool)
    ensures
        r == condition_holds(value),
{
    if value.bits < 0x8000_0000_0000_0000 {
        value.bits > 0x3FE0_0000_0000_0000
    } else {
        value.bits > 0xFFF0_0000_0000_0000
    }
}

/// Whether the conditions of the actions are to be computed: there is an action,
/// and a condition for each.
pub fn wants_conditions(actions: &Vec<SolveEventAction>, rows: usize) -> (r: Result<
    bool,
    EvalSolveError,
>)
    ensures
        match r {
            Ok(wanted) => wanted == (actions@.len() > 0) && (wanted ==> rows == actions@.len()),
            Err(e) => actions@.len() > 0 && rows != actions@.len() && e@ == (
            EvalErrorView::EventActionConditionMismatch {
                rows,
                actions: actions@.len() as usize,
            }),
        },
{
    if actions.len() == 0 {
        return Ok(false);
    }
    if rows != actions.len() {
        return Err(
            EvalSolveError::EventActionConditionMismatch { rows, actions: actions.len() },
        );
    }
    Ok(true)
}

/// Whether the first action whose condition holds is number `i`.
pub open spec fn is_first_active(values: Seq<Real>, i: int) -> bool {
    &&& 0 <= i < values.len()
    &&& condition_holds(values[i])
    &&& forall|j: int| 0 <= j < i ==> !condition_holds(#[trigger] values[j])
}

/// The first action whose condition holds. There has to be a condition for each
/// action.
pub fn select_event_action(actions: &Vec<SolveEventAction>, values: &[Real]) -> (r: Result<
    Option<usize>,
    EvalSolveError,
>)
    ensures
        match r {
            Err(e) => actions@.len() > 0 && values@.len() != actions@.len() && e@ == (
            EvalErrorView::EventActionConditionMismatch {
                rows: values@.len() as usize,
                actions: actions@.len() as usize,
            }),
            Ok(Some(i)) => values@.len() == actions@.len() && is_first_active(values@, i as int),
            Ok(None) => actions@.len() == 0 || (values@.len() == actions@.len() && forall|j: int|
                0 <= j < values@.len() ==> !condition_holds(#[trigger] values@[j])),
        },
{
    match wants_conditions(actions, values.len()) {
        Ok(true) => {},
        Ok(false) => {
            return Ok(None);
        },
        Err(e) => {
            return Err(e);
        },
    }
    let mut i: usize = 0;
    while i < values.len()
        invariant
            i <= values@.len(),
            values@.len() == actions@.len(),
            forall|j: int| 0 <= j < i ==> !condition_holds(#[trigger] values@[j]),
        decreases values.len() - i,
    {
        if is_active(values[i]) {
            return Ok(Some(i));
        }
        i = i + 1;
    }
    Ok(None)
}

/// Number of numbers among the first `n` parts.
pub open spec fn number_count(parts: Seq<SolveEventMessagePart>, n: int) -> int
    decreases n,
{
    if n <= 0 {
        0
    } else {
        number_count(parts, n - 1) + if parts[n - 1] is Number {
            1int
        } else {
            0
        }
    }
}

/// The first `n` parts as text; the numbers take their texts in order.
pub open spec fn message_text(
    parts: Seq<SolveEventMessagePart>,
    numbers: Seq<String>,
    n: int,
) -> Seq<char>
    decreases n,
{
    if n <= 0 {
        ""@
    } else {
        message_text(parts, numbers, n - 1) + match parts[n - 1]@ {
            PartView::Text(s) => s,
            PartView::Number => numbers[number_count(parts, n - 1)]@,
        }
    }
}

proof fn lemma_number_count_grows(parts: Seq<SolveEventMessagePart>, k: int, n: int)
    requires
        0 <= k <= n,
    ensures
        0 <= number_count(parts, k) <= number_count(parts, n),
    decreases n,
{
    if k < n {
        lemma_number_count_grows(parts, k, n - 1);
    } else if 0 < n {
        lemma_number_count_grows(parts, k - 1, n - 1);
    }
}

/// A message made of its parts and the texts of its numbers.
pub fn event_message(parts: &Vec<SolveEventMessagePart>, numbers: &Vec<String>) -> (s: String)
    requires
        numbers@.len() == number_count(parts@, parts@.len() as int),
    ensures
        s@ == message_text(parts@, numbers@, parts@.len() as int),
{
    let mut s = owned("");
    let total: usize = numbers.len();
    let mut used: usize = 0;
    let mut i: usize = 0;
    while i < parts.len()
        invariant
            i <= parts@.len(),
            total == numbers@.len(),
            numbers@.len() == number_count(parts@, parts@.len() as int),
            used == number_count(parts@, i as int),
            s@ == message_text(parts@, numbers@, i as int),
        decreases parts.len() - i,
    {
        proof {
            lemma_number_count_grows(parts@, i + 1, parts@.len() as int);
        }
        match &parts[i] {
            SolveEventMessagePart::Text(text) => {
                s.append(text.as_str());
            },
            SolveEventMessagePart::Number(_) => {
                s.append(numbers[used].as_str());
                used = used + 1;
            },
        }
        i = i + 1;
    }
    s
}

/// What an active action asks of the simulation.
pub fn event_action_request(action: &SolveEventAction, numbers: &Vec<String>) -> (r:
    EventActionRequest)
    requires
        numbers@.len() == number_count(action.message@, action.message@.len() as int),
    ensures
        ({
            let message = message_text(
                action.message@,
                numbers@,
                action.message@.len() as int,
            );
            r@ == match action.kind {
                SolveEventActionKind::Assert => RequestView::AssertionFailed { message },
                SolveEventActionKind::Terminate => RequestView::Terminate { message },
            }
        }),
{
    let message = event_message(&action.message, numbers);
    match action.kind {
        SolveEventActionKind::Assert => EventActionRequest::AssertionFailed { message },
        SolveEventActionKind::Terminate => EventActionRequest::Terminate { message },
    }
}

} // verus!
