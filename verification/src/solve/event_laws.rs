//! What the conditions and messages of events say.
use crate::solve::error::Real;
use crate::solve::event::{condition_holds, message_text, number_count, PartView, SolveEventMessagePart};
use vstd::prelude::*;

verus! {

/// The binary exponent of a number, raised by 1023, without its sign.
pub open spec fn raised_exponent(v: Real) -> int {
    (v.bits as int / 0x10_0000_0000_0000) % 2048
}

/// The digits of a number behind the binary point.
pub open spec fn fraction(v: Real) -> int {
    v.bits as int % 0x10_0000_0000_0000
}

/// Whether a number has a minus sign.
pub open spec fn is_negative(v: Real) -> bool {
    v.bits >= 0x8000_0000_0000_0000
}

/// Whether a value is no number.
pub open spec fn is_no_number(v: Real) -> bool {
    raised_exponent(v) == 2047 && fraction(v) != 0
}

/// A condition holds where its value is above one half, and where it is no number. One half
/// is the number with exponent -1 and nothing behind the binary point.
pub proof fn law_conditions_hold_above_one_half(v: Real)
    ensures
        condition_holds(v) <==> is_no_number(v) || (!is_negative(v) && (raised_exponent(v) > 1022 || (
        raised_exponent(v) == 1022 && fraction(v) > 0))),
{
}

/// A message is empty without parts, a text alone is that text, and a number alone is its
/// text.
pub proof fn law_single_parts_are_themselves(part: SolveEventMessagePart, number: String)
    ensures
        message_text(Seq::empty(), Seq::empty(), 0).len() == 0,
        match part@ {
            PartView::Text(text) => message_text(seq![part], Seq::empty(), 1) == text,
            PartView::Number => message_text(seq![part], seq![number], 1) == number@,
        },
{
    reveal_strlit("");
    reveal_with_fuel(message_text, 2);
    reveal_with_fuel(number_count, 2);
    match part@ {
        PartView::Text(text) => {
            assert(message_text(seq![part], Seq::empty(), 1) =~= text);
        },
        PartView::Number => {
            assert(message_text(seq![part], seq![number], 1) =~= number@);
        },
    }
}

proof fn lemma_same_count(
    first: Seq<SolveEventMessagePart>,
    second: Seq<SolveEventMessagePart>,
    n: int,
)
    requires
        n <= second.len(),
    ensures
        0 <= n ==> number_count(first + second, first.len() + n) == number_count(
            first,
            first.len() as int,
        ) + number_count(second, n),
    decreases n,
{
    if n > 0 {
        lemma_same_count(first, second, n - 1);
        assert((first + second)[first.len() + n - 1] == second[n - 1]);
    } else if n == 0 {
        lemma_count_of_beginning(first, second, first.len() as int);
    }
}

proof fn lemma_count_of_beginning(
    first: Seq<SolveEventMessagePart>,
    second: Seq<SolveEventMessagePart>,
    n: int,
)
    requires
        n <= first.len(),
    ensures
        number_count(first + second, n) == number_count(first, n),
        0 <= number_count(first, n),
        n > 0 ==> number_count(first, n - 1) <= number_count(first, n),
    decreases n,
{
    if n > 0 {
        lemma_count_of_beginning(first, second, n - 1);
        assert((first + second)[n - 1] == first[n - 1]);
    }
}

proof fn lemma_beginning(
    first: Seq<SolveEventMessagePart>,
    second: Seq<SolveEventMessagePart>,
    ours: Seq<String>,
    theirs: Seq<String>,
    n: int,
)
    requires
        n <= first.len(),
        number_count(first, n) <= ours.len(),
    ensures
        message_text(first + second, ours + theirs, n) == message_text(first, ours, n),
    decreases n,
{
    if n > 0 {
        lemma_count_of_beginning(first, second, n);
        lemma_count_of_beginning(first, second, n - 1);
        lemma_beginning(first, second, ours, theirs, n - 1);
        assert((first + second)[n - 1] == first[n - 1]);
    }
}

proof fn lemma_end(
    first: Seq<SolveEventMessagePart>,
    second: Seq<SolveEventMessagePart>,
    ours: Seq<String>,
    theirs: Seq<String>,
    n: int,
)
    requires
        0 <= n <= second.len(),
        number_count(first, first.len() as int) == ours.len(),
        number_count(second, n) <= theirs.len(),
    ensures
        message_text(first + second, ours + theirs, first.len() + n) == message_text(
            first,
            ours,
            first.len() as int,
        ) + message_text(second, theirs, n),
    decreases n,
{
    if n > 0 {
        lemma_count_of_beginning(second, Seq::empty(), n);
        lemma_count_of_beginning(second, Seq::empty(), n - 1);
        lemma_end(first, second, ours, theirs, n - 1);
        lemma_same_count(first, second, n - 1);
        assert((first + second)[first.len() + n - 1] == second[n - 1]);
        assert(message_text(first + second, ours + theirs, first.len() + n) =~= message_text(
            first,
            ours,
            first.len() as int,
        ) + message_text(second, theirs, n));
    } else {
        reveal_strlit("");
        lemma_beginning(first, second, ours, theirs, first.len() as int);
        assert(message_text(second, theirs, 0) =~= Seq::empty());
    }
}

/// The message of parts that come after others is behind the message of those, and takes
/// the numbers that come after theirs.
pub proof fn law_messages_are_their_parts_in_order(
    first: Seq<SolveEventMessagePart>,
    second: Seq<SolveEventMessagePart>,
    ours: Seq<String>,
    theirs: Seq<String>,
)
    requires
        number_count(first, first.len() as int) == ours.len(),
        number_count(second, second.len() as int) == theirs.len(),
    ensures
        message_text(first + second, ours + theirs, (first + second).len() as int) == message_text(
            first,
            ours,
            first.len() as int,
        ) + message_text(second, theirs, second.len() as int),
{
    lemma_end(first, second, ours, theirs, second.len() as int);
}

} // verus!
