//! Subscripts that are written behind a name are read back.
use crate::dae::scalar_name::{
    base_name, digit_of, encoded_parts, int_of, ints_in, last_position, nat_of, outside_brackets,
    scalar_parts,
};
use crate::ir::name::subscripts_text;
use crate::text::{digit_text, int_text, join_text, nat_text};
use vstd::prelude::*;

verus! {

/// Whether a text is made of digits and minus signs.
pub open spec fn is_numeral(t: Seq<char>) -> bool {
    t.len() > 0 && forall|i: int|
        0 <= i < t.len() ==> ('0' <= (#[trigger] t[i]) <= '9' || t[i] == '-')
}

proof fn lemma_digit(d: nat)
    requires
        d < 10,
    ensures
        digit_text(d).len() == 1,
        digit_of(digit_text(d)[0]) == Some(d),
        '0' <= digit_text(d)[0] <= '9',
{
    reveal_strlit("0");
    reveal_strlit("1");
    reveal_strlit("2");
    reveal_strlit("3");
    reveal_strlit("4");
    reveal_strlit("5");
    reveal_strlit("6");
    reveal_strlit("7");
    reveal_strlit("8");
    reveal_strlit("9");
}

proof fn lemma_nat_read_back(n: nat)
    ensures
        nat_of(nat_text(n)) == Some(n),
        is_numeral(nat_text(n)),
        nat_text(n)[0] != '-',
    decreases n,
{
    let t = nat_text(n);
    if n < 10 {
        lemma_digit(n);
    } else {
        lemma_nat_read_back(n / 10);
        lemma_digit(n % 10);
        let high = nat_text(n / 10);
        let low = digit_text(n % 10);
        assert(t.drop_last() =~= high);
        assert(t.last() == low[0]);
        assert(t[0] == high[0]);
        assert forall|i: int| 0 <= i < t.len() implies ('0' <= (#[trigger] t[i]) <= '9' || t[i]
            == '-') by {
            if i < high.len() {
                assert(t[i] == high[i]);
            }
        }
    }
}

proof fn lemma_int_read_back(v: i64)
    ensures
        int_of(int_text(v as int)) == Some(v),
        is_numeral(int_text(v as int)),
{
    let t = int_text(v as int);
    reveal_strlit("-");
    if v < 0 {
        let n = (-(v as int)) as nat;
        lemma_nat_read_back(n);
        assert(t.skip(1) =~= nat_text(n));
        assert forall|i: int| 0 <= i < t.len() implies ('0' <= (#[trigger] t[i]) <= '9' || t[i]
            == '-') by {
            if i > 0 {
                assert(t[i] == nat_text(n)[i - 1]);
            }
        }
    } else {
        lemma_nat_read_back(v as nat);
    }
}

proof fn lemma_last_at(s: Seq<char>, c: char, end: int, at: int)
    requires
        -1 <= at < end <= s.len() || (at == -1 && end == 0),
        at >= 0 ==> s[at] == c,
        forall|i: int| at < i < end ==> #[trigger] s[i] != c,
    ensures
        last_position(s, c, end) == at,
    decreases end,
{
    if end > 0 && end - 1 > at {
        assert(s[end - 1] != c);
        lemma_last_at(s, c, end - 1, at);
    }
}

/// The numerals of a list of integers.
pub open spec fn numerals(subs: Seq<i64>) -> Seq<Seq<char>> {
    subs.map_values(|i: i64| int_text(i as int))
}

/// Whether a text is made of digits, minus signs and commas.
spec fn is_list(t: Seq<char>) -> bool {
    forall|i: int|
        0 <= i < t.len() ==> ('0' <= (#[trigger] t[i]) <= '9' || t[i] == '-' || t[i] == ',')
}

proof fn lemma_list_read_back(subs: Seq<i64>)
    requires
        subs.len() > 0,
    ensures
        ints_in(join_text(numerals(subs), ","@)) == Some(subs),
        is_list(join_text(numerals(subs), ","@)),
    decreases subs.len(),
{
    let texts = numerals(subs);
    let s = join_text(texts, ","@);
    let last = texts.last();
    lemma_int_read_back(subs.last());
    assert(last == int_text(subs.last() as int));
    if subs.len() == 1 {
        assert(s == last);
        lemma_last_at(s, ',', s.len() as int, -1);
        assert(seq![subs.last()] =~= subs);
    } else {
        reveal_strlit(",");
        let front = join_text(texts.drop_last(), ","@);
        assert(texts.drop_last() =~= numerals(subs.drop_last()));
        lemma_list_read_back(subs.drop_last());
        let at = front.len() as int;
        assert(s == front + ","@ + last);
        assert(s[at] == ',');
        assert forall|i: int| at < i < s.len() implies #[trigger] s[i] != ',' by {
            assert(s[i] == last[i - at - 1]);
        }
        lemma_last_at(s, ',', s.len() as int, at);
        assert(s.take(at) =~= front);
        assert(s.skip(at + 1) =~= last);
        assert(subs.drop_last().push(subs.last()) =~= subs);
        assert forall|i: int| 0 <= i < s.len() implies ('0' <= (#[trigger] s[i]) <= '9' || s[i]
            == '-' || s[i] == ',') by {
            if i < at {
                assert(s[i] == front[i]);
            } else if i > at {
                assert(s[i] == last[i - at - 1]);
            }
        }
    }
}

/// Subscripts that are written behind a name, in brackets and with commas between them,
/// are read back, and so is the name; and those that are already behind the name come
/// before them.
pub proof fn law_subscripts_are_read_back(name: Seq<char>, subs: Seq<i64>)
    requires
        name.len() > 0,
        subs.len() > 0,
    ensures
        scalar_parts(name + subscripts_text(subs)) == Some((name, subs)),
        encoded_parts(name + subscripts_text(subs)) == (
            encoded_parts(name).0,
            encoded_parts(name).1 + subs,
        ),
{
    reveal_strlit("[");
    reveal_strlit("]");
    lemma_list_read_back(subs);
    let list = join_text(numerals(subs), ","@);
    assert(subscripts_text(subs) == "["@ + list + "]"@);
    let s = name + subscripts_text(subs);
    let open = name.len() as int;
    assert(s[open] == '[');
    assert forall|i: int| open < i < s.len() implies #[trigger] s[i] != '[' by {
        if i < s.len() - 1 {
            assert(s[i] == list[i - open - 1]);
        } else {
            assert(s[i] == ']');
        }
    }
    lemma_last_at(s, '[', s.len() as int, open);
    assert(s.subrange(open + 1, s.len() - 1) =~= list);
    assert(s.take(open) =~= name);
    assert(s.last() == ']');
}

/// A name that does not end in a bracket has no subscripts at its end.
pub proof fn law_plain_names_are_whole(name: Seq<char>)
    requires
        name.len() == 0 || name.last() != ']',
    ensures
        encoded_parts(name) == (name, Seq::<i64>::empty()),
{
}

proof fn lemma_same_outside(a: Seq<char>, b: Seq<char>, n: int)
    requires
        0 <= n <= a.len(),
    ensures
        outside_brackets(a + b, n) == outside_brackets(a, n),
    decreases n,
{
    if n > 0 {
        lemma_same_outside(a, b, n - 1);
        assert((a + b)[n - 1] == a[n - 1]);
    }
}

proof fn lemma_inside(s: Seq<char>, from: int, n: int)
    requires
        0 <= from <= n <= s.len(),
        outside_brackets(s, from).1 == 1,
        forall|i: int| from <= i < n ==> #[trigger] s[i] != '[' && s[i] != ']',
    ensures
        outside_brackets(s, n) == outside_brackets(s, from),
    decreases n - from,
{
    if from < n {
        lemma_inside(s, from, n - 1);
        assert(s[n - 1] != '[' && s[n - 1] != ']');
    }
}

proof fn lemma_no_brackets(s: Seq<char>, n: int)
    requires
        0 <= n <= s.len(),
        forall|i: int| 0 <= i < s.len() ==> #[trigger] s[i] != '[',
    ensures
        outside_brackets(s, n) == (s.take(n), 0nat),
    decreases n,
{
    if n > 0 {
        lemma_no_brackets(s, n - 1);
        assert(s[n - 1] != '[');
        assert(s.take(n) =~= s.take(n - 1).push(s[n - 1]));
    } else {
        assert(s.take(0) =~= Seq::<char>::empty());
    }
}

/// The base of a name is the same with subscripts behind it as without, where the brackets
/// in it are closed; and a name without brackets is its own base.
pub proof fn law_subscripts_are_no_part_of_the_base(name: Seq<char>, subs: Seq<i64>)
    requires
        subs.len() > 0,
    ensures
        outside_brackets(name, name.len() as int).1 == 0 ==> base_name(
            name + subscripts_text(subs),
        ) == base_name(name),
        name.len() > 0 && (forall|i: int| 0 <= i < name.len() ==> #[trigger] name[i] != '[')
            ==> base_name(name) == Some(name),
{
    reveal_strlit("[");
    reveal_strlit("]");
    let k = name.len() as int;
    if outside_brackets(name, k).1 == 0 {
        lemma_list_read_back(subs);
        let list = join_text(numerals(subs), ","@);
        assert(subscripts_text(subs) == "["@ + list + "]"@);
        let tail = subscripts_text(subs);
        let s = name + tail;
        let n = s.len() as int;
        lemma_same_outside(name, tail, k);
        assert(s[k] == '[');
        assert(outside_brackets(s, k + 1) == (outside_brackets(name, k).0, 1nat));
        assert forall|i: int| k + 1 <= i < n - 1 implies #[trigger] s[i] != '[' && s[i] != ']' by {
            assert(s[i] == list[i - k - 1]);
        }
        lemma_inside(s, k + 1, n - 1);
        assert(s[n - 1] == ']');
    }
    if name.len() > 0 && (forall|i: int| 0 <= i < name.len() ==> #[trigger] name[i] != '[') {
        lemma_no_brackets(name, k);
        assert(name.take(k) =~= name);
    }
}

} // verus!
