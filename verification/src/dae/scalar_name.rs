//! Names that carry subscripts in brackets: reading them and taking them off.
use crate::ir::name::{
    path_segments, ComponentPath, ComponentRefPart, ComponentReference, ReferencePartView,
    ReferenceView,
};
use crate::span::Span;
use crate::text::{chars_of, owned, views};
use vstd::prelude::*;

verus! {

/// The value of a decimal digit.
pub open spec fn digit_of(c: char) -> Option<nat> {
    if '0' <= c <= '9' {
        Some((c as int - '0' as int) as nat)
    } else {
        None
    }
}

/// The number that a non-empty run of decimal digits stands for.
pub open spec fn nat_of(s: Seq<char>) -> Option<nat>
    decreases s.len(),
{
    if s.len() == 0 {
        None
    } else if s.len() == 1 {
        digit_of(s[0])
    } else {
        match (nat_of(s.drop_last()), digit_of(s.last())) {
            (Some(high), Some(low)) => Some(10 * high + low),
            _ => None,
        }
    }
}

/// The number that decimal digits with an optional minus sign stand for.
pub open spec fn int_of(s: Seq<char>) -> Option<i64> {
    let value = if s.len() > 0 && s[0] == '-' {
        match nat_of(s.skip(1)) {
            Some(n) => Some(-(n as int)),
            None => None,
        }
    } else {
        match nat_of(s) {
            Some(n) => Some(n as int),
            None => None,
        }
    };
    match value {
        Some(v) => if i64::MIN <= v <= i64::MAX {
            Some(v as i64)
        } else {
            None
        },
        None => None,
    }
}

/// The numbers that a list, separated by commas, stands for.
pub open spec fn ints_in(s: Seq<char>) -> Option<Seq<i64>>
    decreases s.len(),
{
    let comma = last_position(s, ',', s.len() as int);
    if !(0 <= comma < s.len()) {
        match int_of(s) {
            Some(v) => Some(seq![v]),
            None => None,
        }
    } else {
        match (ints_in(s.take(comma)), int_of(s.skip(comma + 1))) {
            (Some(front), Some(v)) => Some(front.push(v)),
            _ => None,
        }
    }
}

/// The last position before `end` at which a character stands, or -1.
pub open spec fn last_position(s: Seq<char>, c: char, end: int) -> int
    decreases end,
{
    if end <= 0 || end > s.len() {
        -1
    } else if s[end - 1] == c {
        end - 1
    } else {
        last_position(s, c, end - 1)
    }
}

pub proof fn lemma_last_position(s: Seq<char>, c: char, end: int)
    ensures
        -1 <= last_position(s, c, end),
        0 <= end <= s.len() ==> last_position(s, c, end) < end || end == 0,
        last_position(s, c, end) >= 0 ==> last_position(s, c, end) < s.len() && s[last_position(
            s,
            c,
            end,
        )] == c,
    decreases end,
{
    if !(end <= 0 || end > s.len()) && s[end - 1] != c {
        lemma_last_position(s, c, end - 1);
    }
}

/// A name that ends in subscripts: what stands before them, and they.
///
/// The subscripts are numbers separated by commas between the last opening
/// bracket and a closing one at the very end; something stands before them.
pub open spec fn scalar_parts(s: Seq<char>) -> Option<(Seq<char>, Seq<i64>)> {
    let open = last_position(s, '[', s.len() as int);
    if s.len() > 0 && s.last() == ']' && open > 0 {
        match ints_in(s.subrange(open + 1, s.len() - 1)) {
            Some(subs) => Some((s.take(open), subs)),
            None => None,
        }
    } else {
        None
    }
}

/// A name without the subscripts at its end, and all of these in order.
pub open spec fn encoded_parts(s: Seq<char>) -> (Seq<char>, Seq<i64>)
    decreases s.len(),
{
    match scalar_parts(s) {
        Some((base, subs)) => {
            if base.len() < s.len() {
                let (stem, front) = encoded_parts(base);
                (stem, front + subs)
            } else {
                (s, Seq::empty())
            }
        },
        None => (s, Seq::empty()),
    }
}

fn find_last(chars: &Vec<char>, c: char, end: usize) -> (r: Option<usize>)
    requires
        end <= chars@.len(),
    ensures
        match r {
            Some(i) => i == last_position(chars@, c, end as int) && i < end,
            None => last_position(chars@, c, end as int) == -1,
        },
{
    let mut i: usize = end;
    while i > 0
        invariant
            i <= end <= chars@.len(),
            last_position(chars@, c, end as int) == last_position(chars@, c, i as int),
        decreases i,
    {
        if chars[i - 1] == c {
            return Some(i - 1);
        }
        i = i - 1;
    }
    None
}

/// Digits beyond the largest magnitude of an `i64` are no number here.
spec fn capped(n: Option<nat>) -> Option<nat> {
    match n {
        Some(v) => if v <= 9223372036854775808 {
            Some(v)
        } else {
            None
        },
        None => None,
    }
}

fn read_nat(chars: &Vec<char>, from: usize, to: usize) -> (r: Option<u64>)
    requires
        from <= to <= chars@.len(),
    ensures
        match r {
            Some(v) => capped(nat_of(chars@.subrange(from as int, to as int))) == Some(v as nat),
            None => capped(nat_of(chars@.subrange(from as int, to as int))) is None,
        },
    decreases to - from,
{
    let ghost s = chars@.subrange(from as int, to as int);
    if from == to {
        return None;
    }
    let c = chars[to - 1];
    assert(s.last() == c);
    if !('0' <= c && c <= '9') {
        return None;
    }
    let low: u64 = (c as u64) - ('0' as u64);
    if to - from == 1 {
        assert(s[0] == c);
        return Some(low);
    }
    assert(s.drop_last() =~= chars@.subrange(from as int, to - 1));
    match read_nat(chars, from, to - 1) {
        Some(high) => {
            if high > 922337203685477580u64 || (high == 922337203685477580u64 && low > 8) {
                None
            } else {
                Some(high * 10 + low)
            }
        },
        None => None,
    }
}

fn read_int(chars: &Vec<char>, from: usize, to: usize) -> (r: Option<i64>)
    requires
        from <= to <= chars@.len(),
    ensures
        r == int_of(chars@.subrange(from as int, to as int)),
{
    let ghost s = chars@.subrange(from as int, to as int);
    if from < to && chars[from] == '-' {
        assert(s.skip(1) =~= chars@.subrange(from + 1, to as int));
        assert(s[0] == '-');
        match read_nat(chars, from + 1, to) {
            Some(v) => {
                if v == 9223372036854775808u64 {
                    Some(i64::MIN)
                } else {
                    Some(-(v as i64))
                }
            },
            None => None,
        }
    } else {
        assert(s.len() > 0 ==> s[0] == chars@[from as int]);
        match read_nat(chars, from, to) {
            Some(v) => {
                if v == 9223372036854775808u64 {
                    None
                } else {
                    Some(v as i64)
                }
            },
            None => None,
        }
    }
}

proof fn lemma_last_position_in_subrange(s: Seq<char>, c: char, from: int, to: int, end: int)
    requires
        0 <= from <= end <= to <= s.len(),
    ensures
        last_position(s.subrange(from, to), c, end - from) == if last_position(s, c, end) >= from {
            last_position(s, c, end) - from
        } else {
            -1
        },
    decreases end - from,
{
    lemma_last_position(s, c, end);
    if end > from {
        assert(s.subrange(from, to)[end - from - 1] == s[end - 1]);
        if s[end - 1] != c {
            lemma_last_position_in_subrange(s, c, from, to, end - 1);
        }
    }
}

fn read_ints(chars: &Vec<char>, from: usize, to: usize) -> (r: Option<Vec<i64>>)
    requires
        from <= to <= chars@.len(),
    ensures
        match r {
            Some(v) => ints_in(chars@.subrange(from as int, to as int)) == Some(v@),
            None => ints_in(chars@.subrange(from as int, to as int)) is None,
        },
    decreases to - from,
{
    let ghost s = chars@.subrange(from as int, to as int);
    proof {
        lemma_last_position_in_subrange(chars@, ',', from as int, to as int, to as int);
        lemma_last_position(s, ',', s.len() as int);
    }
    let comma = find_last(chars, ',', to);
    let position: usize = match comma {
        Some(i) => i,
        None => 0,
    };
    if comma.is_some() && position >= from {
        assert(s.take(position - from) =~= chars@.subrange(from as int, position as int));
        assert(s.skip(position - from + 1) =~= chars@.subrange(position + 1, to as int));
        match read_ints(chars, from, position) {
            Some(mut front) => {
                match read_int(chars, position + 1, to) {
                    Some(v) => {
                        front.push(v);
                        Some(front)
                    },
                    None => None,
                }
            },
            None => None,
        }
    } else {
        match read_int(chars, from, to) {
            Some(v) => {
                let mut list: Vec<i64> = Vec::new();
                list.push(v);
                assert(list@ =~= seq![v]);
                Some(list)
            },
            None => None,
        }
    }
}

/// Reads a name that ends in subscripts.
pub fn parse_scalar_name(s: &str) -> (r: Option<(String, Vec<i64>)>)
    ensures
        match r {
            Some((base, subs)) => scalar_parts(s@) == Some((base@, subs@)),
            None => scalar_parts(s@) is None,
        },
{
    let chars = chars_of(s);
    let n: usize = chars.len();
    if n == 0 || chars[n - 1] != ']' {
        return None;
    }
    proof {
        lemma_last_position(s@, '[', n as int);
    }
    match find_last(&chars, '[', n) {
        Some(open) => {
            if open == 0 {
                return None;
            }
            assert(s@[open as int] == '[');
            assert(open < n - 1);
            match read_ints(&chars, open + 1, n - 1) {
                Some(subs) => {
                    let base = owned(s.substring_char(0, open));
                    assert(base@ =~= s@.take(open as int));
                    Some((base, subs))
                },
                None => None,
            }
        },
        None => None,
    }
}

/// Takes all subscripts off the end of a name.
pub fn split_encoded(s: &str) -> (r: (String, Vec<i64>))
    ensures
        encoded_parts(s@) == (r.0@, r.1@),
    decreases s@.len(),
{
    match parse_scalar_name(s) {
        Some((base, subs)) => {
            proof {
                lemma_last_position(s@, '[', s@.len() as int);
            }
            let (stem, mut all) = split_encoded(base.as_str());
            let ghost front = all@;
            let mut i: usize = 0;
            assert(all@ =~= front + subs@.take(0));
            while i < subs.len()
                invariant
                    i <= subs.len(),
                    all@ == front + subs@.take(i as int),
                decreases subs.len() - i,
            {
                all.push(subs[i]);
                i = i + 1;
                assert(all@ =~= front + subs@.take(i as int));
            }
            assert(subs@.take(i as int) =~= subs@);
            (stem, all)
        },
        None => {
            let all: Vec<i64> = Vec::new();
            assert(all@ =~= Seq::<i64>::empty());
            (owned(s), all)
        },
    }
}

/// The characters of the first `n` that stand outside brackets, and how many
/// brackets are open then.
pub open spec fn outside_brackets(s: Seq<char>, n: int) -> (Seq<char>, nat)
    decreases n,
{
    if n <= 0 {
        (Seq::empty(), 0)
    } else {
        let (kept, depth) = outside_brackets(s, n - 1);
        let c = s[n - 1];
        if c == '[' {
            (kept, depth + 1)
        } else if depth > 0 {
            (
                kept,
                if c == ']' {
                    (depth - 1) as nat
                } else {
                    depth
                },
            )
        } else {
            (kept.push(c), depth)
        }
    }
}

/// A name without anything in brackets; nothing where nothing is left.
pub open spec fn base_name(s: Seq<char>) -> Option<Seq<char>> {
    let kept = outside_brackets(s, s.len() as int).0;
    if kept.len() == 0 {
        None
    } else {
        Some(kept)
    }
}

/// A name without anything in brackets.
pub fn component_base_name(s: &str) -> (r: Option<String>)
    ensures
        match r {
            Some(base) => base_name(s@) == Some(base@),
            None => base_name(s@) is None,
        },
{
    let chars = chars_of(s);
    let mut kept = String::new();
    let mut depth: usize = 0;
    let mut i: usize = 0;
    assert(kept@ =~= Seq::<char>::empty());
    while i < chars.len()
        invariant
            i <= chars.len(),
            chars@ == s@,
            depth <= i,
            outside_brackets(s@, i as int) == (kept@, depth as nat),
        decreases chars.len() - i,
    {
        let c = chars[i];
        if c == '[' {
            depth = depth + 1;
        } else if depth > 0 {
            if c == ']' {
                depth = depth - 1;
            }
        } else {
            kept.append(s.substring_char(i, i + 1));
            assert(kept@ =~= outside_brackets(s@, i as int).0.push(c));
        }
        i = i + 1;
    }
    if kept.as_str().unicode_len() == 0 {
        None
    } else {
        Some(kept)
    }
}

/// The segments of a flat name as parts of a reference, the first `n` of them;
/// nothing where a bracket is left that holds no subscripts.
pub open spec fn flat_parts(segments: Seq<Seq<char>>, n: int, span: Span) -> Option<
    Seq<ReferencePartView>,
>
    decreases n,
{
    if n <= 0 {
        Some(Seq::empty())
    } else {
        let (stem, subs) = encoded_parts(segments[n - 1]);
        match flat_parts(segments, n - 1, span) {
            Some(front) => if stem.contains('[') {
                None
            } else {
                Some(front.push(ReferencePartView { ident: stem, subs, span }))
            },
            None => None,
        }
    }
}

/// The reference that a flat name spells out.
pub open spec fn flat_reference(name: Seq<char>, span: Span) -> Option<ReferenceView> {
    let segments = path_segments(name);
    match flat_parts(segments, segments.len() as int, span) {
        Some(parts) => if parts.len() == 0 {
            None
        } else {
            Some(ReferenceView { local: false, parts, def_id: None, span })
        },
        None => None,
    }
}

fn has_char(s: &str, c: char) -> (r: bool)
    ensures
        r == s@.contains(c),
{
    let chars = chars_of(s);
    let mut i: usize = 0;
    while i < chars.len()
        invariant
            i <= chars.len(),
            chars@ == s@,
            forall|k: int| 0 <= k < i ==> chars@[k] != c,
        decreases chars.len() - i,
    {
        if chars[i] == c {
            return true;
        }
        i = i + 1;
    }
    false
}

proof fn lemma_flat_parts_fail(segments: Seq<Seq<char>>, i: int, n: int, span: Span)
    requires
        0 <= i <= n,
        flat_parts(segments, i, span) is None,
    ensures
        flat_parts(segments, n, span) is None,
    decreases n,
{
    if i < n {
        lemma_flat_parts_fail(segments, i, n - 1, span);
    }
}

/// The reference that a flat name spells out.
pub fn component_reference_from_flat_name(name: &str, span: Span) -> (r: Option<
    ComponentReference,
>)
    ensures
        match r {
            Some(reference) => flat_reference(name@, span) == Some(reference@),
            None => flat_reference(name@, span) is None,
        },
{
    let path = ComponentPath::from_flat_path(name);
    let mut parts: Vec<ComponentRefPart> = Vec::new();
    let mut i: usize = 0;
    let ghost segments = path_segments(name@);
    assert(parts@.map_values(|p: ComponentRefPart| p@) =~= Seq::<ReferencePartView>::empty());
    while i < path.parts.len()
        invariant
            i <= path.parts.len(),
            views(path.parts@) == segments,
            segments == path_segments(name@),
            flat_parts(segments, i as int, span) == Some(
                parts@.map_values(|p: ComponentRefPart| p@),
            ),
        decreases path.parts.len() - i,
    {
        assert(segments[i as int] == path.parts@[i as int]@);
        let (stem, subs) = split_encoded(path.parts[i].as_str());
        if has_char(stem.as_str(), '[') {
            proof {
                lemma_flat_parts_fail(segments, i + 1, segments.len() as int, span);
            }
            return None;
        }
        let ghost before = parts@.map_values(|p: ComponentRefPart| p@);
        let part = ComponentRefPart { ident: stem, subs, span };
        let ghost part_content = part@;
        parts.push(part);
        assert(parts@.map_values(|p: ComponentRefPart| p@) =~= before.push(part_content));
        i = i + 1;
    }
    if parts.len() == 0 {
        return None;
    }
    Some(ComponentReference { local: false, parts, def_id: None, span })
}

} // verus!
