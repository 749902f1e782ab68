//! Texts with numbered gaps, and texts made of many pieces.
use crate::codegen::value::{Outcome, RenderError};
use crate::text::{chars_of, views};
use vstd::prelude::*;

verus! {

/// The number of a gap.
pub open spec fn gap_number(c: char) -> Option<int> {
    if '0' <= c <= '9' {
        Some(c as int - '0' as int)
    } else {
        None
    }
}

/// Whether a text starts with a gap that an argument fills: a digit in braces.
pub open spec fn starts_with_gap(t: Seq<char>, args: Seq<Seq<char>>) -> bool {
    &&& t.len() >= 3
    &&& t[0] == '{'
    &&& t[2] == '}'
    &&& gap_number(t[1]) is Some
    &&& gap_number(t[1])->0 < args.len()
}

/// The text with its gaps filled: `{0}` by the first argument, `{1}` by the
/// second, and so on. Everything else stays as it is.
pub open spec fn filled(t: Seq<char>, args: Seq<Seq<char>>) -> Seq<char>
    decreases t.len(),
{
    if t.len() == 0 {
        Seq::empty()
    } else if starts_with_gap(t, args) {
        args[gap_number(t[1])->0] + filled(t.skip(3), args)
    } else {
        seq![t[0]] + filled(t.skip(1), args)
    }
}

/// The text with its gaps filled.
pub fn fill(template: &str, args: &Vec<String>) -> (out: String)
    ensures
        out@ == filled(template@, views(args@)),
{
    let ghost t = template@;
    let ghost texts = views(args@);
    let chars = chars_of(template);
    let n: usize = chars.len();
    let mut out = String::new();
    let mut start: usize = 0;
    let mut i: usize = 0;
    assert(t.subrange(0, 0) =~= Seq::<char>::empty());
    assert(t.skip(0) =~= t);
    assert(filled(t, texts) =~= out@ + t.subrange(0, 0) + filled(t.skip(0), texts));
    while i < n
        invariant
            t == template@,
            texts == views(args@),
            chars@ == t,
            n == t.len(),
            start <= i <= n,
            filled(t, texts) == out@ + t.subrange(start as int, i as int) + filled(
                t.skip(i as int),
                texts,
            ),
        decreases n - i,
    {
        let ghost rest = t.skip(i as int);
        let mut gap: Option<usize> = None;
        if n - i >= 3 && chars[i] == '{' && chars[i + 2] == '}' {
            let c = chars[i + 1];
            if '0' <= c && c <= '9' {
                let d: usize = ((c as u32) - ('0' as u32)) as usize;
                if d < args.len() {
                    gap = Some(d);
                }
            }
        }
        match gap {
            Some(d) => {
                let ghost before = out@;
                if start < i {
                    out.append(template.substring_char(start, i));
                }
                assert(out@ =~= before + t.subrange(start as int, i as int));
                assert(texts[d as int] == args@[d as int]@);
                out.append(args[d].as_str());
                proof {
                    assert(starts_with_gap(rest, texts));
                    assert(rest.skip(3) =~= t.skip(i + 3));
                    assert(t.subrange(i + 3, i + 3) =~= Seq::<char>::empty());
                    assert(filled(t, texts) =~= out@ + t.subrange(i + 3, i + 3) + filled(
                        t.skip(i + 3),
                        texts,
                    ));
                }
                i = i + 3;
                start = i;
            },
            None => {
                proof {
                    assert(!starts_with_gap(rest, texts));
                    assert(rest.skip(1) =~= t.skip(i + 1));
                    assert(rest[0] == t[i as int]);
                    assert(t.subrange(start as int, i + 1) =~= t.subrange(start as int, i as int)
                        + seq![t[i as int]]);
                    assert(filled(t, texts) =~= out@ + t.subrange(start as int, i + 1) + filled(
                        t.skip(i + 1),
                        texts,
                    ));
                }
                i = i + 1;
            },
        }
    }
    let ghost before = out@;
    if start < n {
        out.append(template.substring_char(start, n));
    }
    proof {
        assert(out@ =~= before + t.subrange(start as int, n as int));
        assert(t.skip(n as int).len() == 0);
        assert(filled(t, texts) =~= out@);
    }
    out
}

/// The first `n` pieces one after the other, up to the first error.
pub open spec fn pieces(n: int, piece: spec_fn(int) -> Outcome<Seq<char>>) -> Outcome<Seq<char>>
    decreases n,
{
    if n <= 0 {
        Ok(Seq::empty())
    } else {
        match pieces(n - 1, piece) {
            Ok(front) => match piece(n - 1) {
                Ok(text) => Ok(front + text),
                Err(e) => Err(e),
            },
            Err(e) => Err(e),
        }
    }
}

/// An error among the first pieces is the error of all.
pub proof fn lemma_pieces_fail(k: int, n: int, piece: spec_fn(int) -> Outcome<Seq<char>>)
    requires
        0 <= k <= n,
        pieces(k, piece) is Err,
    ensures
        pieces(n, piece) == pieces(k, piece),
    decreases n,
{
    if k < n {
        lemma_pieces_fail(k, n - 1, piece);
    }
}

/// Two texts one after the other, or the first error.
pub open spec fn both(a: Outcome<Seq<char>>, b: Outcome<Seq<char>>) -> Outcome<Seq<char>> {
    match a {
        Ok(x) => match b {
            Ok(y) => Ok(x + y),
            Err(e) => Err(e),
        },
        Err(e) => Err(e),
    }
}

/// Whether rendering gives what is expected.
pub open spec fn rendered(r: Result<String, RenderError>, expected: Outcome<Seq<char>>) -> bool {
    match r {
        Ok(s) => expected == Ok::<_, Seq<char>>(s@),
        Err(e) => expected == Err::<Seq<char>, _>(e@),
    }
}

} // verus!
