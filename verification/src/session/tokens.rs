//! Splitting source text into tokens.
//!
//! A token is a word, a quoted string, or any other single character. White
//! space and comments separate tokens and are dropped.
use crate::text::{chars_of, owned, views};
use vstd::prelude::*;

verus! {

pub open spec fn blank(c: char) -> bool {
    c == ' ' || c == '\n' || c == '\t' || c == '\r'
}

/// Characters of words: letters, digits, underscores, and what qualifies or
/// quotes an identifier.
pub open spec fn word_char(c: char) -> bool {
    ||| 'a' <= c <= 'z'
    ||| 'A' <= c <= 'Z'
    ||| '0' <= c <= '9'
    ||| c == '_'
    ||| c == '.'
    ||| c == '\''
}

fn is_blank(c: char) -> (r: bool)
    ensures
        r == blank(c),
{
    c == ' ' || c == '\n' || c == '\t' || c == '\r'
}

/// Whether words are made of this character.
pub fn is_word_char(c: char) -> (r: bool)
    ensures
        r == word_char(c),
{
    ('a' <= c && c <= 'z') || ('A' <= c && c <= 'Z') || ('0' <= c && c <= '9') || c == '_' || c
        == '.' || c == '\''
}

/// First position from `i` on that is not a word character.
pub open spec fn word_end(s: Seq<char>, i: int) -> int
    decreases s.len() - i,
{
    if 0 <= i < s.len() && word_char(s[i]) {
        word_end(s, i + 1)
    } else {
        i
    }
}

/// First position from `i` on that holds a line break, or the end.
pub open spec fn line_end(s: Seq<char>, i: int) -> int
    decreases s.len() - i,
{
    if 0 <= i < s.len() && s[i] != '\n' {
        line_end(s, i + 1)
    } else {
        i
    }
}

/// Position after the end mark of a block comment that is open at `i`.
pub open spec fn comment_end(s: Seq<char>, i: int) -> int
    decreases s.len() - i,
{
    if 0 <= i < s.len() {
        if i + 1 < s.len() && s[i] == '*' && s[i + 1] == '/' {
            i + 2
        } else {
            comment_end(s, i + 1)
        }
    } else {
        i
    }
}

/// Position after the closing quote of a string that is open at `i`; a
/// backslash takes the next character along.
pub open spec fn string_end(s: Seq<char>, i: int) -> int
    decreases s.len() - i,
{
    if 0 <= i < s.len() {
        if s[i] == '"' {
            i + 1
        } else if s[i] == '\\' && i + 1 < s.len() {
            string_end(s, i + 2)
        } else {
            string_end(s, i + 1)
        }
    } else {
        i
    }
}

/// First position from `i` on where a token starts, or the end.
pub open spec fn token_start(s: Seq<char>, i: int) -> int
    decreases s.len() - i,
{
    if 0 <= i < s.len() {
        if blank(s[i]) {
            token_start(s, i + 1)
        } else if s[i] == '/' && i + 1 < s.len() && s[i + 1] == '/' {
            let e = line_end(s, i + 2);
            if i < e <= s.len() {
                token_start(s, e)
            } else {
                i
            }
        } else if s[i] == '/' && i + 1 < s.len() && s[i + 1] == '*' {
            let e = comment_end(s, i + 2);
            if i < e <= s.len() {
                token_start(s, e)
            } else {
                i
            }
        } else {
            i
        }
    } else {
        i
    }
}

/// End of the token that starts at `i`.
pub open spec fn token_end(s: Seq<char>, i: int) -> int {
    if word_char(s[i]) {
        word_end(s, i)
    } else if s[i] == '"' {
        string_end(s, i + 1)
    } else {
        i + 1
    }
}

/// The tokens from position `i` on.
pub open spec fn tokens_from(s: Seq<char>, i: int) -> Seq<Seq<char>>
    decreases s.len() - i,
{
    if i < 0 || i >= s.len() {
        Seq::empty()
    } else {
        let a = token_start(s, i);
        let b = token_end(s, a);
        if i <= a < s.len() && a < b <= s.len() {
            seq![s.subrange(a, b)] + tokens_from(s, b)
        } else {
            Seq::empty()
        }
    }
}

/// The tokens of a text.
pub open spec fn tokens(s: Seq<char>) -> Seq<Seq<char>> {
    tokens_from(s, 0)
}

fn find_word_end(s: &Vec<char>, from: usize) -> (e: usize)
    requires
        from <= s@.len(),
    ensures
        e == word_end(s@, from as int),
        from <= e <= s@.len(),
{
    let mut i: usize = from;
    while i < s.len() && is_word_char(s[i])
        invariant
            from <= i <= s@.len(),
            word_end(s@, from as int) == word_end(s@, i as int),
        decreases s.len() - i,
    {
        i = i + 1;
    }
    i
}

fn find_line_end(s: &Vec<char>, from: usize) -> (e: usize)
    requires
        from <= s@.len(),
    ensures
        e == line_end(s@, from as int),
        from <= e <= s@.len(),
{
    let mut i: usize = from;
    while i < s.len() && s[i] != '\n'
        invariant
            from <= i <= s@.len(),
            line_end(s@, from as int) == line_end(s@, i as int),
        decreases s.len() - i,
    {
        i = i + 1;
    }
    i
}

fn find_comment_end(s: &Vec<char>, from: usize) -> (e: usize)
    requires
        from <= s@.len(),
    ensures
        e == comment_end(s@, from as int),
        from <= e <= s@.len(),
{
    let mut i: usize = from;
    while i < s.len()
        invariant
            from <= i <= s@.len(),
            comment_end(s@, from as int) == comment_end(s@, i as int),
        decreases s.len() - i,
    {
        if s[i] == '*' && i + 1 < s.len() && s[i + 1] == '/' {
            return i + 2;
        }
        i = i + 1;
    }
    i
}

fn find_string_end(s: &Vec<char>, from: usize) -> (e: usize)
    requires
        from <= s@.len(),
    ensures
        e == string_end(s@, from as int),
        from <= e <= s@.len(),
{
    let mut i: usize = from;
    while i < s.len()
        invariant
            from <= i <= s@.len(),
            string_end(s@, from as int) == string_end(s@, i as int),
        decreases s.len() - i,
    {
        if s[i] == '"' {
            return i + 1;
        }
        if s[i] == '\\' && i + 1 < s.len() {
            i = i + 2;
        } else {
            i = i + 1;
        }
    }
    i
}

fn find_token_start(s: &Vec<char>, from: usize) -> (e: usize)
    requires
        from <= s@.len(),
    ensures
        e == token_start(s@, from as int),
        from <= e <= s@.len(),
{
    let mut i: usize = from;
    while i < s.len()
        invariant
            from <= i <= s@.len(),
            token_start(s@, from as int) == token_start(s@, i as int),
        decreases s.len() - i,
    {
        if is_blank(s[i]) {
            i = i + 1;
        } else if s[i] == '/' && i + 1 < s.len() && s[i + 1] == '/' {
            i = find_line_end(s, i + 2);
        } else if s[i] == '/' && i + 1 < s.len() && s[i + 1] == '*' {
            i = find_comment_end(s, i + 2);
        } else {
            return i;
        }
    }
    i
}

/// The tokens of a text.
pub fn tokenize(text: &str) -> (out: Vec<String>)
    ensures
        views(out@) == tokens(text@),
{
    let chars = chars_of(text);
    let n: usize = chars.len();
    let mut out: Vec<String> = Vec::new();
    let mut i: usize = 0;
    assert(views(out@) + tokens_from(text@, 0) =~= tokens(text@));
    while i < n
        invariant
            i <= n,
            n == text@.len(),
            chars@ == text@,
            views(out@) + tokens_from(text@, i as int) == tokens(text@),
        decreases n - i,
    {
        let a: usize = find_token_start(&chars, i);
        if a >= n {
            assert(tokens_from(text@, i as int) =~= Seq::empty());
            assert(views(out@) =~= tokens(text@));
            return out;
        }
        let b: usize = if is_word_char(chars[a]) {
            let e = find_word_end(&chars, a);
            assert(word_end(text@, a as int) == word_end(text@, a + 1));
            proof {
                lemma_word_end_moves_on(text@, a + 1);
            }
            e
        } else if chars[a] == '"' {
            find_string_end(&chars, a + 1)
        } else {
            a + 1
        };
        let ghost before = views(out@);
        let ghost token = text@.subrange(a as int, b as int);
        out.push(owned(text.substring_char(a, b)));
        proof {
            assert(views(out@) =~= before.push(token));
            assert(tokens_from(text@, i as int) == seq![token] + tokens_from(text@, b as int));
            assert(before.push(token) + tokens_from(text@, b as int) =~= before + (seq![token]
                + tokens_from(text@, b as int)));
        }
        i = b;
    }
    assert(tokens_from(text@, i as int) =~= Seq::empty());
    assert(views(out@) =~= tokens(text@));
    out
}

proof fn lemma_word_end_moves_on(s: Seq<char>, i: int)
    ensures
        word_end(s, i) >= i,
    decreases s.len() - i,
{
    if 0 <= i < s.len() && word_char(s[i]) {
        lemma_word_end_moves_on(s, i + 1);
    }
}

} // verus!
