//! Character classes and scanning primitives shared by the resource grammar
//! and the locale-tag grammar, together with their executable counterparts.

use vstd::prelude::*;
use vstd::string::*;

verus! {

/// Whitespace recognized by the grammar: spaces and tabs, and, inside a
/// pattern body joined from continuation lines, the joining newline. A
/// single line never contains a newline, so line classification sees only
/// spaces and tabs.
pub open spec fn is_ws(c: char) -> bool {
    c == ' ' || c == '\t' || c == '\n'
}

/// ASCII letters; the only characters that may start an identifier.
pub open spec fn is_ident_start(c: char) -> bool {
    ('A' as u32 <= c as u32 && c as u32 <= 'Z' as u32) || ('a' as u32 <= c as u32 && c as u32
        <= 'z' as u32)
}

/// ASCII decimal digits.
pub open spec fn is_digit(c: char) -> bool {
    '0' as u32 <= c as u32 && c as u32 <= '9' as u32
}

/// Characters allowed after the first character of an identifier.
pub open spec fn is_ident_char(c: char) -> bool {
    is_ident_start(c) || is_digit(c) || c == '_' || c == '-'
}

/// An identifier: one ASCII letter followed by letters, digits, `_` or `-`.
pub open spec fn is_valid_ident(s: Seq<char>) -> bool {
    &&& s.len() > 0
    &&& is_ident_start(s[0])
    &&& forall|i: int| 0 <= i < s.len() ==> is_ident_char(#[trigger] s[i])
}

/// Index of the first non-whitespace character at or after `i`, or the length
/// of `s` when only whitespace remains.
pub open spec fn skip_ws(s: Seq<char>, i: int) -> int
    decreases s.len() - i,
{
    if i < 0 || i >= s.len() {
        s.len() as int
    } else if is_ws(s[i]) {
        skip_ws(s, i + 1)
    } else {
        i
    }
}

/// End of the run of identifier characters starting at `i`.
pub open spec fn ident_run_end(s: Seq<char>, i: int) -> int
    decreases s.len() - i,
{
    if i < 0 || i >= s.len() {
        s.len() as int
    } else if is_ident_char(s[i]) {
        ident_run_end(s, i + 1)
    } else {
        i
    }
}

/// Index of the first occurrence of `sep` at or after `i`, or the length of
/// `s` when none follows.
pub open spec fn sep_end(s: Seq<char>, i: int, sep: char) -> int
    decreases s.len() - i,
{
    if i < 0 || i >= s.len() {
        s.len() as int
    } else if s[i] == sep {
        i
    } else {
        sep_end(s, i + 1, sep)
    }
}

pub proof fn lemma_skip_ws_bounds(s: Seq<char>, i: int)
    requires
        0 <= i <= s.len(),
    ensures
        i <= skip_ws(s, i) <= s.len(),
    decreases s.len() - i,
{
    if i < s.len() && is_ws(s[i]) {
        lemma_skip_ws_bounds(s, i + 1);
    }
}

pub proof fn lemma_ident_run_end_bounds(s: Seq<char>, i: int)
    requires
        0 <= i <= s.len(),
    ensures
        i <= ident_run_end(s, i) <= s.len(),
    decreases s.len() - i,
{
    if i < s.len() && is_ident_char(s[i]) {
        lemma_ident_run_end_bounds(s, i + 1);
    }
}

/// Every character strictly inside an identifier run is an identifier
/// character.
pub proof fn lemma_ident_run_chars(s: Seq<char>, i: int, k: int)
    requires
        0 <= i <= k < ident_run_end(s, i),
    ensures
        is_ident_char(s[k]),
    decreases k - i,
{
    if i < k {
        lemma_ident_run_chars(s, i + 1, k);
    }
}

/// A non-empty identifier run beginning with a letter is a valid identifier.
pub proof fn lemma_run_is_valid_ident(s: Seq<char>, s0: int, e: int)
    requires
        0 <= s0,
        e == ident_run_end(s, s0),
        e > s0,
        is_ident_start(s[s0]),
    ensures
        is_valid_ident(s.subrange(s0, e)),
{
    lemma_ident_run_end_bounds(s, s0);
    let id = s.subrange(s0, e);
    assert forall|m: int| 0 <= m < id.len() implies is_ident_char(#[trigger] id[m]) by {
        lemma_ident_run_chars(s, s0, s0 + m);
    }
}

pub proof fn lemma_sep_end_bounds(s: Seq<char>, i: int, sep: char)
    requires
        0 <= i <= s.len(),
    ensures
        i <= sep_end(s, i, sep) <= s.len(),
    decreases s.len() - i,
{
    if i < s.len() && s[i] != sep {
        lemma_sep_end_bounds(s, i + 1, sep);
    }
}

/// The pieces of `s` between occurrences of `sep`, in order, starting at `i`.
/// The final piece runs to the end of `s`; a trailing separator therefore
/// yields a final empty piece.
pub open spec fn split_from(s: Seq<char>, i: int, sep: char) -> Seq<Seq<char>>
    decreases s.len() - i,
    when 0 <= i <= s.len()
    via split_from_decreases
{
    let j = sep_end(s, i, sep);
    if j >= s.len() {
        seq![s.subrange(i, s.len() as int)]
    } else {
        seq![s.subrange(i, j)] + split_from(s, j + 1, sep)
    }
}

#[via_fn]
proof fn split_from_decreases(s: Seq<char>, i: int, sep: char) {
    lemma_sep_end_bounds(s, i, sep);
}

/// `s` split on every occurrence of `sep`.
pub open spec fn split_on(s: Seq<char>, sep: char) -> Seq<Seq<char>> {
    split_from(s, 0, sep)
}

/// A pattern body continued on a following indented line: the continuation
/// joins with a literal newline; a body still empty simply becomes it.
pub open spec fn join_cont(a: Seq<char>, b: Seq<char>) -> Seq<char> {
    if a.len() == 0 {
        b
    } else {
        a + seq!['\n'] + b
    }
}

// ---------------------------------------------------------------------------
// Executable counterparts.
// ---------------------------------------------------------------------------

pub fn ws_char(c: char) -> (b: bool)
    ensures
        b == is_ws(c),
{
    c == ' ' || c == '\t' || c == '\n'
}

pub fn ident_start_char(c: char) -> (b: bool)
    ensures
        b == is_ident_start(c),
{
    let u = c as u32;
    ('A' as u32 <= u && u <= 'Z' as u32) || ('a' as u32 <= u && u <= 'z' as u32)
}

pub fn digit_char(c: char) -> (b: bool)
    ensures
        b == is_digit(c),
{
    let u = c as u32;
    '0' as u32 <= u && u <= '9' as u32
}

pub fn ident_char(c: char) -> (b: bool)
    ensures
        b == is_ident_char(c),
{
    let u = c as u32;
    ident_start_char(c) || ('0' as u32 <= u && u <= '9' as u32) || c == '_' || c == '-'
}

/// First non-whitespace position in `s` at or after `from`.
pub fn scan_ws(s: &str, from: usize, n: usize) -> (r: usize)
    requires
        from <= n,
        n == s@.len(),
    ensures
        r == skip_ws(s@, from as int),
        from <= r <= n,
{
    let mut i: usize = from;
    while i < n && ws_char(s.get_char(i))
        invariant
            from <= i <= n,
            n == s@.len(),
            skip_ws(s@, from as int) == skip_ws(s@, i as int),
        decreases n - i,
    {
        i = i + 1;
    }
    i
}

/// End of the identifier-character run in `s` starting at `from`.
pub fn scan_ident(s: &str, from: usize, n: usize) -> (r: usize)
    requires
        from <= n,
        n == s@.len(),
    ensures
        r == ident_run_end(s@, from as int),
        from <= r <= n,
{
    let mut i: usize = from;
    while i < n && ident_char(s.get_char(i))
        invariant
            from <= i <= n,
            n == s@.len(),
            ident_run_end(s@, from as int) == ident_run_end(s@, i as int),
        decreases n - i,
    {
        i = i + 1;
    }
    i
}

/// First occurrence of `sep` in `s` at or after `from`.
pub fn scan_sep(s: &str, from: usize, n: usize, sep: char) -> (r: usize)
    requires
        from <= n,
        n == s@.len(),
    ensures
        r == sep_end(s@, from as int, sep),
        from <= r <= n,
{
    let mut i: usize = from;
    while i < n && s.get_char(i) != sep
        invariant
            from <= i <= n,
            n == s@.len(),
            sep_end(s@, from as int, sep) == sep_end(s@, i as int, sep),
        decreases n - i,
    {
        i = i + 1;
    }
    i
}

/// `s` split on `sep`, as owned strings.
pub fn split_str(s: &str, sep: char) -> (r: Vec<String>)
    ensures
        r.deep_view() == split_on(s@, sep),
{
    let n = s.unicode_len();
    let mut parts: Vec<String> = Vec::new();
    let mut pos: usize = 0;
    loop
        invariant_except_break
            pos <= n,
            n == s@.len(),
            split_on(s@, sep) == parts.deep_view() + split_from(s@, pos as int, sep),
        ensures
            split_on(s@, sep) == parts.deep_view(),
        decreases n - pos,
    {
        let j = scan_sep(s, pos, n, sep);
        let piece = s.substring_char(pos, j).to_owned();
        let ghost parts0 = parts.deep_view();
        let ghost piece_view = piece@;
        parts.push(piece);
        proof {
            assert(parts.deep_view() =~= parts0.push(piece_view));
        }
        if j == n {
            proof {
                assert(split_from(s@, pos as int, sep) =~= seq![piece_view]);
                assert(parts0 + seq![piece_view] =~= parts0.push(piece_view));
            }
            break ;
        }
        proof {
            assert(parts0 + (seq![piece_view] + split_from(s@, j + 1, sep)) =~= (parts0.push(
                piece_view)) + split_from(s@, j + 1, sep));
        }
        pos = j + 1;
    }
    parts
}

} // verus!
