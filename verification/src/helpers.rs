use vstd::prelude::*;

use crate::source::{has_char, Source};

verus! {

/// An identifier.
pub type Name = String;

/// The condition of an `if` or `elif` branch.
pub type Test = String;

/// The kinds of characters that the scanners below skip over.
pub enum CharClass {
    /// Spaces, tabs, carriage returns and line feeds: what separates tokens
    /// where newlines count as spaces (inside parameter lists).
    Whitespace,
    /// Spaces and tabs: what separates tokens on a logical line.
    Blank,
    /// The space character alone: what indentation is made of.
    Space,
    /// ASCII letters, digits and the underscore: what may follow the first
    /// character of a name.
    NameContinue,
}

pub open spec fn is_name_start(c: char) -> bool {
    ('a' <= c && c <= 'z') || ('A' <= c && c <= 'Z') || c == '_'
}

pub open spec fn is_name_continue(c: char) -> bool {
    is_name_start(c) || ('0' <= c && c <= '9')
}

pub open spec fn in_class(cls: CharClass, c: char) -> bool {
    match cls {
        CharClass::Whitespace => c == ' ' || c == '\t' || c == '\r' || c == '\n',
        CharClass::Blank => c == ' ' || c == '\t',
        CharClass::Space => c == ' ',
        CharClass::NameContinue => is_name_continue(c),
    }
}

fn is_in_class(cls: &CharClass, c: char) -> (b: bool)
    ensures
        b == in_class(*cls, c),
{
    match cls {
        CharClass::Whitespace => c == ' ' || c == '\t' || c == '\r' || c == '\n',
        CharClass::Blank => c == ' ' || c == '\t',
        CharClass::Space => c == ' ',
        CharClass::NameContinue => (c >= 'a' && c <= 'z') || (c >= 'A' && c <= 'Z') || c == '_'
            || (c >= '0' && c <= '9'),
    }
}

/// The end of the longest run of characters of class `cls` that starts at `p`.
pub open spec fn span_end(s: Seq<char>, p: int, cls: CharClass) -> int
    decreases s.len() - p,
{
    if 0 <= p < s.len() && in_class(cls, s[p]) {
        span_end(s, p + 1, cls)
    } else {
        p
    }
}

/// Whitespace that separates tokens where newlines count as spaces.
pub open spec fn ws_end(s: Seq<char>, p: int) -> int {
    span_end(s, p, CharClass::Whitespace)
}

/// Spaces and tabs that separate tokens on a line.
pub open spec fn blank_end(s: Seq<char>, p: int) -> int {
    span_end(s, p, CharClass::Blank)
}

/// A run of characters of one class is maximal and stays inside the input.
pub proof fn lemma_span_end(s: Seq<char>, p: int, cls: CharClass)
    requires
        0 <= p <= s.len(),
    ensures
        p <= span_end(s, p, cls) <= s.len(),
        forall|i: int| p <= i < span_end(s, p, cls) ==> in_class(cls, #[trigger] s[i]),
        span_end(s, p, cls) < s.len() ==> !in_class(cls, s[span_end(s, p, cls)]),
        span_end(s, span_end(s, p, cls), cls) == span_end(s, p, cls),
    decreases s.len() - p,
{
    if p < s.len() && in_class(cls, s[p]) {
        lemma_span_end(s, p + 1, cls);
    }
}

/// Skips the characters of class `cls` from `pos` on.
pub fn skip_class(src: &Source, pos: usize, cls: CharClass) -> (end: usize)
    requires
        pos <= src.chars().len(),
    ensures
        end == span_end(src.chars(), pos as int, cls),
        pos <= end <= src.chars().len(),
{
    proof {
        lemma_span_end(src.chars(), pos as int, cls);
    }
    let n = src.len();
    let mut i = pos;
    while i < n && is_in_class(&cls, src.char_at(i))
        invariant
            pos <= i <= n,
            n == src.chars().len(),
            span_end(src.chars(), i as int, cls) == span_end(src.chars(), pos as int, cls),
        decreases n - i,
    {
        i = i + 1;
    }
    i
}

/// A name: an ASCII letter or underscore followed by any number of ASCII
/// letters, digits and underscores.
pub open spec fn name(s: Seq<char>, p: int) -> Option<(int, Seq<char>)> {
    if 0 <= p < s.len() && is_name_start(s[p]) {
        let q = span_end(s, p + 1, CharClass::NameContinue);
        Some((q, s.subrange(p, q)))
    } else {
        None
    }
}

pub proof fn lemma_name(s: Seq<char>, p: int)
    requires
        0 <= p <= s.len(),
    ensures
        name(s, p) matches Some((q, _)) ==> p < q <= s.len(),
{
    if p < s.len() {
        lemma_span_end(s, p + 1, CharClass::NameContinue);
    }
}

/// Parses a name at `pos`.
pub fn parse_name(src: &Source, pos: usize) -> (r: Option<(usize, Name)>)
    requires
        pos <= src.chars().len(),
    ensures
        match r {
            Some((q, n)) => name(src.chars(), pos as int) == Some((q as int, n@)),
            None => name(src.chars(), pos as int) is None,
        },
        r matches Some((q, _)) ==> pos < q <= src.chars().len(),
{
    proof {
        lemma_name(src.chars(), pos as int);
    }
    if pos < src.len() {
        let c = src.char_at(pos);
        if (c >= 'a' && c <= 'z') || (c >= 'A' && c <= 'Z') || c == '_' {
            let q = skip_class(src, pos + 1, CharClass::NameContinue);
            return Some((q, src.string_between(pos, q)));
        }
    }
    None
}

/// An optional name: the end and the name if one stands at `p`, else `p` and nothing.
pub open spec fn opt_name(s: Seq<char>, p: int) -> (int, Option<Seq<char>>) {
    match name(s, p) {
        Some((q, n)) => (q, Some(n)),
        None => (p, None),
    }
}

pub fn parse_opt_name(src: &Source, pos: usize) -> (r: (usize, Option<Name>))
    requires
        pos <= src.chars().len(),
    ensures
        opt_name(src.chars(), pos as int) == (r.0 as int, opt_view(r.1)),
        pos <= r.0 <= src.chars().len(),
{
    proof {
        lemma_name(src.chars(), pos as int);
    }
    match parse_name(src, pos) {
        Some((q, n)) => (q, Some(n)),
        None => (pos, None),
    }
}

/// The view of an optional string.
pub open spec fn opt_view(o: Option<String>) -> Option<Seq<char>> {
    match o {
        Some(s) => Some(s@),
        None => None,
    }
}

/// Whether `n` spaces stand at `p` (a line indented by exactly `n` more columns).
pub open spec fn spaces_at(s: Seq<char>, p: int, n: int) -> bool {
    0 <= p && 0 <= n && p + n <= s.len() && forall|i: int| p <= i < p + n ==> s[i] == ' '
}

/// The position after `n` spaces, if `n` spaces stand at `pos`.
pub fn after_spaces(src: &Source, pos: usize, n: usize) -> (r: Option<usize>)
    ensures
        match r {
            Some(q) => spaces_at(src.chars(), pos as int, n as int) && q == pos + n,
            None => !spaces_at(src.chars(), pos as int, n as int),
        },
{
    let len = src.len();
    if pos > len || n > len - pos {
        return None;
    }
    let mut i: usize = 0;
    while i < n
        invariant
            pos + n <= len,
            len == src.chars().len(),
            i <= n,
            forall|j: int| pos <= j < pos + i ==> src.chars()[j] == ' ',
        decreases n - i,
    {
        if src.char_at(pos + i) != ' ' {
            return None;
        }
        i = i + 1;
    }
    Some(pos + n)
}

/// A line break.
pub open spec fn newline(s: Seq<char>, p: int) -> bool {
    has_char(s, p, '\n')
}

/// A semicolon, with the spaces and tabs around it.
pub open spec fn semicolon(s: Seq<char>, p: int) -> Option<int> {
    let a = blank_end(s, p);
    if has_char(s, a, ';') {
        Some(blank_end(s, a + 1))
    } else {
        None
    }
}

pub proof fn lemma_semicolon(s: Seq<char>, p: int)
    requires
        0 <= p <= s.len(),
    ensures
        semicolon(s, p) matches Some(q) ==> p < q <= s.len(),
{
    lemma_span_end(s, p, CharClass::Blank);
    let a = blank_end(s, p);
    if has_char(s, a, ';') {
        lemma_span_end(s, a + 1, CharClass::Blank);
    }
}

pub fn parse_semicolon(src: &Source, pos: usize) -> (r: Option<usize>)
    requires
        pos <= src.chars().len(),
    ensures
        match r {
            Some(q) => semicolon(src.chars(), pos as int) == Some(q as int),
            None => semicolon(src.chars(), pos as int) is None,
        },
        r matches Some(q) ==> pos < q <= src.chars().len(),
{
    proof {
        lemma_semicolon(src.chars(), pos as int);
    }
    let a = skip_class(src, pos, CharClass::Blank);
    match src.after_char(a, ';') {
        Some(b) => Some(skip_class(src, b, CharClass::Blank)),
        None => None,
    }
}

} // verus!
