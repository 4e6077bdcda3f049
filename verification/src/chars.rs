//! Character classes of the query language and case folding for its
//! keywords, shared by the lexer and the interpolation front ends.

use vstd::prelude::*;

verus! {

pub open spec fn spec_is_ws(c: char) -> bool {
    c == ' ' || c == '\t' || c == '\r' || c == '\n'
}

pub open spec fn spec_is_digit(c: char) -> bool {
    '0' <= c && c <= '9'
}

pub open spec fn spec_is_ident_start(c: char) -> bool {
    ('a' <= c && c <= 'z') || ('A' <= c && c <= 'Z') || c == '_'
}

pub open spec fn spec_is_ident_cont(c: char) -> bool {
    spec_is_ident_start(c) || spec_is_digit(c)
}

/// ASCII case folding: keywords match case-insensitively.
pub open spec fn spec_lower_char(c: char) -> char {
    if 'A' <= c && c <= 'Z' {
        (((c as u8) + 32) as char)
    } else {
        c
    }
}

pub open spec fn spec_lower(s: Seq<char>) -> Seq<char> {
    s.map_values(|c: char| spec_lower_char(c))
}

pub fn is_ws(c: char) -> (r: bool)
    ensures
        r == spec_is_ws(c),
{
    c == ' ' || c == '\t' || c == '\r' || c == '\n'
}

pub fn is_digit(c: char) -> (r: bool)
    ensures
        r == spec_is_digit(c),
{
    '0' <= c && c <= '9'
}

pub fn is_ident_start(c: char) -> (r: bool)
    ensures
        r == spec_is_ident_start(c),
{
    ('a' <= c && c <= 'z') || ('A' <= c && c <= 'Z') || c == '_'
}

pub fn is_ident_cont(c: char) -> (r: bool)
    ensures
        r == spec_is_ident_cont(c),
{
    is_ident_start(c) || is_digit(c)
}

pub fn lower_char(c: char) -> (r: char)
    ensures
        r == spec_lower_char(c),
{
    if 'A' <= c && c <= 'Z' {
        ((c as u8) + 32) as char
    } else {
        c
    }
}

/// First position at or after `i` that does not hold whitespace.
pub open spec fn spec_skip_ws(s: Seq<char>, i: int) -> int
    decreases s.len() - i,
{
    if i < s.len() && spec_is_ws(s[i]) {
        spec_skip_ws(s, i + 1)
    } else {
        i
    }
}

/// End of the digit run that starts at `i`.
pub open spec fn spec_scan_digits(s: Seq<char>, i: int) -> int
    decreases s.len() - i,
{
    if i < s.len() && spec_is_digit(s[i]) {
        spec_scan_digits(s, i + 1)
    } else {
        i
    }
}

/// End of the identifier-character run that starts at `i`.
pub open spec fn spec_scan_word(s: Seq<char>, i: int) -> int
    decreases s.len() - i,
{
    if i < s.len() && spec_is_ident_cont(s[i]) {
        spec_scan_word(s, i + 1)
    } else {
        i
    }
}

pub proof fn lemma_skip_ws(s: Seq<char>, i: int)
    requires
        0 <= i <= s.len(),
    ensures
        i <= spec_skip_ws(s, i) <= s.len(),
        forall|j: int| i <= j < spec_skip_ws(s, i) ==> spec_is_ws(#[trigger] s[j]),
        spec_skip_ws(s, i) < s.len() ==> !spec_is_ws(s[spec_skip_ws(s, i)]),
    decreases s.len() - i,
{
    if i < s.len() && spec_is_ws(s[i]) {
        lemma_skip_ws(s, i + 1);
    }
}

pub proof fn lemma_scan_digits(s: Seq<char>, i: int)
    requires
        0 <= i <= s.len(),
    ensures
        i <= spec_scan_digits(s, i) <= s.len(),
        forall|j: int| i <= j < spec_scan_digits(s, i) ==> spec_is_digit(#[trigger] s[j]),
        spec_scan_digits(s, i) < s.len() ==> !spec_is_digit(s[spec_scan_digits(s, i)]),
    decreases s.len() - i,
{
    if i < s.len() && spec_is_digit(s[i]) {
        lemma_scan_digits(s, i + 1);
    }
}

pub proof fn lemma_scan_word(s: Seq<char>, i: int)
    requires
        0 <= i <= s.len(),
    ensures
        i <= spec_scan_word(s, i) <= s.len(),
        forall|j: int| i <= j < spec_scan_word(s, i) ==> spec_is_ident_cont(#[trigger] s[j]),
        spec_scan_word(s, i) < s.len() ==> !spec_is_ident_cont(s[spec_scan_word(s, i)]),
    decreases s.len() - i,
{
    if i < s.len() && spec_is_ident_cont(s[i]) {
        lemma_scan_word(s, i + 1);
    }
}

pub fn skip_ws(v: &Vec<char>, i: usize) -> (r: usize)
    requires
        i <= v@.len(),
    ensures
        r == spec_skip_ws(v@, i as int),
        i <= r <= v@.len(),
{
    let mut j: usize = i;
    while j < v.len() && is_ws(v[j])
        invariant
            i <= j <= v@.len(),
            spec_skip_ws(v@, i as int) == spec_skip_ws(v@, j as int),
        decreases v@.len() - j,
    {
        j += 1;
    }
    proof {
        lemma_skip_ws(v@, i as int);
    }
    j
}

pub fn scan_digits(v: &Vec<char>, i: usize) -> (r: usize)
    requires
        i <= v@.len(),
    ensures
        r == spec_scan_digits(v@, i as int),
        i <= r <= v@.len(),
{
    let mut j: usize = i;
    while j < v.len() && is_digit(v[j])
        invariant
            i <= j <= v@.len(),
            spec_scan_digits(v@, i as int) == spec_scan_digits(v@, j as int),
        decreases v@.len() - j,
    {
        j += 1;
    }
    proof {
        lemma_scan_digits(v@, i as int);
    }
    j
}

pub fn scan_word(v: &Vec<char>, i: usize) -> (r: usize)
    requires
        i <= v@.len(),
    ensures
        r == spec_scan_word(v@, i as int),
        i <= r <= v@.len(),
{
    let mut j: usize = i;
    while j < v.len() && is_ident_cont(v[j])
        invariant
            i <= j <= v@.len(),
            spec_scan_word(v@, i as int) == spec_scan_word(v@, j as int),
        decreases v@.len() - j,
    {
        j += 1;
    }
    proof {
        lemma_scan_word(v@, i as int);
    }
    j
}

} // verus!
