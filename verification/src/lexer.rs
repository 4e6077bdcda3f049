//! The lexer: turns a source string into the token sequence the parser
//! consumes. Keywords match case-insensitively; identifiers are
//! case-sensitive; quoted strings decode a doubled `''` to one `'`.
//!
//! `spec_lex` is the authoritative statement of the token grammar; the
//! executable lexer is proved to return exactly its result.

use vstd::prelude::*;
use crate::chars::{
    is_digit, is_ident_start, lemma_scan_digits, lemma_scan_word, lower_char, scan_digits,
    scan_word, skip_ws,
    spec_is_digit, spec_is_ident_start, spec_lower, spec_scan_digits, spec_scan_word, spec_skip_ws,
};
use crate::literal::chars_to_string;
use crate::token::{LexError, LexErrorKind, Operator, SpecToken, Token};

verus! {

/// Decoded contents of a quoted string: scans from `i` (just after the
/// opening quote) to the closing quote, collapsing `''` to `'`. `Err` means
/// the string never closes.
pub open spec fn spec_scan_string(s: Seq<char>, i: int, acc: Seq<char>) -> Result<
    (Seq<char>, int),
    (),
>
    decreases s.len() - i,
{
    if i < 0 || i >= s.len() {
        Err(())
    } else if s[i] == '\'' {
        if i + 1 < s.len() && s[i + 1] == '\'' {
            spec_scan_string(s, i + 2, acc.push('\''))
        } else {
            Ok((acc, i + 1))
        }
    } else {
        spec_scan_string(s, i + 1, acc.push(s[i]))
    }
}

pub open spec fn spec_digit_val(c: char) -> nat {
    if c == '0' {
        0
    } else if c == '1' {
        1
    } else if c == '2' {
        2
    } else if c == '3' {
        3
    } else if c == '4' {
        4
    } else if c == '5' {
        5
    } else if c == '6' {
        6
    } else if c == '7' {
        7
    } else if c == '8' {
        8
    } else {
        9
    }
}

/// Value of a digit sequence read in base ten.
pub open spec fn spec_digits_val(s: Seq<char>) -> nat
    decreases s.len(),
{
    if s.len() == 0 {
        0
    } else {
        spec_digits_val(s.drop_last()) * 10 + spec_digit_val(s.last())
    }
}

/// The largest magnitude a negative integer literal may have.
pub open spec fn spec_neg_bound() -> nat {
    0x8000_0000_0000_0000
}

/// The largest magnitude a positive integer literal may have.
pub open spec fn spec_pos_bound() -> nat {
    0x7fff_ffff_ffff_ffff
}

/// A numeric literal starting at `i` (where an optional `-` stands):
/// a digit run alone is an integer, checked against the 64-bit signed
/// range; a digit run, a dot and a second digit run form a float, kept as
/// its lexeme.
pub open spec fn spec_number(s: Seq<char>, i: int) -> Result<(SpecToken, int), LexError> {
    let d0 = if i < s.len() && s[i] == '-' {
        i + 1
    } else {
        i
    };
    if !(d0 < s.len() && spec_is_digit(s[d0])) {
        Err(LexError { pos: i as usize, kind: LexErrorKind::BadNumber })
    } else {
        let j = spec_scan_digits(s, d0);
        if j < s.len() && s[j] == '.' {
            if j + 1 < s.len() && spec_is_digit(s[j + 1]) {
                let k = spec_scan_digits(s, j + 1);
                Ok((SpecToken::Float(s.subrange(i, k)), k))
            } else {
                Err(LexError { pos: j as usize, kind: LexErrorKind::BadNumber })
            }
        } else {
            let m = spec_digits_val(s.subrange(d0, j));
            if i < s.len() && s[i] == '-' {
                if m <= spec_neg_bound() {
                    Ok((SpecToken::Int(-(m as int)), j))
                } else {
                    Err(LexError { pos: i as usize, kind: LexErrorKind::BadNumber })
                }
            } else {
                if m <= spec_pos_bound() {
                    Ok((SpecToken::Int(m as int), j))
                } else {
                    Err(LexError { pos: i as usize, kind: LexErrorKind::BadNumber })
                }
            }
        }
    }
}

/// The token a bare word stands for: a keyword or boolean, matched on its
/// lowercased form, else a one-segment identifier.
pub open spec fn spec_word_token(w: Seq<char>) -> SpecToken {
    let l = spec_lower(w);
    if l == seq!['a', 'n', 'd'] {
        SpecToken::And
    } else if l == seq!['o', 'r'] {
        SpecToken::Or
    } else if l == seq!['i', 'n'] {
        SpecToken::In
    } else if l == seq!['o', 'r', 'd', 'e', 'r'] {
        SpecToken::Order
    } else if l == seq!['b', 'y'] {
        SpecToken::By
    } else if l == seq!['a', 's', 'c'] {
        SpecToken::Asc
    } else if l == seq!['d', 'e', 's', 'c'] {
        SpecToken::Desc
    } else if l == seq!['t', 'r', 'u', 'e'] {
        SpecToken::Bool(true)
    } else if l == seq!['f', 'a', 'l', 's', 'e'] {
        SpecToken::Bool(false)
    } else {
        SpecToken::Ident(seq![w])
    }
}

/// The remaining segments of a dotted path, one identifier expected at `i`.
pub open spec fn spec_scan_path(s: Seq<char>, i: int, acc: Seq<Seq<char>>) -> Result<
    (SpecToken, int),
    LexError,
>
    decreases s.len() - i,
{
    if i < s.len() && spec_is_ident_start(s[i]) {
        let j = spec_scan_word(s, i);
        if j < s.len() && s[j] == '.' && i < j {
            spec_scan_path(s, j + 1, acc.push(s.subrange(i, j)))
        } else {
            Ok((SpecToken::Ident(acc.push(s.subrange(i, j))), j))
        }
    } else {
        Err(LexError { pos: i as usize, kind: LexErrorKind::BadChar })
    }
}

/// The next token at or after `i`, with the position that follows it, or
/// `None` at the end of the source.
pub open spec fn spec_next_token(s: Seq<char>, i0: int) -> Result<
    Option<(SpecToken, int)>,
    LexError,
> {
    let i = spec_skip_ws(s, i0);
    if i >= s.len() {
        Ok(None)
    } else {
        let c = s[i];
        if c == '(' {
            Ok(Some((SpecToken::LParen, i + 1)))
        } else if c == ')' {
            Ok(Some((SpecToken::RParen, i + 1)))
        } else if c == ',' {
            Ok(Some((SpecToken::Comma, i + 1)))
        } else if c == '=' {
            Ok(Some((SpecToken::Op(Operator::Eq), i + 1)))
        } else if c == '!' {
            if i + 1 < s.len() && s[i + 1] == '=' {
                Ok(Some((SpecToken::Op(Operator::Ne), i + 2)))
            } else {
                Err(LexError { pos: i as usize, kind: LexErrorKind::BadChar })
            }
        } else if c == '>' {
            if i + 1 < s.len() && s[i + 1] == '=' {
                Ok(Some((SpecToken::Op(Operator::Ge), i + 2)))
            } else {
                Ok(Some((SpecToken::Op(Operator::Gt), i + 1)))
            }
        } else if c == '<' {
            if i + 1 < s.len() && s[i + 1] == '=' {
                Ok(Some((SpecToken::Op(Operator::Le), i + 2)))
            } else {
                Ok(Some((SpecToken::Op(Operator::Lt), i + 1)))
            }
        } else if c == '\'' {
            match spec_scan_string(s, i + 1, Seq::empty()) {
                Ok((content, j)) => Ok(Some((SpecToken::Str(content), j))),
                Err(()) => Err(LexError { pos: i as usize, kind: LexErrorKind::UnterminatedString }),
            }
        } else if c == '-' || spec_is_digit(c) {
            match spec_number(s, i) {
                Ok((t, j)) => Ok(Some((t, j))),
                Err(e) => Err(e),
            }
        } else if spec_is_ident_start(c) {
            let j = spec_scan_word(s, i);
            if j < s.len() && s[j] == '.' && i < j {
                match spec_scan_path(s, j + 1, seq![s.subrange(i, j)]) {
                    Ok((t, k)) => Ok(Some((t, k))),
                    Err(e) => Err(e),
                }
            } else {
                Ok(Some((spec_word_token(s.subrange(i, j)), j)))
            }
        } else {
            Err(LexError { pos: i as usize, kind: LexErrorKind::BadChar })
        }
    }
}

/// The token sequence from position `i` on.
pub open spec fn spec_lex_from(s: Seq<char>, i: int) -> Result<Seq<SpecToken>, LexError>
    decreases s.len() - i,
{
    match spec_next_token(s, i) {
        Err(e) => Err(e),
        Ok(None) => Ok(Seq::empty()),
        Ok(Some((t, j))) => if i < j <= s.len() {
            match spec_lex_from(s, j) {
                Err(e) => Err(e),
                Ok(rest) => Ok(seq![t] + rest),
            }
        } else {
            // a token always advances; this branch is never reached
            Ok(seq![t])
        },
    }
}

/// The full token sequence of a source string: what the lexer returns.
pub open spec fn spec_lex(s: Seq<char>) -> Result<Seq<SpecToken>, LexError> {
    spec_lex_from(s, 0)
}

/// The characters of `v` between `a` and `b`.
pub fn subvec(v: &Vec<char>, a: usize, b: usize) -> (r: Vec<char>)
    requires
        a <= b <= v@.len(),
    ensures
        r@ == v@.subrange(a as int, b as int),
{
    let mut r: Vec<char> = Vec::new();
    let mut i: usize = a;
    while i < b
        invariant
            a <= i <= b <= v@.len(),
            r@ == v@.subrange(a as int, i as int),
        decreases b - i,
    {
        r.push(v[i]);
        proof {
            assert(r@ =~= v@.subrange(a as int, i + 1));
        }
        i += 1;
    }
    r
}

fn digit_val(c: char) -> (r: u64)
    ensures
        r == spec_digit_val(c),
        r <= 9,
{
    if c == '0' {
        0
    } else if c == '1' {
        1
    } else if c == '2' {
        2
    } else if c == '3' {
        3
    } else if c == '4' {
        4
    } else if c == '5' {
        5
    } else if c == '6' {
        6
    } else if c == '7' {
        7
    } else if c == '8' {
        8
    } else {
        9
    }
}

/// Scans the body of a quoted string, mirroring `spec_scan_string`.
fn lex_string(v: &Vec<char>, start: usize) -> (r: Result<(Vec<char>, usize), ()>)
    requires
        start <= v@.len(),
    ensures
        (match r {
            Ok((content, j)) => spec_scan_string(v@, start as int, Seq::empty()) == Ok::<
                (Seq<char>, int),
                (),
            >((content@, j as int)) && start < j <= v@.len(),
            Err(()) => spec_scan_string(v@, start as int, Seq::empty()) == Err::<
                (Seq<char>, int),
                (),
            >(()),
        }),
{
    let mut acc: Vec<char> = Vec::new();
    let mut i: usize = start;
    loop
        invariant
            start <= i <= v@.len(),
            spec_scan_string(v@, start as int, Seq::empty()) == spec_scan_string(
                v@,
                i as int,
                acc@,
            ),
        decreases v@.len() - i,
    {
        if i >= v.len() {
            return Err(());
        }
        let c = v[i];
        if c == '\'' {
            if i + 1 < v.len() && v[i + 1] == '\'' {
                acc.push('\'');
                i += 2;
            } else {
                return Ok((acc, i + 1));
            }
        } else {
            acc.push(c);
            i += 1;
        }
    }
}

/// Scans a digit run into its value, saturating above the largest
/// magnitude an integer literal may have.
fn digits_value(v: &Vec<char>, d0: usize, j: usize) -> (r: Option<u64>)
    requires
        d0 <= j <= v@.len(),
    ensures
        (match r {
            Some(m) => m == spec_digits_val(v@.subrange(d0 as int, j as int)),
            None => spec_digits_val(v@.subrange(d0 as int, j as int)) > spec_neg_bound(),
        }),
{
    let mut val: u64 = 0;
    let mut sat: bool = false;
    let mut t: usize = d0;
    proof {
        assert(v@.subrange(d0 as int, d0 as int) =~= Seq::<char>::empty());
    }
    while t < j
        invariant
            d0 <= t <= j <= v@.len(),
            !sat ==> val == spec_digits_val(v@.subrange(d0 as int, t as int)),
            sat ==> spec_digits_val(v@.subrange(d0 as int, t as int)) > spec_neg_bound(),
        decreases j - t,
    {
        let d = digit_val(v[t]);
        let ghost pre = v@.subrange(d0 as int, t as int);
        proof {
            assert(v@.subrange(d0 as int, t + 1).drop_last() =~= pre);
            assert(v@.subrange(d0 as int, t + 1).last() == v@[t as int]);
        }
        if sat {
            proof {
                assert(spec_digits_val(v@.subrange(d0 as int, t + 1)) == spec_digits_val(pre) * 10
                    + spec_digit_val(v@[t as int]));
                assert(spec_digits_val(pre) * 10 >= spec_digits_val(pre));
            }
        } else {
            let q: u64 = 1844674407370955161;
            if val > q {
                sat = true;
                proof {
                    assert(spec_digits_val(v@.subrange(d0 as int, t + 1)) == val * 10
                        + spec_digit_val(v@[t as int]));
                    assert(val * 10 > spec_neg_bound());
                }
            } else {
                let v10 = val * 10;
                if d > u64::MAX - v10 {
                    sat = true;
                    proof {
                        assert(spec_digits_val(v@.subrange(d0 as int, t + 1)) == val * 10 + d);
                    }
                } else {
                    val = v10 + d;
                }
            }
        }
        t += 1;
    }
    if sat {
        None
    } else {
        Some(val)
    }
}

/// Lexes a numeric literal, mirroring `spec_number`.
fn lex_number(v: &Vec<char>, i: usize) -> (r: Result<(Token, usize), LexError>)
    requires
        i < v@.len(),
    ensures
        (match r {
            Ok((t, j)) => spec_number(v@, i as int) == Ok::<(SpecToken, int), LexError>((
                t.deep_view(),
                j as int,
            )) && i < j <= v@.len(),
            Err(e) => spec_number(v@, i as int) == Err::<(SpecToken, int), LexError>(e),
        }),
{
    let n = v.len();
    let neg = v[i] == '-';
    let d0: usize = if neg {
        i + 1
    } else {
        i
    };
    if !(d0 < n && is_digit(v[d0])) {
        return Err(LexError { pos: i, kind: LexErrorKind::BadNumber });
    }
    let j = scan_digits(v, d0);
    proof {
        lemma_scan_digits(v@, d0 as int);
        assert(spec_scan_digits(v@, d0 as int) > d0);
    }
    if j < n && v[j] == '.' {
        if j + 1 < n && is_digit(v[j + 1]) {
            let k = scan_digits(v, j + 1);
            proof {
                lemma_scan_digits(v@, j + 1);
            }
            let text = subvec(v, i, k);
            let t = Token::Float(chars_to_string(&text));
            return Ok((t, k));
        } else {
            return Err(LexError { pos: j, kind: LexErrorKind::BadNumber });
        }
    }
    match digits_value(v, d0, j) {
        None => Err(LexError { pos: i, kind: LexErrorKind::BadNumber }),
        Some(m) => {
            if neg {
                if m <= 0x8000_0000_0000_0000 {
                    Ok((Token::Int((-(m as i128)) as i64), j))
                } else {
                    Err(LexError { pos: i, kind: LexErrorKind::BadNumber })
                }
            } else {
                if m <= 0x7fff_ffff_ffff_ffff {
                    Ok((Token::Int(m as i64), j))
                } else {
                    Err(LexError { pos: i, kind: LexErrorKind::BadNumber })
                }
            }
        },
    }
}

/// Lowercases a word.
fn lower_word(w: &Vec<char>) -> (r: Vec<char>)
    ensures
        r@ == spec_lower(w@),
{
    let mut r: Vec<char> = Vec::new();
    let mut i: usize = 0;
    while i < w.len()
        invariant
            0 <= i <= w@.len(),
            r@ == spec_lower(w@.take(i as int)),
        decreases w@.len() - i,
    {
        r.push(lower_char(w[i]));
        proof {
            assert(r@ =~= spec_lower(w@.take(i + 1)));
        }
        i += 1;
    }
    proof {
        assert(w@.take(w@.len() as int) =~= w@);
    }
    r
}

/// The token a bare word stands for, mirroring `spec_word_token`.
fn word_token(w: Vec<char>) -> (t: Token)
    ensures
        t.deep_view() == spec_word_token(w@),
{
    let l = lower_word(&w);
    if l.len() == 3 && l[0] == 'a' && l[1] == 'n' && l[2] == 'd' {
        proof {
            assert(spec_lower(w@) =~= seq!['a', 'n', 'd']);
        }
        Token::And
    } else if l.len() == 2 && l[0] == 'o' && l[1] == 'r' {
        proof {
            assert(spec_lower(w@) =~= seq!['o', 'r']);
        }
        Token::Or
    } else if l.len() == 2 && l[0] == 'i' && l[1] == 'n' {
        proof {
            assert(spec_lower(w@) =~= seq!['i', 'n']);
        }
        Token::In
    } else if l.len() == 5 && l[0] == 'o' && l[1] == 'r' && l[2] == 'd' && l[3] == 'e' && l[4]
        == 'r' {
        proof {
            assert(spec_lower(w@) =~= seq!['o', 'r', 'd', 'e', 'r']);
        }
        Token::Order
    } else if l.len() == 2 && l[0] == 'b' && l[1] == 'y' {
        proof {
            assert(spec_lower(w@) =~= seq!['b', 'y']);
        }
        Token::By
    } else if l.len() == 3 && l[0] == 'a' && l[1] == 's' && l[2] == 'c' {
        proof {
            assert(spec_lower(w@) =~= seq!['a', 's', 'c']);
        }
        Token::Asc
    } else if l.len() == 4 && l[0] == 'd' && l[1] == 'e' && l[2] == 's' && l[3] == 'c' {
        proof {
            assert(spec_lower(w@) =~= seq!['d', 'e', 's', 'c']);
        }
        Token::Desc
    } else if l.len() == 4 && l[0] == 't' && l[1] == 'r' && l[2] == 'u' && l[3] == 'e' {
        proof {
            assert(spec_lower(w@) =~= seq!['t', 'r', 'u', 'e']);
        }
        Token::Bool(true)
    } else if l.len() == 5 && l[0] == 'f' && l[1] == 'a' && l[2] == 'l' && l[3] == 's' && l[4]
        == 'e' {
        proof {
            assert(spec_lower(w@) =~= seq!['f', 'a', 'l', 's', 'e']);
        }
        Token::Bool(false)
    } else {
        proof {
            let l0 = spec_lower(w@);
            assert(l0 != seq!['a', 'n', 'd']);
            assert(l0 != seq!['o', 'r']);
            assert(l0 != seq!['i', 'n']);
            assert(l0 != seq!['o', 'r', 'd', 'e', 'r']);
            assert(l0 != seq!['b', 'y']);
            assert(l0 != seq!['a', 's', 'c']);
            assert(l0 != seq!['d', 'e', 's', 'c']);
            assert(l0 != seq!['t', 'r', 'u', 'e']);
            assert(l0 != seq!['f', 'a', 'l', 's', 'e']);
        }
        let mut segs: Vec<String> = Vec::new();
        segs.push(chars_to_string(&w));
        proof {
            assert(segs.deep_view() =~= seq![w@]);
        }
        Token::Ident(segs)
    }
}

/// Lexes the remaining segments of a dotted path, mirroring
/// `spec_scan_path`.
fn lex_path(v: &Vec<char>, i: usize, segs: Vec<String>) -> (r: Result<(Token, usize), LexError>)
    requires
        i <= v@.len(),
    ensures
        (match r {
            Ok((t, j)) => spec_scan_path(v@, i as int, segs.deep_view()) == Ok::<
                (SpecToken, int),
                LexError,
            >((t.deep_view(), j as int)) && i < j <= v@.len(),
            Err(e) => spec_scan_path(v@, i as int, segs.deep_view()) == Err::<
                (SpecToken, int),
                LexError,
            >(e),
        }),
    decreases v@.len() - i,
{
    if i < v.len() && is_ident_start(v[i]) {
        let j = scan_word(v, i);
        proof {
            lemma_scan_word(v@, i as int);
            assert(spec_scan_word(v@, i as int) > i);
        }
        let seg = chars_to_string(&subvec(v, i, j));
        let mut segs2 = segs;
        let ghost segs_dv = segs2.deep_view();
        segs2.push(seg);
        proof {
            assert(segs2.deep_view() =~= segs_dv.push(v@.subrange(i as int, j as int)));
        }
        if j < v.len() && v[j] == '.' {
            lex_path(v, j + 1, segs2)
        } else {
            Ok((Token::Ident(segs2), j))
        }
    } else {
        Err(LexError { pos: i, kind: LexErrorKind::BadChar })
    }
}

/// The next token at or after `i`, mirroring `spec_next_token`.
pub fn next_token(v: &Vec<char>, i0: usize) -> (r: Result<Option<(Token, usize)>, LexError>)
    requires
        i0 <= v@.len(),
    ensures
        (match r {
            Ok(None) => spec_next_token(v@, i0 as int) == Ok::<
                Option<(SpecToken, int)>,
                LexError,
            >(None),
            Ok(Some((t, j))) => spec_next_token(v@, i0 as int) == Ok::<
                Option<(SpecToken, int)>,
                LexError,
            >(Some((t.deep_view(), j as int))) && i0 < j <= v@.len(),
            Err(e) => spec_next_token(v@, i0 as int) == Err::<
                Option<(SpecToken, int)>,
                LexError,
            >(e),
        }),
{
    let i = skip_ws(v, i0);
    if i >= v.len() {
        return Ok(None);
    }
    let c = v[i];
    if c == '(' {
        Ok(Some((Token::LParen, i + 1)))
    } else if c == ')' {
        Ok(Some((Token::RParen, i + 1)))
    } else if c == ',' {
        Ok(Some((Token::Comma, i + 1)))
    } else if c == '=' {
        Ok(Some((Token::Op(Operator::Eq), i + 1)))
    } else if c == '!' {
        if i + 1 < v.len() && v[i + 1] == '=' {
            Ok(Some((Token::Op(Operator::Ne), i + 2)))
        } else {
            Err(LexError { pos: i, kind: LexErrorKind::BadChar })
        }
    } else if c == '>' {
        if i + 1 < v.len() && v[i + 1] == '=' {
            Ok(Some((Token::Op(Operator::Ge), i + 2)))
        } else {
            Ok(Some((Token::Op(Operator::Gt), i + 1)))
        }
    } else if c == '<' {
        if i + 1 < v.len() && v[i + 1] == '=' {
            Ok(Some((Token::Op(Operator::Le), i + 2)))
        } else {
            Ok(Some((Token::Op(Operator::Lt), i + 1)))
        }
    } else if c == '\'' {
        match lex_string(v, i + 1) {
            Ok((content, j)) => Ok(Some((Token::Str(chars_to_string(&content)), j))),
            Err(()) => Err(LexError { pos: i, kind: LexErrorKind::UnterminatedString }),
        }
    } else if c == '-' || is_digit(c) {
        match lex_number(v, i) {
            Ok((t, j)) => Ok(Some((t, j))),
            Err(e) => Err(e),
        }
    } else if is_ident_start(c) {
        let j = scan_word(v, i);
        proof {
            lemma_scan_word(v@, i as int);
            assert(spec_scan_word(v@, i as int) > i);
        }
        if j < v.len() && v[j] == '.' {
            let mut segs: Vec<String> = Vec::new();
            segs.push(chars_to_string(&subvec(v, i, j)));
            proof {
                assert(segs.deep_view() =~= seq![v@.subrange(i as int, j as int)]);
            }
            match lex_path(v, j + 1, segs) {
                Ok((t, k)) => Ok(Some((t, k))),
                Err(e) => Err(e),
            }
        } else {
            Ok(Some((word_token(subvec(v, i, j)), j)))
        }
    } else {
        Err(LexError { pos: i, kind: LexErrorKind::BadChar })
    }
}

/// Lexes a whole character buffer.
pub fn lex_chars(v: &Vec<char>) -> (r: Result<Vec<Token>, LexError>)
    ensures
        (match r {
            Ok(ts) => spec_lex(v@) == Ok::<Seq<SpecToken>, LexError>(ts.deep_view()),
            Err(e) => spec_lex(v@) == Err::<Seq<SpecToken>, LexError>(e),
        }),
{
    let mut out: Vec<Token> = Vec::new();
    let mut i: usize = 0;
    loop
        invariant
            0 <= i <= v@.len(),
            spec_lex(v@) == (match spec_lex_from(v@, i as int) {
                Ok(rest) => Ok::<Seq<SpecToken>, LexError>(out.deep_view() + rest),
                Err(e) => Err::<Seq<SpecToken>, LexError>(e),
            }),
        decreases v@.len() - i,
    {
        match next_token(v, i) {
            Err(e) => {
                return Err(e);
            },
            Ok(None) => {
                proof {
                    assert(out.deep_view() + Seq::<SpecToken>::empty() =~= out.deep_view());
                }
                return Ok(out);
            },
            Ok(Some((t, j))) => {
                let ghost out_dv = out.deep_view();
                out.push(t);
                proof {
                    assert(out.deep_view() =~= out_dv.push(t.deep_view()));
                    assert forall|rest: Seq<SpecToken>|
                        #[trigger] (out_dv + (seq![t.deep_view()] + rest)) == out.deep_view()
                            + rest by {
                        assert(out_dv + (seq![t.deep_view()] + rest) =~= out.deep_view() + rest);
                    }
                }
                i = j;
            },
        }
    }
}

/// Lexes a source string into its token sequence, or fails with the
/// offset of the first malformed token.
pub fn lex(s: &str) -> (r: Result<Vec<Token>, LexError>)
    ensures
        (match r {
            Ok(ts) => spec_lex(s@) == Ok::<Seq<SpecToken>, LexError>(ts.deep_view()),
            Err(e) => spec_lex(s@) == Err::<Seq<SpecToken>, LexError>(e),
        }),
{
    let v = crate::literal::str_chars(s);
    lex_chars(&v)
}

} // verus!
