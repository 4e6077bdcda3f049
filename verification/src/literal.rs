//! The literal value model: typed scalar values used both as predicate
//! leaves and as interpolation payloads, and their rendered textual form.
//!
//! A float is carried as its decimal lexeme (optional sign, digits, `.`,
//! digits) so that rendering and re-lexing are exact and lossless; the
//! evaluation engine, outside this crate, decides its numeric reading.

use vstd::prelude::*;
use crate::chars::{spec_scan_digits, scan_digits};

verus! {

/// Spec-level model of a literal: string contents as character sequences,
/// integers as unbounded integers, floats as their decimal lexeme.
pub enum SpecLiteral {
    Str(Seq<char>),
    Int(int),
    Float(Seq<char>),
    Bool(bool),
}

/// A typed, immutable literal value.
#[derive(Debug, Clone, PartialEq)]
pub enum Literal {
    Str(String),
    Int(i64),
    Float(String),
    Bool(bool),
}

impl DeepView for Literal {
    type V = SpecLiteral;

    open spec fn deep_view(&self) -> SpecLiteral {
        match self {
            Literal::Str(s) => SpecLiteral::Str(s@),
            Literal::Int(n) => SpecLiteral::Int(*n as int),
            Literal::Float(t) => SpecLiteral::Float(t@),
            Literal::Bool(b) => SpecLiteral::Bool(*b),
        }
    }
}

impl Literal {
    /// A copy with the same model.
    pub fn duplicate(&self) -> (r: Literal)
        ensures
            r.deep_view() == self.deep_view(),
    {
        match self {
            Literal::Str(s) => Literal::Str(s.clone()),
            Literal::Int(n) => Literal::Int(*n),
            Literal::Float(t) => Literal::Float(t.clone()),
            Literal::Bool(b) => Literal::Bool(*b),
        }
    }
}

/// The shape a float lexeme must have: an optional leading `-`, one or
/// more digits, a dot, one or more digits, and nothing else.
pub open spec fn spec_is_float_lexeme(s: Seq<char>) -> bool {
    let b: int = if s.len() > 0 && s[0] == '-' {
        1
    } else {
        0
    };
    let d1 = spec_scan_digits(s, b);
    &&& d1 > b
    &&& d1 < s.len()
    &&& s[d1] == '.'
    &&& d1 + 1 < s.len()
    &&& spec_scan_digits(s, d1 + 1) == s.len()
}

/// A literal is well formed when a float lexeme has its required shape
/// and an integer lies in the 64-bit signed range; strings and booleans
/// carry no constraint. Every value an exec `Literal` can hold except a
/// malformed float lexeme is well formed.
pub open spec fn spec_literal_wf(l: SpecLiteral) -> bool {
    match l {
        SpecLiteral::Float(t) => spec_is_float_lexeme(t),
        SpecLiteral::Int(n) => -0x8000_0000_0000_0000 <= n <= 0x7fff_ffff_ffff_ffff,
        _ => true,
    }
}

/// Checks the float lexeme shape on a character buffer.
pub fn is_float_lexeme(v: &Vec<char>) -> (r: bool)
    ensures
        r == spec_is_float_lexeme(v@),
{
    let start: usize = if v.len() > 0 && v[0] == '-' {
        1
    } else {
        0
    };
    let d1 = scan_digits(v, start);
    if d1 == start || d1 >= v.len() || v[d1] != '.' {
        return false;
    }
    let d2 = scan_digits(v, d1 + 1);
    d2 > d1 + 1 && d2 == v.len()
}

/// How one character appears inside a rendered single-quoted string:
/// an embedded quote is doubled, every other character stands as itself.
pub open spec fn spec_escape_char(c: char) -> Seq<char> {
    if c == '\'' {
        seq!['\'', '\'']
    } else {
        seq![c]
    }
}

/// The escaped body of a rendered string literal.
pub open spec fn spec_escape(s: Seq<char>) -> Seq<char>
    decreases s.len(),
{
    if s.len() == 0 {
        Seq::empty()
    } else {
        spec_escape_char(s[0]) + spec_escape(s.skip(1))
    }
}

pub proof fn lemma_escape_push(s: Seq<char>, c: char)
    ensures
        spec_escape(s.push(c)) == spec_escape(s) + spec_escape_char(c),
    decreases s.len(),
{
    if s.len() == 0 {
        assert(s.push(c).skip(1) =~= Seq::<char>::empty());
        assert(spec_escape(Seq::<char>::empty()) == Seq::<char>::empty());
        assert(spec_escape(s.push(c)) =~= spec_escape_char(c));
        assert(spec_escape(s) + spec_escape_char(c) =~= spec_escape_char(c));
    } else {
        assert(s.push(c).skip(1) =~= s.skip(1).push(c));
        lemma_escape_push(s.skip(1), c);
        assert(spec_escape(s.push(c)) =~= spec_escape(s) + spec_escape_char(c));
    }
}

pub open spec fn spec_digit_char(d: int) -> char {
    if d == 0 {
        '0'
    } else if d == 1 {
        '1'
    } else if d == 2 {
        '2'
    } else if d == 3 {
        '3'
    } else if d == 4 {
        '4'
    } else if d == 5 {
        '5'
    } else if d == 6 {
        '6'
    } else if d == 7 {
        '7'
    } else if d == 8 {
        '8'
    } else {
        '9'
    }
}

/// Decimal digits of a natural number, most significant first.
pub open spec fn spec_nat_digits(n: nat) -> Seq<char>
    decreases n,
{
    if n < 10 {
        seq![spec_digit_char(n as int)]
    } else {
        spec_nat_digits(n / 10).push(spec_digit_char((n % 10) as int))
    }
}

/// Rendered form of an integer: decimal digits, `-`-prefixed when negative.
pub open spec fn spec_int_chars(n: int) -> Seq<char> {
    if n < 0 {
        seq!['-'] + spec_nat_digits((-n) as nat)
    } else {
        spec_nat_digits(n as nat)
    }
}

/// The rendered, escaped textual form of a literal: what interpolation
/// substitutes for a placeholder, and what the lexer reads back.
pub open spec fn spec_render(l: SpecLiteral) -> Seq<char> {
    match l {
        SpecLiteral::Str(s) => seq!['\''] + spec_escape(s) + seq!['\''],
        SpecLiteral::Int(n) => spec_int_chars(n),
        SpecLiteral::Float(t) => t,
        SpecLiteral::Bool(b) => if b {
            seq!['t', 'r', 'u', 'e']
        } else {
            seq!['f', 'a', 'l', 's', 'e']
        },
    }
}

/// Relies on `String`'s `FromIterator<char>`: collecting an iterator of
/// characters builds the string holding exactly those characters in order.
#[verifier::external_body]
pub fn chars_to_string(v: &Vec<char>) -> (r: String)
    ensures
        r@ == v@,
{
    v.iter().collect()
}

/// The characters of a string slice, in order.
pub fn str_chars(s: &str) -> (r: Vec<char>)
    ensures
        r@ == s@,
{
    let n = s.unicode_len();
    let mut v: Vec<char> = Vec::new();
    let mut i: usize = 0;
    while i < n
        invariant
            n == s@.len(),
            0 <= i <= n,
            v@ == s@.take(i as int),
        decreases n - i,
    {
        let c = s.get_char(i);
        v.push(c);
        proof {
            assert(v@ =~= s@.take(i + 1));
        }
        i += 1;
    }
    proof {
        assert(s@.take(n as int) =~= s@);
    }
    v
}

fn digit_char(d: u64) -> (r: char)
    requires
        d <= 9,
    ensures
        r == spec_digit_char(d as int),
{
    if d == 0 {
        '0'
    } else if d == 1 {
        '1'
    } else if d == 2 {
        '2'
    } else if d == 3 {
        '3'
    } else if d == 4 {
        '4'
    } else if d == 5 {
        '5'
    } else if d == 6 {
        '6'
    } else if d == 7 {
        '7'
    } else if d == 8 {
        '8'
    } else {
        '9'
    }
}

fn push_nat_digits(buf: &mut Vec<char>, m: u64)
    ensures
        final(buf)@ == old(buf)@ + spec_nat_digits(m as nat),
    decreases m,
{
    if m < 10 {
        buf.push(digit_char(m));
        proof {
            assert(buf@ =~= old(buf)@ + spec_nat_digits(m as nat));
        }
    } else {
        push_nat_digits(buf, m / 10);
        buf.push(digit_char(m % 10));
        proof {
            assert(buf@ =~= old(buf)@ + spec_nat_digits(m as nat));
        }
    }
}

/// Appends the rendered form of a literal to a character buffer.
pub fn push_rendered(buf: &mut Vec<char>, l: &Literal)
    ensures
        final(buf)@ == old(buf)@ + spec_render(l.deep_view()),
{
    match l {
        Literal::Str(s) => {
            let cs = str_chars(s.as_str());
            buf.push('\'');
            let ghost pre = buf@;
            let mut i: usize = 0;
            while i < cs.len()
                invariant
                    0 <= i <= cs@.len(),
                    cs@ == s@,
                    buf@ == pre + spec_escape(cs@.take(i as int)),
                decreases cs@.len() - i,
            {
                let c = cs[i];
                if c == '\'' {
                    buf.push('\'');
                    buf.push('\'');
                } else {
                    buf.push(c);
                }
                proof {
                    assert(cs@.take(i as int).push(cs@[i as int]) =~= cs@.take(i + 1));
                    lemma_escape_push(cs@.take(i as int), cs@[i as int]);
                    assert(buf@ =~= pre + spec_escape(cs@.take(i + 1)));
                }
                i += 1;
            }
            buf.push('\'');
            proof {
                assert(cs@.take(cs@.len() as int) =~= cs@);
                assert(buf@ =~= old(buf)@ + spec_render(l.deep_view()));
            }
        },
        Literal::Int(n) => {
            let nn = *n;
            if nn < 0 {
                buf.push('-');
                let m: u64 = ((-(nn as i128)) as u64);
                let ghost pre = buf@;
                push_nat_digits(buf, m);
                proof {
                    assert(buf@ =~= old(buf)@ + spec_int_chars(nn as int));
                }
            } else {
                let m: u64 = nn as u64;
                push_nat_digits(buf, m);
            }
        },
        Literal::Float(t) => {
            let cs = str_chars(t.as_str());
            let mut i: usize = 0;
            while i < cs.len()
                invariant
                    0 <= i <= cs@.len(),
                    cs@ == t@,
                    buf@ == old(buf)@ + cs@.take(i as int),
                decreases cs@.len() - i,
            {
                buf.push(cs[i]);
                proof {
                    assert(buf@ =~= old(buf)@ + cs@.take(i + 1));
                }
                i += 1;
            }
            proof {
                assert(cs@.take(cs@.len() as int) =~= cs@);
            }
        },
        Literal::Bool(b) => {
            if *b {
                buf.push('t');
                buf.push('r');
                buf.push('u');
                buf.push('e');
                proof {
                    assert(buf@ =~= old(buf)@ + seq!['t', 'r', 'u', 'e']);
                }
            } else {
                buf.push('f');
                buf.push('a');
                buf.push('l');
                buf.push('s');
                buf.push('e');
                proof {
                    assert(buf@ =~= old(buf)@ + seq!['f', 'a', 'l', 's', 'e']);
                }
            }
        },
    }
}

/// The rendered, escaped textual form of a literal: strings are wrapped in
/// single quotes with each embedded quote doubled; integers, floats and
/// booleans are rendered as bare tokens.
pub fn render_literal(l: &Literal) -> (r: String)
    ensures
        r@ == spec_render(l.deep_view()),
{
    let mut buf: Vec<char> = Vec::new();
    push_rendered(&mut buf, l);
    chars_to_string(&buf)
}

} // verus!
