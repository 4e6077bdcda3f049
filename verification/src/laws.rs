//! Laws of the library: the rendered, escaped textual form of any
//! well-formed literal lexes back to exactly that literal, and every query
//! that compiles is well formed (non-empty field paths, non-empty `IN`
//! lists).

use vstd::prelude::*;
use crate::ast::{spec_predicate_wf, spec_query_wf, SpecPredicate};
use crate::chars::{
    spec_is_digit, spec_is_ident_cont, spec_is_ident_start, spec_lower, spec_lower_char,
    spec_scan_digits, spec_scan_word, spec_skip_ws,
};
use crate::compile::{spec_compile, spec_compile_source, SpecInterpolation};
use crate::interp::{spec_interp_quoted, spec_interp_unquoted};
use crate::lexer::{
    spec_digit_val, spec_digits_val, spec_lex, spec_lex_from, spec_next_token, spec_scan_path,
    spec_scan_string, spec_word_token,
};
use crate::literal::{
    spec_digit_char, spec_escape, spec_escape_char, spec_is_float_lexeme, spec_literal_wf,
    spec_nat_digits, spec_render, SpecLiteral,
};
use crate::parser::{
    sp_and, sp_and_more, sp_in_list, sp_or, sp_or_more, sp_order_item, sp_order_list, sp_primary,
    sp_query, spec_lit_of,
};
use crate::token::{spec_token_wf, LexError, Operator, SpecToken};

verus! {

/// The single token that a rendered literal lexes to.
pub open spec fn spec_literal_token(l: SpecLiteral) -> SpecToken {
    match l {
        SpecLiteral::Str(s) => SpecToken::Str(s),
        SpecLiteral::Int(n) => SpecToken::Int(n),
        SpecLiteral::Float(t) => SpecToken::Float(t),
        SpecLiteral::Bool(b) => SpecToken::Bool(b),
    }
}

proof fn lemma_scan_digits_run(s: Seq<char>, i: int, j: int)
    requires
        0 <= i <= j <= s.len(),
        forall|t: int| i <= t < j ==> spec_is_digit(#[trigger] s[t]),
        j == s.len() || !spec_is_digit(s[j]),
    ensures
        spec_scan_digits(s, i) == j,
    decreases j - i,
{
    if i < j {
        lemma_scan_digits_run(s, i + 1, j);
    }
}

proof fn lemma_scan_word_run(s: Seq<char>, i: int, j: int)
    requires
        0 <= i <= j <= s.len(),
        forall|t: int| i <= t < j ==> spec_is_ident_cont(#[trigger] s[t]),
        j == s.len() || !spec_is_ident_cont(s[j]),
    ensures
        spec_scan_word(s, i) == j,
    decreases j - i,
{
    if i < j {
        lemma_scan_word_run(s, i + 1, j);
    }
}

proof fn lemma_digit_char_val(d: int)
    requires
        0 <= d <= 9,
    ensures
        spec_digit_val(spec_digit_char(d)) == d,
        spec_is_digit(spec_digit_char(d)),
{
}

/// The decimal digits of a natural number are digits, read back to the
/// same number, and start with a digit.
proof fn lemma_nat_digits(m: nat)
    ensures
        spec_nat_digits(m).len() >= 1,
        forall|i: int|
            0 <= i < spec_nat_digits(m).len() ==> spec_is_digit(#[trigger] spec_nat_digits(m)[i]),
        spec_digits_val(spec_nat_digits(m)) == m,
    decreases m,
{
    if m < 10 {
        lemma_digit_char_val(m as int);
        let d = spec_nat_digits(m);
        assert(d =~= seq![spec_digit_char(m as int)]);
        assert(d.drop_last() =~= Seq::<char>::empty());
        assert(spec_digits_val(Seq::<char>::empty()) == 0);
        assert(spec_digits_val(d) == spec_digit_val(d.last()));
    } else {
        lemma_nat_digits(m / 10);
        lemma_digit_char_val((m % 10) as int);
        let pre = spec_nat_digits(m / 10);
        let c = spec_digit_char((m % 10) as int);
        let d = spec_nat_digits(m);
        assert(d == pre.push(c));
        assert(d.drop_last() =~= pre);
        assert(d.last() == c);
        assert(spec_digits_val(d) == spec_digits_val(pre) * 10 + spec_digit_val(c));
        assert(spec_digits_val(d) == (m / 10) * 10 + (m % 10));
        assert forall|i: int| 0 <= i < d.len() implies spec_is_digit(#[trigger] d[i]) by {
            if i < pre.len() {
                assert(d[i] == pre[i]);
            } else {
                assert(d[i] == c);
            }
        }
    }
}

/// Scanning a rendered string body: from position `i`, where the rest of
/// the buffer is the escaped contents followed by the closing quote, the
/// scan succeeds, decodes exactly those contents, and stops at the end.
proof fn lemma_scan_escaped(s: Seq<char>, i: int, c0: Seq<char>, acc: Seq<char>)
    requires
        0 <= i <= s.len(),
        s.subrange(i, s.len() as int) == spec_escape(c0) + seq!['\''],
    ensures
        spec_scan_string(s, i, acc) == Ok::<(Seq<char>, int), ()>((acc + c0, s.len() as int)),
    decreases c0.len(),
{
    let suf = s.subrange(i, s.len() as int);
    assert(suf.len() == s.len() - i);
    if c0.len() == 0 {
        assert(spec_escape(c0) =~= Seq::<char>::empty());
        assert(suf =~= seq!['\'']);
        assert(s.len() - i == 1);
        assert(s[i] == suf[0]);
        assert(s[i] == '\'');
        assert(spec_scan_string(s, i, acc) == Ok::<(Seq<char>, int), ()>((acc, i + 1)));
        assert(acc + c0 =~= acc);
    } else {
        let ch = c0[0];
        let rest = c0.skip(1);
        assert(spec_escape(c0) == spec_escape_char(ch) + spec_escape(rest));
        if ch == '\'' {
            assert(spec_escape_char(ch) == seq!['\'', '\'']);
            assert(spec_escape(c0).len() == 2 + spec_escape(rest).len());
            assert(suf.len() >= 3);
            assert(s[i] == suf[0]);
            assert(suf[0] == '\'');
            assert(s[i + 1] == suf[1]);
            assert(suf[1] == '\'');
            assert(i + 1 < s.len());
            assert forall|t: int|
                0 <= t < s.len() - (i + 2) implies s.subrange(i + 2, s.len() as int)[t] == (
            spec_escape(rest) + seq!['\''])[t] by {
                assert(s.subrange(i + 2, s.len() as int)[t] == s[i + 2 + t]);
                assert(s[i + 2 + t] == suf[t + 2]);
            }
            assert(s.subrange(i + 2, s.len() as int) =~= spec_escape(rest) + seq!['\'']);
            lemma_scan_escaped(s, i + 2, rest, acc.push('\''));
            assert(acc.push('\'') + rest =~= acc + c0);
        } else {
            assert(spec_escape_char(ch) == seq![ch]);
            assert(spec_escape(c0).len() == 1 + spec_escape(rest).len());
            assert(suf.len() >= 2);
            assert(s[i] == suf[0]);
            assert(suf[0] == ch);
            assert(s[i] != '\'');
            assert(i < s.len());
            assert forall|t: int|
                0 <= t < s.len() - (i + 1) implies s.subrange(i + 1, s.len() as int)[t] == (
            spec_escape(rest) + seq!['\''])[t] by {
                assert(s.subrange(i + 1, s.len() as int)[t] == s[i + 1 + t]);
                assert(s[i + 1 + t] == suf[t + 1]);
            }
            assert(s.subrange(i + 1, s.len() as int) =~= spec_escape(rest) + seq!['\'']);
            lemma_scan_escaped(s, i + 1, rest, acc.push(ch));
            assert(acc.push(ch) + rest =~= acc + c0);
        }
    }
}

/// The next token of a rendered literal is the literal's token, and it
/// consumes the whole rendering.
proof fn lemma_render_next_token(l: SpecLiteral)
    requires
        spec_literal_wf(l),
    ensures
        spec_render(l).len() > 0,
        spec_next_token(spec_render(l), 0) == Ok::<Option<(SpecToken, int)>, LexError>(
            Some((spec_literal_token(l), spec_render(l).len() as int)),
        ),
{
    let s = spec_render(l);
    match l {
        SpecLiteral::Str(c0) => {
            assert(s == seq!['\''] + spec_escape(c0) + seq!['\'']);
            assert(s[0] == '\'');
            assert forall|t: int|
                0 <= t < s.len() - 1 implies s.subrange(1, s.len() as int)[t] == (spec_escape(c0)
                + seq!['\''])[t] by {
                assert(s.subrange(1, s.len() as int)[t] == s[1 + t]);
            }
            assert(s.subrange(1, s.len() as int) =~= spec_escape(c0) + seq!['\'']);
            lemma_scan_escaped(s, 1, c0, Seq::empty());
            assert(Seq::<char>::empty() + c0 =~= c0);
        },
        SpecLiteral::Int(n) => {
            if n >= 0 {
                let d = spec_nat_digits(n as nat);
                lemma_nat_digits(n as nat);
                assert(s == d);
                lemma_scan_digits_run(s, 0, s.len() as int);
                assert(s.subrange(0, s.len() as int) =~= s);
                assert(spec_digits_val(s.subrange(0, s.len() as int)) == n);
            } else {
                let d = spec_nat_digits((-n) as nat);
                lemma_nat_digits((-n) as nat);
                assert(s == seq!['-'] + d);
                assert(s[0] == '-');
                assert(s.len() == 1 + d.len());
                assert forall|t: int| 1 <= t < s.len() implies spec_is_digit(#[trigger] s[t]) by {
                    assert(s[t] == d[t - 1]);
                }
                assert(spec_is_digit(s[1]));
                lemma_scan_digits_run(s, 1, s.len() as int);
                assert(s.subrange(1, s.len() as int) =~= d);
                assert(spec_digits_val(s.subrange(1, s.len() as int)) == (-n) as nat);
            }
        },
        SpecLiteral::Float(t0) => {
            assert(s == t0);
            let b: int = if s.len() > 0 && s[0] == '-' {
                1
            } else {
                0
            };
            let d1 = spec_scan_digits(s, b);
            crate::chars::lemma_scan_digits(s, b);
            assert(spec_is_digit(s[b]));
            crate::chars::lemma_scan_digits(s, d1 + 1);
            assert(spec_is_digit(s[d1 + 1]));
            assert(!spec_is_digit('-'));
            assert(!spec_is_digit('.'));
            assert(s.subrange(0, s.len() as int) =~= s);
            assert(spec_next_token(s, 0) == Ok::<Option<(SpecToken, int)>, LexError>(
                Some((SpecToken::Float(t0), s.len() as int)),
            ));
        },
        SpecLiteral::Bool(b) => {
            if b {
                assert(s == seq!['t', 'r', 'u', 'e']);
                assert(spec_is_ident_start(s[0]));
                assert forall|t: int|
                    0 <= t < s.len() implies spec_is_ident_cont(#[trigger] s[t]) by {}
                lemma_scan_word_run(s, 0, 4);
                let w = s.subrange(0, 4);
                assert(w =~= s);
                assert forall|t: int|
                    0 <= t < 4 implies #[trigger] spec_lower(w)[t] == spec_lower_char(s[t]) by {}
                assert(spec_lower(w) =~= seq!['t', 'r', 'u', 'e']);
                assert(spec_lower(w) != seq!['a', 'n', 'd']);
                assert(spec_lower(w) != seq!['o', 'r']);
                assert(spec_lower(w) != seq!['i', 'n']);
                assert(spec_lower(w) != seq!['o', 'r', 'd', 'e', 'r']);
                assert(spec_lower(w) != seq!['b', 'y']);
                assert(spec_lower(w) != seq!['a', 's', 'c']);
                assert(spec_lower(w) != seq!['d', 'e', 's', 'c']);
            } else {
                assert(s == seq!['f', 'a', 'l', 's', 'e']);
                assert(spec_is_ident_start(s[0]));
                assert forall|t: int|
                    0 <= t < s.len() implies spec_is_ident_cont(#[trigger] s[t]) by {}
                lemma_scan_word_run(s, 0, 5);
                let w = s.subrange(0, 5);
                assert(w =~= s);
                assert forall|t: int|
                    0 <= t < 5 implies #[trigger] spec_lower(w)[t] == spec_lower_char(s[t]) by {}
                assert(spec_lower(w) =~= seq!['f', 'a', 'l', 's', 'e']);
                assert(spec_lower(w) != seq!['a', 'n', 'd']);
                assert(spec_lower(w) != seq!['o', 'r']);
                assert(spec_lower(w) != seq!['i', 'n']);
                assert(spec_lower(w) != seq!['o', 'r', 'd', 'e', 'r']);
                assert(spec_lower(w) != seq!['b', 'y']);
                assert(spec_lower(w) != seq!['a', 's', 'c']);
                assert(spec_lower(w) != seq!['d', 'e', 's', 'c']);
                assert(spec_lower(w) != seq!['t', 'r', 'u', 'e']);
            }
        },
    }
}

/// Round trip: rendering any well-formed literal to its escaped textual
/// form and re-lexing it yields exactly one token, and that token stands
/// for the same literal. This holds for every string (quotes included),
/// every 64-bit integer, every float lexeme and both booleans.
pub proof fn lemma_render_lex_round_trip(l: SpecLiteral)
    requires
        spec_literal_wf(l),
    ensures
        spec_lex(spec_render(l)) == Ok::<Seq<SpecToken>, LexError>(seq![spec_literal_token(l)]),
        spec_lit_of(spec_literal_token(l)) == Some(l),
{
    let s = spec_render(l);
    lemma_render_next_token(l);
    let tok = spec_literal_token(l);
    assert(spec_lex_from(s, s.len() as int) == Ok::<Seq<SpecToken>, LexError>(Seq::empty()));
    assert(spec_lex_from(s, 0) == Ok::<Seq<SpecToken>, LexError>(
        seq![tok] + Seq::<SpecToken>::empty(),
    ));
    assert(seq![tok] + Seq::<SpecToken>::empty() =~= seq![tok]);
}

/// Every token of a sequence is well formed.
pub open spec fn spec_tokens_wf(t: Seq<SpecToken>) -> bool {
    forall|k: int| 0 <= k < t.len() ==> spec_token_wf(#[trigger] t[k])
}

proof fn lemma_scan_path_wf(s: Seq<char>, i: int, acc: Seq<Seq<char>>)
    ensures
        (match spec_scan_path(s, i, acc) {
            Ok((t, j)) => t matches SpecToken::Ident(segs) && segs.len() > acc.len(),
            Err(_) => true,
        }),
    decreases s.len() - i,
{
    if i < s.len() && spec_is_ident_start(s[i]) {
        let j = spec_scan_word(s, i);
        if j < s.len() && s[j] == '.' && i < j {
            lemma_scan_path_wf(s, j + 1, acc.push(s.subrange(i, j)));
        }
    }
}

proof fn lemma_next_token_wf(s: Seq<char>, i: int)
    ensures
        (match spec_next_token(s, i) {
            Ok(Some((t, j))) => spec_token_wf(t),
            _ => true,
        }),
{
    let i2 = spec_skip_ws(s, i);
    if i2 < s.len() && spec_is_ident_start(s[i2]) {
        let j = spec_scan_word(s, i2);
        if j < s.len() && s[j] == '.' && i2 < j {
            lemma_scan_path_wf(s, j + 1, seq![s.subrange(i2, j)]);
        } else {
            assert(spec_token_wf(spec_word_token(s.subrange(i2, j))));
        }
    }
}

proof fn lemma_lex_from_wf(s: Seq<char>, i: int)
    ensures
        (match spec_lex_from(s, i) {
            Ok(toks) => spec_tokens_wf(toks),
            Err(_) => true,
        }),
    decreases s.len() - i,
{
    lemma_next_token_wf(s, i);
    match spec_next_token(s, i) {
        Ok(Some((t, j))) => {
            if i < j <= s.len() {
                lemma_lex_from_wf(s, j);
                match spec_lex_from(s, j) {
                    Ok(rest) => {
                        assert forall|k: int|
                            0 <= k < (seq![t] + rest).len() implies spec_token_wf(
                            #[trigger] (seq![t] + rest)[k]) by {
                            if k == 0 {
                                assert((seq![t] + rest)[0] == t);
                            } else {
                                assert((seq![t] + rest)[k] == rest[k - 1]);
                            }
                        }
                    },
                    Err(_) => {},
                }
            } else {
                assert forall|k: int|
                    0 <= k < seq![t].len() implies spec_token_wf(#[trigger] seq![t][k]) by {
                    assert(seq![t][k] == t);
                }
            }
        },
        _ => {},
    }
}

/// Every token the lexer produces is well formed.
pub proof fn lemma_lex_wf(s: Seq<char>)
    ensures
        (match spec_lex(s) {
            Ok(toks) => spec_tokens_wf(toks),
            Err(_) => true,
        }),
{
    lemma_lex_from_wf(s, 0);
}

proof fn lemma_in_list_wf(t: Seq<SpecToken>, i: int, acc: Seq<SpecLiteral>)
    requires
        0 <= i,
    ensures
        (match sp_in_list(t, i, acc) {
            Ok((vals, j)) => vals.len() > acc.len() && i < j <= t.len(),
            Err(_) => true,
        }),
    decreases t.len() - i,
{
    if i < t.len() {
        match spec_lit_of(t[i]) {
            Some(l) => {
                if i + 1 < t.len() && t[i + 1] == SpecToken::Comma {
                    lemma_in_list_wf(t, i + 2, acc.push(l));
                }
            },
            None => {},
        }
    }
}

proof fn lemma_primary_wf(t: Seq<SpecToken>, i: int)
    requires
        0 <= i,
        spec_tokens_wf(t),
    ensures
        (match sp_primary(t, i) {
            Ok((p, j)) => spec_predicate_wf(p) && i < j <= t.len(),
            Err(_) => true,
        }),
    decreases t.len() - i, 0int,
{
    if i < t.len() {
        assert(spec_token_wf(t[i]));
        match t[i] {
            SpecToken::LParen => {
                lemma_or_wf(t, i + 1);
            },
            SpecToken::Ident(segs) => {
                if i + 1 < t.len() {
                    assert(spec_token_wf(t[i + 1]));
                    match t[i + 1] {
                        SpecToken::In => {
                            if !(i + 2 >= t.len() || t[i + 2] != SpecToken::LParen) {
                                lemma_in_list_wf(t, i + 3, Seq::empty());
                            }
                        },
                        _ => {},
                    }
                }
            },
            _ => {},
        }
    }
}

proof fn lemma_and_more_wf(t: Seq<SpecToken>, i: int, left: SpecPredicate)
    requires
        0 <= i <= t.len(),
        spec_tokens_wf(t),
        spec_predicate_wf(left),
    ensures
        (match sp_and_more(t, i, left) {
            Ok((p, j)) => spec_predicate_wf(p) && i <= j <= t.len(),
            Err(_) => true,
        }),
    decreases t.len() - i, 3int,
{
    if 0 <= i < t.len() && t[i] == SpecToken::And {
        lemma_primary_wf(t, i + 1);
        match sp_primary(t, i + 1) {
            Ok((p, j)) => {
                if i < j <= t.len() {
                    lemma_and_more_wf(t, j, SpecPredicate::And(Box::new(left), Box::new(p)));
                }
            },
            Err(_) => {},
        }
    }
}

proof fn lemma_and_wf(t: Seq<SpecToken>, i: int)
    requires
        0 <= i,
        spec_tokens_wf(t),
    ensures
        (match sp_and(t, i) {
            Ok((p, j)) => spec_predicate_wf(p) && i < j <= t.len(),
            Err(_) => true,
        }),
    decreases t.len() - i, 1int,
{
    lemma_primary_wf(t, i);
    match sp_primary(t, i) {
        Ok((p, j)) => {
            if i < j <= t.len() {
                lemma_and_more_wf(t, j, p);
            }
        },
        Err(_) => {},
    }
}

proof fn lemma_or_more_wf(t: Seq<SpecToken>, i: int, left: SpecPredicate)
    requires
        0 <= i <= t.len(),
        spec_tokens_wf(t),
        spec_predicate_wf(left),
    ensures
        (match sp_or_more(t, i, left) {
            Ok((p, j)) => spec_predicate_wf(p) && i <= j <= t.len(),
            Err(_) => true,
        }),
    decreases t.len() - i, 4int,
{
    if 0 <= i < t.len() && t[i] == SpecToken::Or {
        lemma_and_wf(t, i + 1);
        match sp_and(t, i + 1) {
            Ok((p, j)) => {
                if i < j <= t.len() {
                    lemma_or_more_wf(t, j, SpecPredicate::Or(Box::new(left), Box::new(p)));
                }
            },
            Err(_) => {},
        }
    }
}

proof fn lemma_or_wf(t: Seq<SpecToken>, i: int)
    requires
        0 <= i,
        spec_tokens_wf(t),
    ensures
        (match sp_or(t, i) {
            Ok((p, j)) => spec_predicate_wf(p) && i < j <= t.len(),
            Err(_) => true,
        }),
    decreases t.len() - i, 2int,
{
    lemma_and_wf(t, i);
    match sp_and(t, i) {
        Ok((p, j)) => {
            if i < j <= t.len() {
                lemma_or_more_wf(t, j, p);
            }
        },
        Err(_) => {},
    }
}

proof fn lemma_order_list_wf(t: Seq<SpecToken>, i: int, acc: Seq<crate::ast::SpecOrderItem>)
    requires
        0 <= i,
        spec_tokens_wf(t),
        forall|k: int| 0 <= k < acc.len() ==> (#[trigger] acc[k]).field.len() >= 1,
    ensures
        (match sp_order_list(t, i, acc) {
            Ok((items, j)) => items.len() > acc.len() && (forall|k: int|
                0 <= k < items.len() ==> (#[trigger] items[k]).field.len() >= 1),
            Err(_) => true,
        }),
    decreases t.len() - i,
{
    if i < t.len() {
        assert(spec_token_wf(t[i]));
    }
    match sp_order_item(t, i) {
        Ok((item, j)) => {
            assert(item.field.len() >= 1);
            assert forall|k: int|
                0 <= k < acc.push(item).len() implies (#[trigger] acc.push(item)[k]).field.len()
                >= 1 by {
                if k < acc.len() {
                    assert(acc.push(item)[k] == acc[k]);
                } else {
                    assert(acc.push(item)[k] == item);
                }
            }
            if j < t.len() && t[j] == SpecToken::Comma && i < j {
                lemma_order_list_wf(t, j + 1, acc.push(item));
            }
        },
        Err(_) => {},
    }
}

/// Every query the parser accepts is well formed: the stated invariants of
/// the data model (non-empty field paths, non-empty `IN` lists, `In`
/// paired with a list and nothing else with one) hold of every tree it
/// builds from well-formed tokens.
pub proof fn lemma_parse_wf(t: Seq<SpecToken>)
    requires
        spec_tokens_wf(t),
    ensures
        (match sp_query(t) {
            Ok(q) => spec_query_wf(q),
            Err(_) => true,
        }),
{
    lemma_or_wf(t, 0);
    match sp_or(t, 0) {
        Ok((p, j)) => {
            if j < t.len() && t[j] == SpecToken::Order && j + 1 < t.len() && t[j + 1]
                == SpecToken::By {
                lemma_order_list_wf(t, j + 2, Seq::empty());
            }
        },
        Err(_) => {},
    }
}

proof fn lemma_compile_source_wf(s: Seq<char>)
    ensures
        (match spec_compile_source(s) {
            Ok(q) => spec_query_wf(q),
            Err(_) => true,
        }),
{
    lemma_lex_wf(s);
    match spec_lex(s) {
        Ok(toks) => {
            lemma_parse_wf(toks);
        },
        Err(_) => {},
    }
}

/// Every query `compile` returns is well formed, whichever interpolation
/// path built its source.
pub proof fn lemma_compile_wf(t: Seq<char>, m: SpecInterpolation)
    ensures
        (match spec_compile(t, m) {
            Ok(q) => spec_query_wf(q),
            Err(_) => true,
        }),
{
    match m {
        SpecInterpolation::Plain => {
            lemma_compile_source_wf(t);
        },
        SpecInterpolation::Quoted { positional, named } => {
            match spec_interp_quoted(t, positional, named) {
                Ok(src) => {
                    lemma_compile_source_wf(src);
                },
                Err(_) => {},
            }
        },
        SpecInterpolation::Unquoted { env } => {
            match spec_interp_unquoted(t, env) {
                Ok(src) => {
                    lemma_compile_source_wf(src);
                },
                Err(_) => {},
            }
        },
    }
}

} // verus!
