//! The parser: recursive descent over the token sequence, with `AND`
//! binding tighter than `OR` and both associating to the left, and an
//! optional trailing `ORDER BY` clause.
//!
//! The `sp_*` spec functions are the authoritative statement of the
//! grammar; the executable parser is proved to return exactly their
//! result, so the contract says precisely which token sequences parse,
//! to which tree, and which error any other sequence raises.

use vstd::prelude::*;
use crate::ast::{
    CmpValue, Direction, FieldPath, OrderItem, Predicate, Query, SpecCmpValue, SpecOrderItem,
    SpecPredicate, SpecQuery,
};
use crate::literal::{Literal, SpecLiteral};
use crate::token::{Operator, SpecToken, Token};

verus! {

/// The construct the parser was looking for when it failed.
#[derive(Debug, Clone, Copy, PartialEq, Eq, Structural)]
pub enum Expected {
    /// A primary predicate: a comparison, a parenthesized group, or a
    /// boolean literal.
    Predicate,
    /// A comparison operator or `IN` after a field path.
    Operator,
    /// A literal value.
    Value,
    /// A `,` or `)` inside an `IN` list.
    CommaOrRParen,
    LParen,
    RParen,
    /// The `BY` keyword after `ORDER`.
    By,
    /// A field path inside an `ORDER BY` clause.
    Field,
    /// The end of the query.
    End,
}

/// The kind of token the parser actually found, or `End` when the tokens
/// ran out.
#[derive(Debug, Clone, Copy, PartialEq, Eq, Structural)]
pub enum Found {
    Ident,
    Int,
    Float,
    Str,
    Bool,
    Op,
    And,
    Or,
    In,
    Order,
    By,
    Asc,
    Desc,
    LParen,
    RParen,
    Comma,
    End,
}

/// A grammar violation: what was expected, what stood there instead, and
/// where. `pos` is the index of the offending token, or the token count
/// when the query ended too early.
#[derive(Debug, Clone, Copy, PartialEq, Eq, Structural)]
pub struct ParseError {
    pub pos: usize,
    pub expected: Expected,
    pub found: Found,
}

pub open spec fn spec_found(t: SpecToken) -> Found {
    match t {
        SpecToken::Ident(_) => Found::Ident,
        SpecToken::Int(_) => Found::Int,
        SpecToken::Float(_) => Found::Float,
        SpecToken::Str(_) => Found::Str,
        SpecToken::Bool(_) => Found::Bool,
        SpecToken::Op(_) => Found::Op,
        SpecToken::And => Found::And,
        SpecToken::Or => Found::Or,
        SpecToken::In => Found::In,
        SpecToken::Order => Found::Order,
        SpecToken::By => Found::By,
        SpecToken::Asc => Found::Asc,
        SpecToken::Desc => Found::Desc,
        SpecToken::LParen => Found::LParen,
        SpecToken::RParen => Found::RParen,
        SpecToken::Comma => Found::Comma,
    }
}

pub open spec fn spec_found_at(t: Seq<SpecToken>, i: int) -> Found {
    if 0 <= i < t.len() {
        spec_found(t[i])
    } else {
        Found::End
    }
}

/// The literal a token stands for, when it stands for one.
pub open spec fn spec_lit_of(t: SpecToken) -> Option<SpecLiteral> {
    match t {
        SpecToken::Int(n) => Some(SpecLiteral::Int(n)),
        SpecToken::Float(s) => Some(SpecLiteral::Float(s)),
        SpecToken::Str(s) => Some(SpecLiteral::Str(s)),
        SpecToken::Bool(b) => Some(SpecLiteral::Bool(b)),
        _ => None,
    }
}

/// The literals of an `IN` list, from just after its `(` to just after
/// its `)`. A list must hold at least one literal and admits no trailing
/// comma.
pub open spec fn sp_in_list(t: Seq<SpecToken>, i: int, acc: Seq<SpecLiteral>) -> Result<
    (Seq<SpecLiteral>, int),
    ParseError,
>
    decreases t.len() - i,
{
    if i >= t.len() {
        Err(ParseError { pos: t.len() as usize, expected: Expected::Value, found: Found::End })
    } else {
        match spec_lit_of(t[i]) {
            None => Err(
                ParseError { pos: i as usize, expected: Expected::Value, found: spec_found(t[i]) },
            ),
            Some(l) => {
                if i + 1 >= t.len() {
                    Err(
                        ParseError {
                            pos: t.len() as usize,
                            expected: Expected::CommaOrRParen,
                            found: Found::End,
                        },
                    )
                } else if t[i + 1] == SpecToken::Comma {
                    sp_in_list(t, i + 2, acc.push(l))
                } else if t[i + 1] == SpecToken::RParen {
                    Ok((acc.push(l), i + 2))
                } else {
                    Err(
                        ParseError {
                            pos: (i + 1) as usize,
                            expected: Expected::CommaOrRParen,
                            found: spec_found(t[i + 1]),
                        },
                    )
                }
            },
        }
    }
}

/// A primary: a boolean literal, a parenthesized expression, or a
/// comparison `field op literal` / `field IN ( literals )`.
pub open spec fn sp_primary(t: Seq<SpecToken>, i: int) -> Result<(SpecPredicate, int), ParseError>
    decreases t.len() - i, 0int,
{
    if i >= t.len() {
        Err(ParseError { pos: t.len() as usize, expected: Expected::Predicate, found: Found::End })
    } else {
        match t[i] {
            SpecToken::Bool(b) => Ok((SpecPredicate::Literal(b), i + 1)),
            SpecToken::LParen => match sp_or(t, i + 1) {
                Err(e) => Err(e),
                Ok((p, j)) => {
                    if 0 <= j < t.len() && t[j] == SpecToken::RParen {
                        Ok((p, j + 1))
                    } else {
                        Err(
                            ParseError {
                                pos: j as usize,
                                expected: Expected::RParen,
                                found: spec_found_at(t, j),
                            },
                        )
                    }
                },
            },
            SpecToken::Ident(segs) => {
                if i + 1 >= t.len() {
                    Err(
                        ParseError {
                            pos: t.len() as usize,
                            expected: Expected::Operator,
                            found: Found::End,
                        },
                    )
                } else {
                    match t[i + 1] {
                        SpecToken::Op(op) => {
                            if i + 2 >= t.len() {
                                Err(
                                    ParseError {
                                        pos: t.len() as usize,
                                        expected: Expected::Value,
                                        found: Found::End,
                                    },
                                )
                            } else {
                                match spec_lit_of(t[i + 2]) {
                                    Some(l) => Ok(
                                        (
                                            SpecPredicate::Comparison {
                                                field: segs,
                                                op,
                                                value: SpecCmpValue::Single(l),
                                            },
                                            i + 3,
                                        ),
                                    ),
                                    None => Err(
                                        ParseError {
                                            pos: (i + 2) as usize,
                                            expected: Expected::Value,
                                            found: spec_found(t[i + 2]),
                                        },
                                    ),
                                }
                            }
                        },
                        SpecToken::In => {
                            if i + 2 >= t.len() || t[i + 2] != SpecToken::LParen {
                                Err(
                                    ParseError {
                                        pos: (i + 2) as usize,
                                        expected: Expected::LParen,
                                        found: spec_found_at(t, i + 2),
                                    },
                                )
                            } else {
                                match sp_in_list(t, i + 3, Seq::empty()) {
                                    Err(e) => Err(e),
                                    Ok((vals, j)) => Ok(
                                        (
                                            SpecPredicate::Comparison {
                                                field: segs,
                                                op: Operator::In,
                                                value: SpecCmpValue::List(vals),
                                            },
                                            j,
                                        ),
                                    ),
                                }
                            }
                        },
                        _ => Err(
                            ParseError {
                                pos: (i + 1) as usize,
                                expected: Expected::Operator,
                                found: spec_found(t[i + 1]),
                            },
                        ),
                    }
                }
            },
            _ => Err(
                ParseError {
                    pos: i as usize,
                    expected: Expected::Predicate,
                    found: spec_found(t[i]),
                },
            ),
        }
    }
}

/// The `(AND primary)*` continuation of an `AND` chain, folded to the
/// left onto `left`.
pub open spec fn sp_and_more(t: Seq<SpecToken>, i: int, left: SpecPredicate) -> Result<
    (SpecPredicate, int),
    ParseError,
>
    decreases t.len() - i, 3int,
{
    if 0 <= i < t.len() && t[i] == SpecToken::And {
        match sp_primary(t, i + 1) {
            Err(e) => Err(e),
            Ok((p, j)) => {
                if i < j <= t.len() {
                    sp_and_more(t, j, SpecPredicate::And(Box::new(left), Box::new(p)))
                } else {
                    // a primary always advances; never reached
                    Ok((SpecPredicate::And(Box::new(left), Box::new(p)), j))
                }
            },
        }
    } else {
        Ok((left, i))
    }
}

/// An `AND` chain: `primary (AND primary)*`.
pub open spec fn sp_and(t: Seq<SpecToken>, i: int) -> Result<(SpecPredicate, int), ParseError>
    decreases t.len() - i, 1int,
{
    match sp_primary(t, i) {
        Err(e) => Err(e),
        Ok((p, j)) => {
            if i < j <= t.len() {
                sp_and_more(t, j, p)
            } else {
                // a primary always advances; never reached
                Ok((p, j))
            }
        },
    }
}

/// The `(OR and-chain)*` continuation of an `OR` chain, folded to the
/// left onto `left`.
pub open spec fn sp_or_more(t: Seq<SpecToken>, i: int, left: SpecPredicate) -> Result<
    (SpecPredicate, int),
    ParseError,
>
    decreases t.len() - i, 4int,
{
    if 0 <= i < t.len() && t[i] == SpecToken::Or {
        match sp_and(t, i + 1) {
            Err(e) => Err(e),
            Ok((p, j)) => {
                if i < j <= t.len() {
                    sp_or_more(t, j, SpecPredicate::Or(Box::new(left), Box::new(p)))
                } else {
                    // an AND chain always advances; never reached
                    Ok((SpecPredicate::Or(Box::new(left), Box::new(p)), j))
                }
            },
        }
    } else {
        Ok((left, i))
    }
}

/// A full expression: `and-chain (OR and-chain)*`. `AND` binds tighter
/// than `OR` because an `OR` chain is built from whole `AND` chains.
pub open spec fn sp_or(t: Seq<SpecToken>, i: int) -> Result<(SpecPredicate, int), ParseError>
    decreases t.len() - i, 2int,
{
    match sp_and(t, i) {
        Err(e) => Err(e),
        Ok((p, j)) => {
            if i < j <= t.len() {
                sp_or_more(t, j, p)
            } else {
                // an AND chain always advances; never reached
                Ok((p, j))
            }
        },
    }
}

/// One `ORDER BY` item: a field path with an optional direction,
/// `Asc` when the direction is omitted.
pub open spec fn sp_order_item(t: Seq<SpecToken>, i: int) -> Result<(SpecOrderItem, int), ParseError> {
    if i >= t.len() {
        Err(ParseError { pos: t.len() as usize, expected: Expected::Field, found: Found::End })
    } else {
        match t[i] {
            SpecToken::Ident(segs) => {
                if i + 1 < t.len() && t[i + 1] == SpecToken::Asc {
                    Ok((SpecOrderItem { field: segs, direction: Direction::Asc }, i + 2))
                } else if i + 1 < t.len() && t[i + 1] == SpecToken::Desc {
                    Ok((SpecOrderItem { field: segs, direction: Direction::Desc }, i + 2))
                } else {
                    Ok((SpecOrderItem { field: segs, direction: Direction::Asc }, i + 1))
                }
            },
            _ => Err(
                ParseError { pos: i as usize, expected: Expected::Field, found: spec_found(t[i]) },
            ),
        }
    }
}

/// The comma-separated items of an `ORDER BY` clause.
pub open spec fn sp_order_list(t: Seq<SpecToken>, i: int, acc: Seq<SpecOrderItem>) -> Result<
    (Seq<SpecOrderItem>, int),
    ParseError,
>
    decreases t.len() - i,
{
    match sp_order_item(t, i) {
        Err(e) => Err(e),
        Ok((item, j)) => {
            if j < t.len() && t[j] == SpecToken::Comma && i < j {
                sp_order_list(t, j + 1, acc.push(item))
            } else {
                Ok((acc.push(item), j))
            }
        },
    }
}

/// A whole query: an expression, then an optional `ORDER BY` clause,
/// then nothing. This is the authoritative statement of what parses.
pub open spec fn sp_query(t: Seq<SpecToken>) -> Result<SpecQuery, ParseError> {
    match sp_or(t, 0) {
        Err(e) => Err(e),
        Ok((p, j)) => {
            if j >= t.len() {
                Ok(SpecQuery { predicate: p, ordering: None })
            } else if t[j] == SpecToken::Order {
                if j + 1 < t.len() && t[j + 1] == SpecToken::By {
                    match sp_order_list(t, j + 2, Seq::empty()) {
                        Err(e) => Err(e),
                        Ok((items, k)) => {
                            if k >= t.len() {
                                Ok(SpecQuery { predicate: p, ordering: Some(items) })
                            } else {
                                Err(
                                    ParseError {
                                        pos: k as usize,
                                        expected: Expected::End,
                                        found: spec_found_at(t, k),
                                    },
                                )
                            }
                        },
                    }
                } else {
                    Err(
                        ParseError {
                            pos: (j + 1) as usize,
                            expected: Expected::By,
                            found: spec_found_at(t, j + 1),
                        },
                    )
                }
            } else {
                Err(
                    ParseError {
                        pos: j as usize,
                        expected: Expected::End,
                        found: spec_found(t[j]),
                    },
                )
            }
        },
    }
}

fn found_of(tok: &Token) -> (r: Found)
    ensures
        r == spec_found(tok.deep_view()),
{
    match tok {
        Token::Ident(_) => Found::Ident,
        Token::Int(_) => Found::Int,
        Token::Float(_) => Found::Float,
        Token::Str(_) => Found::Str,
        Token::Bool(_) => Found::Bool,
        Token::Op(_) => Found::Op,
        Token::And => Found::And,
        Token::Or => Found::Or,
        Token::In => Found::In,
        Token::Order => Found::Order,
        Token::By => Found::By,
        Token::Asc => Found::Asc,
        Token::Desc => Found::Desc,
        Token::LParen => Found::LParen,
        Token::RParen => Found::RParen,
        Token::Comma => Found::Comma,
    }
}

fn token_literal(tok: &Token) -> (r: Option<Literal>)
    ensures
        (match r {
            Some(l) => spec_lit_of(tok.deep_view()) == Some(l.deep_view()),
            None => spec_lit_of(tok.deep_view()) is None,
        }),
{
    match tok {
        Token::Int(n) => Some(Literal::Int(*n)),
        Token::Float(s) => Some(Literal::Float(s.clone())),
        Token::Str(s) => Some(Literal::Str(s.clone())),
        Token::Bool(b) => Some(Literal::Bool(*b)),
        _ => None,
    }
}

fn clone_segments(v: &Vec<String>) -> (r: Vec<String>)
    ensures
        r.deep_view() == v.deep_view(),
{
    let mut r: Vec<String> = Vec::new();
    let mut i: usize = 0;
    while i < v.len()
        invariant
            0 <= i <= v@.len(),
            r@.len() == i,
            forall|k: int| 0 <= k < i ==> (#[trigger] r@[k])@ == v@[k]@,
        decreases v@.len() - i,
    {
        r.push(v[i].clone());
        i += 1;
    }
    proof {
        assert(r.deep_view() =~= v.deep_view());
    }
    r
}

/// Parses the literals of an `IN` list, mirroring `sp_in_list`.
fn parse_in_list(t: &Vec<Token>, i: usize, acc: Vec<Literal>) -> (r: Result<
    (Vec<Literal>, usize),
    ParseError,
>)
    requires
        i <= t@.len(),
    ensures
        (match r {
            Ok((vals, j)) => sp_in_list(t.deep_view(), i as int, acc.deep_view()) == Ok::<
                (Seq<SpecLiteral>, int),
                ParseError,
            >((vals.deep_view(), j as int)) && i < j <= t@.len(),
            Err(e) => sp_in_list(t.deep_view(), i as int, acc.deep_view()) == Err::<
                (Seq<SpecLiteral>, int),
                ParseError,
            >(e),
        }),
    decreases t@.len() - i,
{
    let n = t.len();
    if i >= n {
        return Err(ParseError { pos: n, expected: Expected::Value, found: Found::End });
    }
    match token_literal(&t[i]) {
        None => Err(ParseError { pos: i, expected: Expected::Value, found: found_of(&t[i]) }),
        Some(l) => {
            let ghost acc_dv = acc.deep_view();
            let ghost l_dv = l.deep_view();
            let mut acc2 = acc;
            acc2.push(l);
            proof {
                assert(acc2.deep_view() =~= acc_dv.push(l_dv));
            }
            if i + 1 >= n {
                Err(ParseError { pos: n, expected: Expected::CommaOrRParen, found: Found::End })
            } else {
                match &t[i + 1] {
                    Token::Comma => parse_in_list(t, i + 2, acc2),
                    Token::RParen => Ok((acc2, i + 2)),
                    _ => Err(
                        ParseError {
                            pos: i + 1,
                            expected: Expected::CommaOrRParen,
                            found: found_of(&t[i + 1]),
                        },
                    ),
                }
            }
        },
    }
}

/// Parses a primary, mirroring `sp_primary`.
fn parse_primary(t: &Vec<Token>, i: usize) -> (r: Result<(Predicate, usize), ParseError>)
    requires
        i <= t@.len(),
    ensures
        (match r {
            Ok((p, j)) => sp_primary(t.deep_view(), i as int) == Ok::<
                (SpecPredicate, int),
                ParseError,
            >((p.deep_view(), j as int)) && i < j <= t@.len(),
            Err(e) => sp_primary(t.deep_view(), i as int) == Err::<
                (SpecPredicate, int),
                ParseError,
            >(e),
        }),
    decreases t@.len() - i, 0int,
{
    let n = t.len();
    if i >= n {
        return Err(ParseError { pos: n, expected: Expected::Predicate, found: Found::End });
    }
    match &t[i] {
        Token::Bool(b) => Ok((Predicate::Literal(*b), i + 1)),
        Token::LParen => {
            match parse_or(t, i + 1) {
                Err(e) => Err(e),
                Ok((p, j)) => {
                    if j < n && matches!(&t[j], Token::RParen) {
                        Ok((p, j + 1))
                    } else {
                        let f = if j < n {
                            found_of(&t[j])
                        } else {
                            Found::End
                        };
                        Err(ParseError { pos: j, expected: Expected::RParen, found: f })
                    }
                },
            }
        },
        Token::Ident(segs) => {
            if i + 1 >= n {
                return Err(ParseError { pos: n, expected: Expected::Operator, found: Found::End });
            }
            match &t[i + 1] {
                Token::Op(op) => {
                    if i + 2 >= n {
                        return Err(
                            ParseError { pos: n, expected: Expected::Value, found: Found::End },
                        );
                    }
                    match token_literal(&t[i + 2]) {
                        Some(l) => Ok(
                            (
                                Predicate::Comparison {
                                    field: FieldPath { segments: clone_segments(segs) },
                                    op: *op,
                                    value: CmpValue::Single(l),
                                },
                                i + 3,
                            ),
                        ),
                        None => Err(
                            ParseError {
                                pos: i + 2,
                                expected: Expected::Value,
                                found: found_of(&t[i + 2]),
                            },
                        ),
                    }
                },
                Token::In => {
                    if i + 2 >= n || !matches!(&t[i + 2], Token::LParen) {
                        let f = if i + 2 < n {
                            found_of(&t[i + 2])
                        } else {
                            Found::End
                        };
                        return Err(ParseError { pos: i + 2, expected: Expected::LParen, found: f });
                    }
                    let acc0: Vec<Literal> = Vec::new();
                    proof {
                        assert(acc0.deep_view() =~= Seq::<SpecLiteral>::empty());
                    }
                    match parse_in_list(t, i + 3, acc0) {
                        Err(e) => Err(e),
                        Ok((vals, j)) => {
                            Ok(
                                (
                                    Predicate::Comparison {
                                        field: FieldPath { segments: clone_segments(segs) },
                                        op: Operator::In,
                                        value: CmpValue::List(vals),
                                    },
                                    j,
                                ),
                            )
                        },
                    }
                },
                _ => Err(
                    ParseError {
                        pos: i + 1,
                        expected: Expected::Operator,
                        found: found_of(&t[i + 1]),
                    },
                ),
            }
        },
        _ => Err(ParseError { pos: i, expected: Expected::Predicate, found: found_of(&t[i]) }),
    }
}

/// Parses an `AND` chain, mirroring `sp_and` and `sp_and_more`.
fn parse_and(t: &Vec<Token>, i: usize) -> (r: Result<(Predicate, usize), ParseError>)
    requires
        i <= t@.len(),
    ensures
        (match r {
            Ok((p, j)) => sp_and(t.deep_view(), i as int) == Ok::<
                (SpecPredicate, int),
                ParseError,
            >((p.deep_view(), j as int)) && i < j <= t@.len(),
            Err(e) => sp_and(t.deep_view(), i as int) == Err::<(SpecPredicate, int), ParseError>(e),
        }),
    decreases t@.len() - i, 1int,
{
    let n = t.len();
    let (mut left, mut j) = match parse_primary(t, i) {
        Err(e) => {
            return Err(e);
        },
        Ok(pj) => pj,
    };
    loop
        invariant
            i < j <= t@.len(),
            n == t@.len(),
            sp_and(t.deep_view(), i as int) == sp_and_more(t.deep_view(), j as int, left.deep_view()),
        decreases t@.len() - j,
    {
        if j < n && matches!(&t[j], Token::And) {
            match parse_primary(t, j + 1) {
                Err(e) => {
                    return Err(e);
                },
                Ok((p, k)) => {
                    left = Predicate::And(Box::new(left), Box::new(p));
                    j = k;
                },
            }
        } else {
            return Ok((left, j));
        }
    }
}

/// Parses a full expression, mirroring `sp_or` and `sp_or_more`.
fn parse_or(t: &Vec<Token>, i: usize) -> (r: Result<(Predicate, usize), ParseError>)
    requires
        i <= t@.len(),
    ensures
        (match r {
            Ok((p, j)) => sp_or(t.deep_view(), i as int) == Ok::<
                (SpecPredicate, int),
                ParseError,
            >((p.deep_view(), j as int)) && i < j <= t@.len(),
            Err(e) => sp_or(t.deep_view(), i as int) == Err::<(SpecPredicate, int), ParseError>(e),
        }),
    decreases t@.len() - i, 2int,
{
    let n = t.len();
    let (mut left, mut j) = match parse_and(t, i) {
        Err(e) => {
            return Err(e);
        },
        Ok(pj) => pj,
    };
    loop
        invariant
            i < j <= t@.len(),
            n == t@.len(),
            sp_or(t.deep_view(), i as int) == sp_or_more(t.deep_view(), j as int, left.deep_view()),
        decreases t@.len() - j,
    {
        if j < n && matches!(&t[j], Token::Or) {
            match parse_and(t, j + 1) {
                Err(e) => {
                    return Err(e);
                },
                Ok((p, k)) => {
                    left = Predicate::Or(Box::new(left), Box::new(p));
                    j = k;
                },
            }
        } else {
            return Ok((left, j));
        }
    }
}

/// Parses one `ORDER BY` item, mirroring `sp_order_item`.
fn parse_order_item(t: &Vec<Token>, i: usize) -> (r: Result<(OrderItem, usize), ParseError>)
    requires
        i <= t@.len(),
    ensures
        (match r {
            Ok((item, j)) => sp_order_item(t.deep_view(), i as int) == Ok::<
                (SpecOrderItem, int),
                ParseError,
            >((item.deep_view(), j as int)) && i < j <= t@.len(),
            Err(e) => sp_order_item(t.deep_view(), i as int) == Err::<
                (SpecOrderItem, int),
                ParseError,
            >(e),
        }),
{
    let n = t.len();
    if i >= n {
        return Err(ParseError { pos: n, expected: Expected::Field, found: Found::End });
    }
    match &t[i] {
        Token::Ident(segs) => {
            let field = FieldPath { segments: clone_segments(segs) };
            if i + 1 < n && matches!(&t[i + 1], Token::Asc) {
                Ok((OrderItem { field, direction: Direction::Asc }, i + 2))
            } else if i + 1 < n && matches!(&t[i + 1], Token::Desc) {
                Ok((OrderItem { field, direction: Direction::Desc }, i + 2))
            } else {
                Ok((OrderItem { field, direction: Direction::Asc }, i + 1))
            }
        },
        _ => Err(ParseError { pos: i, expected: Expected::Field, found: found_of(&t[i]) }),
    }
}

/// Parses the items of an `ORDER BY` clause, mirroring `sp_order_list`.
fn parse_order_list(t: &Vec<Token>, i: usize) -> (r: Result<(Vec<OrderItem>, usize), ParseError>)
    requires
        i <= t@.len(),
    ensures
        (match r {
            Ok((items, j)) => sp_order_list(t.deep_view(), i as int, Seq::empty()) == Ok::<
                (Seq<SpecOrderItem>, int),
                ParseError,
            >((items.deep_view(), j as int)) && i < j <= t@.len(),
            Err(e) => sp_order_list(t.deep_view(), i as int, Seq::empty()) == Err::<
                (Seq<SpecOrderItem>, int),
                ParseError,
            >(e),
        }),
{
    let n = t.len();
    let mut items: Vec<OrderItem> = Vec::new();
    let mut j: usize = i;
    proof {
        assert(items.deep_view() =~= Seq::<SpecOrderItem>::empty());
    }
    loop
        invariant
            i <= j <= t@.len(),
            n == t@.len(),
            sp_order_list(t.deep_view(), i as int, Seq::empty()) == sp_order_list(
                t.deep_view(),
                j as int,
                items.deep_view(),
            ),
        decreases t@.len() - j,
    {
        match parse_order_item(t, j) {
            Err(e) => {
                return Err(e);
            },
            Ok((item, k)) => {
                let ghost items_dv = items.deep_view();
                let ghost item_dv = item.deep_view();
                items.push(item);
                proof {
                    assert(items.deep_view() =~= items_dv.push(item_dv));
                }
                if k < n && matches!(&t[k], Token::Comma) {
                    j = k + 1;
                } else {
                    return Ok((items, k));
                }
            },
        }
    }
}

/// Parses a token sequence into a query: the grammar is exactly
/// `sp_query`, so the result is `Ok` precisely on the sequences that
/// conform to it, and otherwise the error names the expected construct,
/// the found token and its position.
pub fn parse(t: &Vec<Token>) -> (r: Result<Query, ParseError>)
    ensures
        (match r {
            Ok(q) => sp_query(t.deep_view()) == Ok::<SpecQuery, ParseError>(q.deep_view()),
            Err(e) => sp_query(t.deep_view()) == Err::<SpecQuery, ParseError>(e),
        }),
{
    let n = t.len();
    let (p, j) = match parse_or(t, 0) {
        Err(e) => {
            return Err(e);
        },
        Ok(pj) => pj,
    };
    if j >= n {
        return Ok(Query { predicate: p, ordering: None });
    }
    if matches!(&t[j], Token::Order) {
        if j + 1 < n && matches!(&t[j + 1], Token::By) {
            match parse_order_list(t, j + 2) {
                Err(e) => Err(e),
                Ok((items, k)) => {
                    if k >= n {
                        Ok(Query { predicate: p, ordering: Some(items) })
                    } else {
                        Err(
                            ParseError {
                                pos: k,
                                expected: Expected::End,
                                found: found_of(&t[k]),
                            },
                        )
                    }
                },
            }
        } else {
            let f = if j + 1 < n {
                found_of(&t[j + 1])
            } else {
                Found::End
            };
            Err(ParseError { pos: j + 1, expected: Expected::By, found: f })
        }
    } else {
        Err(ParseError { pos: j, expected: Expected::End, found: found_of(&t[j]) })
    }
}

} // verus!
