//! Tokens of the query language, and the lexer's error type.

use vstd::prelude::*;

verus! {

/// A comparison operator. `In` compares a field against a list of literals;
/// the others compare it against a single literal.
#[derive(Debug, Clone, Copy, PartialEq, Eq, Structural)]
pub enum Operator {
    Eq,
    Ne,
    Gt,
    Lt,
    Ge,
    Le,
    In,
}

/// Spec-level model of a token: identifier text as character sequences,
/// integers unbounded.
pub enum SpecToken {
    Ident(Seq<Seq<char>>),
    Int(int),
    Float(Seq<char>),
    Str(Seq<char>),
    Bool(bool),
    Op(Operator),
    And,
    Or,
    In,
    Order,
    By,
    Asc,
    Desc,
    LParen,
    RParen,
    Comma,
}

/// One token of the query language. `Ident` holds the segments of a dotted
/// field path; `Str` holds the decoded contents of a quoted string, with
/// every doubled quote already collapsed.
#[derive(Debug, Clone, PartialEq)]
pub enum Token {
    Ident(Vec<String>),
    Int(i64),
    Float(String),
    Str(String),
    Bool(bool),
    Op(Operator),
    And,
    Or,
    In,
    Order,
    By,
    Asc,
    Desc,
    LParen,
    RParen,
    Comma,
}

impl DeepView for Token {
    type V = SpecToken;

    open spec fn deep_view(&self) -> SpecToken {
        match self {
            Token::Ident(segs) => SpecToken::Ident(segs.deep_view()),
            Token::Int(n) => SpecToken::Int(*n as int),
            Token::Float(t) => SpecToken::Float(t@),
            Token::Str(s) => SpecToken::Str(s@),
            Token::Bool(b) => SpecToken::Bool(*b),
            Token::Op(op) => SpecToken::Op(*op),
            Token::And => SpecToken::And,
            Token::Or => SpecToken::Or,
            Token::In => SpecToken::In,
            Token::Order => SpecToken::Order,
            Token::By => SpecToken::By,
            Token::Asc => SpecToken::Asc,
            Token::Desc => SpecToken::Desc,
            Token::LParen => SpecToken::LParen,
            Token::RParen => SpecToken::RParen,
            Token::Comma => SpecToken::Comma,
        }
    }
}

/// Well-formedness of a token: an identifier token carries at least one
/// path segment, and an operator token holds a comparison symbol, never
/// `In`, which has its own keyword token.
pub open spec fn spec_token_wf(t: SpecToken) -> bool {
    match t {
        SpecToken::Ident(segs) => segs.len() >= 1,
        SpecToken::Op(op) => op != Operator::In,
        _ => true,
    }
}

#[derive(Debug, Clone, Copy, PartialEq, Eq, Structural)]
pub enum LexErrorKind {
    /// A quoted string with no closing quote.
    UnterminatedString,
    /// A malformed or out-of-range numeric literal.
    BadNumber,
    /// A character no token can start with, or a lone `!`.
    BadChar,
}

/// A lexing failure, carrying the offset (in characters) of the offending
/// position in the source.
#[derive(Debug, Clone, Copy, PartialEq, Eq, Structural)]
pub struct LexError {
    pub pos: usize,
    pub kind: LexErrorKind,
}

} // verus!
