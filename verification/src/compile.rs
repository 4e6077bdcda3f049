//! The query builder facade: one entry point that takes a source string or
//! a template plus bindings, runs the requested interpolation, lexes and
//! parses, and returns the compiled query.

use vstd::prelude::*;
use crate::ast::{spec_query_wf, Query, SpecQuery};
use crate::interp::{
    interpolate_quoted, interpolate_unquoted, spec_interp_quoted, spec_interp_unquoted,
    InterpError, SpecInterpError,
};
use crate::lexer::{lex, spec_lex};
use crate::literal::{Literal, SpecLiteral};
use crate::parser::{parse, sp_query, ParseError};
use crate::token::LexError;

verus! {

/// Spec-level model of an interpolation request.
pub enum SpecInterpolation {
    Plain,
    Quoted { positional: Seq<SpecLiteral>, named: Seq<(Seq<char>, SpecLiteral)> },
    Unquoted { env: Seq<(Seq<char>, SpecLiteral)> },
}

/// How a template's placeholders are to be filled before lexing.
/// `Plain` passes the source through untouched; `Quoted` fills `{}` from
/// `positional` and `{name}` from `named`; `Unquoted` expands `{name}` /
/// `{<op>name}` clauses from `env`.
#[derive(Debug, Clone, PartialEq)]
pub enum Interpolation {
    Plain,
    Quoted { positional: Vec<Literal>, named: Vec<(String, Literal)> },
    Unquoted { env: Vec<(String, Literal)> },
}

impl DeepView for Interpolation {
    type V = SpecInterpolation;

    open spec fn deep_view(&self) -> SpecInterpolation {
        match self {
            Interpolation::Plain => SpecInterpolation::Plain,
            Interpolation::Quoted { positional, named } => SpecInterpolation::Quoted {
                positional: positional.deep_view(),
                named: named.deep_view(),
            },
            Interpolation::Unquoted { env } => SpecInterpolation::Unquoted {
                env: env.deep_view(),
            },
        }
    }
}

/// Spec-level model of a compilation failure.
pub enum SpecQueryError {
    Lex(LexError),
    Parse(ParseError),
    Interp(SpecInterpError),
}

/// A compilation failure: the union of the three stages' errors, each
/// preserving its own context (offset, expected/found tokens, or
/// placeholder name).
#[derive(Debug, Clone, PartialEq)]
pub enum QueryError {
    Lex(LexError),
    Parse(ParseError),
    Interp(InterpError),
}

impl DeepView for QueryError {
    type V = SpecQueryError;

    open spec fn deep_view(&self) -> SpecQueryError {
        match self {
            QueryError::Lex(e) => SpecQueryError::Lex(*e),
            QueryError::Parse(e) => SpecQueryError::Parse(*e),
            QueryError::Interp(e) => SpecQueryError::Interp(e.deep_view()),
        }
    }
}

/// Lexing and parsing of a fully-literal source string.
pub open spec fn spec_compile_source(s: Seq<char>) -> Result<SpecQuery, SpecQueryError> {
    match spec_lex(s) {
        Err(e) => Err(SpecQueryError::Lex(e)),
        Ok(toks) => match sp_query(toks) {
            Err(e) => Err(SpecQueryError::Parse(e)),
            Ok(q) => Ok(q),
        },
    }
}

/// What `compile` returns: interpolation (if any), then lexing, then
/// parsing, with the first failure surfaced.
pub open spec fn spec_compile(t: Seq<char>, m: SpecInterpolation) -> Result<
    SpecQuery,
    SpecQueryError,
> {
    match m {
        SpecInterpolation::Plain => spec_compile_source(t),
        SpecInterpolation::Quoted { positional, named } => match spec_interp_quoted(
            t,
            positional,
            named,
        ) {
            Err(e) => Err(SpecQueryError::Interp(e)),
            Ok(src) => spec_compile_source(src),
        },
        SpecInterpolation::Unquoted { env } => match spec_interp_unquoted(t, env) {
            Err(e) => Err(SpecQueryError::Interp(e)),
            Ok(src) => spec_compile_source(src),
        },
    }
}

/// Compiles a source string or template into a predicate and optional
/// ordering. The result is exactly `spec_compile` on the template's
/// characters and the interpolation's model: `Ok` precisely when
/// interpolation, lexing and parsing all succeed, and otherwise the first
/// stage's error. The returned query holds deep copies of every bound
/// value and no unresolved placeholder.
pub fn compile(template: &str, interpolation: Interpolation) -> (r: Result<Query, QueryError>)
    ensures
        (match r {
            Ok(q) => spec_compile(template@, interpolation.deep_view()) == Ok::<
                SpecQuery,
                SpecQueryError,
            >(q.deep_view()) && spec_query_wf(q.deep_view()),
            Err(e) => spec_compile(template@, interpolation.deep_view()) == Err::<
                SpecQuery,
                SpecQueryError,
            >(e.deep_view()),
        }),
{
    proof {
        crate::laws::lemma_compile_wf(template@, interpolation.deep_view());
    }
    let source: String = match &interpolation {
        Interpolation::Plain => String::from_str(template),
        Interpolation::Quoted { positional, named } => {
            match interpolate_quoted(template, positional, named) {
                Ok(s) => s,
                Err(e) => {
                    return Err(QueryError::Interp(e));
                },
            }
        },
        Interpolation::Unquoted { env } => {
            match interpolate_unquoted(template, env) {
                Ok(s) => s,
                Err(e) => {
                    return Err(QueryError::Interp(e));
                },
            }
        },
    };
    match lex(source.as_str()) {
        Err(e) => Err(QueryError::Lex(e)),
        Ok(toks) => match parse(&toks) {
            Err(e) => Err(QueryError::Parse(e)),
            Ok(q) => Ok(q),
        },
    }
}

} // verus!
