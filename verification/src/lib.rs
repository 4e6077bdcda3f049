//! A small expression language for filtering and ordering collections of
//! records: a predicate grammar with comparisons, `AND`/`OR`, `IN` lists,
//! boolean literals and a trailing `ORDER BY` clause, plus two interpolation
//! front ends that substitute caller-supplied values into a query template
//! safely (rendered and escaped, never spliced raw).

pub mod ast;
pub mod chars;
pub mod compile;
pub mod interp;
pub mod laws;
pub mod lexer;
pub mod parser;
pub mod literal;
pub mod models;
pub mod token;
