//! Example record models whose fields the query language filters and
//! orders: the shapes used throughout the query examples and tests.
//! Resolving a predicate's field paths against these records is the
//! evaluation engine's job, outside this crate.

use vstd::prelude::*;

verus! {

/// An album record: filtered with queries such as
/// `artist = 'Prince' AND year > 1985`.
#[derive(Debug, Clone, PartialEq)]
pub struct Album {
    pub name: String,
    pub artist: String,
    pub year: i32,
}

/// A task record: filtered with queries such as
/// `completed = false AND priority >= 2`.
#[derive(Debug, Clone, PartialEq)]
pub struct Task {
    pub title: String,
    pub completed: bool,
    pub priority: i32,
}

/// A document record: filtered with queries over its title.
#[derive(Debug, Clone, PartialEq)]
pub struct Document {
    pub content: String,
    pub title: String,
}

/// An artist record: referenced by songs and filtered by name.
#[derive(Debug, Clone, PartialEq)]
pub struct Artist {
    pub name: String,
}

} // verus!
