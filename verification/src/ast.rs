//! The predicate abstract syntax tree: what a parsed query compiles to,
//! together with its spec-level model.

use vstd::prelude::*;
use crate::literal::{Literal, SpecLiteral};
use crate::token::Operator;

verus! {

/// A dotted sequence of identifiers naming a (possibly nested) record
/// field, such as `metadata.genre`. Always has at least one segment.
#[derive(Debug, Clone, PartialEq)]
pub struct FieldPath {
    pub segments: Vec<String>,
}

impl DeepView for FieldPath {
    type V = Seq<Seq<char>>;

    open spec fn deep_view(&self) -> Seq<Seq<char>> {
        self.segments.deep_view()
    }
}

/// The right-hand side of a comparison: one literal, or, for `IN`, a
/// non-empty list of literals.
#[derive(Debug, Clone, PartialEq)]
pub enum CmpValue {
    Single(Literal),
    List(Vec<Literal>),
}

/// Spec-level model of a comparison's right-hand side.
pub enum SpecCmpValue {
    Single(SpecLiteral),
    List(Seq<SpecLiteral>),
}

impl DeepView for CmpValue {
    type V = SpecCmpValue;

    open spec fn deep_view(&self) -> SpecCmpValue {
        match self {
            CmpValue::Single(l) => SpecCmpValue::Single(l.deep_view()),
            CmpValue::List(ls) => SpecCmpValue::List(ls.deep_view()),
        }
    }
}

/// Spec-level model of a predicate tree.
pub enum SpecPredicate {
    Comparison { field: Seq<Seq<char>>, op: Operator, value: SpecCmpValue },
    And(Box<SpecPredicate>, Box<SpecPredicate>),
    Or(Box<SpecPredicate>, Box<SpecPredicate>),
    Literal(bool),
}

/// A boolean expression tree over field comparisons. `And` binds tighter
/// than `Or`; both associate to the left. `Literal` is the bare `true` /
/// `false` predicate that matches everything or nothing.
#[derive(Debug, PartialEq)]
pub enum Predicate {
    Comparison { field: FieldPath, op: Operator, value: CmpValue },
    And(Box<Predicate>, Box<Predicate>),
    Or(Box<Predicate>, Box<Predicate>),
    Literal(bool),
}

/// Well-formedness of a predicate tree: every field path has at least one
/// segment, `In` pairs with a non-empty literal list, and every other
/// operator pairs with a single literal.
pub open spec fn spec_predicate_wf(p: SpecPredicate) -> bool
    decreases p,
{
    match p {
        SpecPredicate::Comparison { field, op, value } => {
            &&& field.len() >= 1
            &&& match value {
                SpecCmpValue::Single(_) => op != Operator::In,
                SpecCmpValue::List(vals) => op == Operator::In && vals.len() >= 1,
            }
        },
        SpecPredicate::And(a, b) => spec_predicate_wf(*a) && spec_predicate_wf(*b),
        SpecPredicate::Or(a, b) => spec_predicate_wf(*a) && spec_predicate_wf(*b),
        SpecPredicate::Literal(_) => true,
    }
}

/// Well-formedness of a compiled query: a well-formed predicate, and an
/// ordering clause, when present, that holds at least one item, each with
/// at least one path segment.
pub open spec fn spec_query_wf(q: SpecQuery) -> bool {
    &&& spec_predicate_wf(q.predicate)
    &&& match q.ordering {
        Some(items) => items.len() >= 1 && (forall|i: int|
            0 <= i < items.len() ==> (#[trigger] items[i]).field.len() >= 1),
        None => true,
    }
}

/// The spec-level model of a predicate tree.
pub open spec fn spec_predicate_view(p: Predicate) -> SpecPredicate
    decreases p,
{
    match p {
        Predicate::Comparison { field, op, value } => SpecPredicate::Comparison {
            field: field.deep_view(),
            op,
            value: value.deep_view(),
        },
        Predicate::And(a, b) => SpecPredicate::And(
            Box::new(spec_predicate_view(*a)),
            Box::new(spec_predicate_view(*b)),
        ),
        Predicate::Or(a, b) => SpecPredicate::Or(
            Box::new(spec_predicate_view(*a)),
            Box::new(spec_predicate_view(*b)),
        ),
        Predicate::Literal(b) => SpecPredicate::Literal(b),
    }
}

impl DeepView for Predicate {
    type V = SpecPredicate;

    open spec fn deep_view(&self) -> SpecPredicate {
        spec_predicate_view(*self)
    }
}

/// A sort direction of an `ORDER BY` item. `Asc` is the default.
#[derive(Debug, Clone, Copy, PartialEq, Eq, Structural)]
pub enum Direction {
    Asc,
    Desc,
}

/// Spec-level model of one `ORDER BY` item.
pub struct SpecOrderItem {
    pub field: Seq<Seq<char>>,
    pub direction: Direction,
}

/// One item of an `ORDER BY` clause: a field path and its direction.
#[derive(Debug, Clone, PartialEq)]
pub struct OrderItem {
    pub field: FieldPath,
    pub direction: Direction,
}

impl DeepView for OrderItem {
    type V = SpecOrderItem;

    open spec fn deep_view(&self) -> SpecOrderItem {
        SpecOrderItem { field: self.field.deep_view(), direction: self.direction }
    }
}

/// Spec-level model of a compiled query.
pub struct SpecQuery {
    pub predicate: SpecPredicate,
    pub ordering: Option<Seq<SpecOrderItem>>,
}

/// A compiled query: the predicate and, when the source carried a trailing
/// `ORDER BY` clause, its ordering items.
#[derive(Debug, PartialEq)]
pub struct Query {
    pub predicate: Predicate,
    pub ordering: Option<Vec<OrderItem>>,
}

impl DeepView for Query {
    type V = SpecQuery;

    open spec fn deep_view(&self) -> SpecQuery {
        SpecQuery {
            predicate: self.predicate.deep_view(),
            ordering: match self.ordering {
                Some(ref items) => Some(items.deep_view()),
                None => None,
            },
        }
    }
}

} // verus!
