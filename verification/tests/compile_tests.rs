use selection::ast::{CmpValue, Direction, FieldPath, OrderItem, Predicate, Query};
use selection::compile::{compile, Interpolation, QueryError};
use selection::literal::Literal;
use selection::parser::{Expected, Found, ParseError};
use selection::token::Operator;

fn path(segs: &[&str]) -> FieldPath {
    FieldPath { segments: segs.iter().map(|s| s.to_string()).collect() }
}

fn cmp(field: &str, op: Operator, value: Literal) -> Predicate {
    Predicate::Comparison {
        field: path(&[field]),
        op,
        value: CmpValue::Single(value),
    }
}

fn plain(source: &str) -> Result<Query, QueryError> {
    compile(source, Interpolation::Plain)
}

#[test]
fn precedence_and_binds_tighter_than_or() {
    let q = plain("a = 1 AND b = 2 OR c = 3").unwrap();
    let expected = Predicate::Or(
        Box::new(Predicate::And(
            Box::new(cmp("a", Operator::Eq, Literal::Int(1))),
            Box::new(cmp("b", Operator::Eq, Literal::Int(2))),
        )),
        Box::new(cmp("c", Operator::Eq, Literal::Int(3))),
    );
    assert_eq!(q.predicate, expected);
    assert_eq!(q.ordering, None);
}

#[test]
fn parens_override_precedence() {
    let q = plain("a = 1 AND (b = 2 OR c = 3)").unwrap();
    let expected = Predicate::And(
        Box::new(cmp("a", Operator::Eq, Literal::Int(1))),
        Box::new(Predicate::Or(
            Box::new(cmp("b", Operator::Eq, Literal::Int(2))),
            Box::new(cmp("c", Operator::Eq, Literal::Int(3))),
        )),
    );
    assert_eq!(q.predicate, expected);
}

#[test]
fn escaped_quotes_decode_in_comparison() {
    let q = plain("name = 'Rock ''n'' Roll'").unwrap();
    assert_eq!(
        q.predicate,
        cmp("name", Operator::Eq, Literal::Str("Rock 'n' Roll".to_string()))
    );
}

#[test]
fn ordering_defaults_to_ascending() {
    let q = plain("true ORDER BY name").unwrap();
    assert_eq!(q.predicate, Predicate::Literal(true));
    assert_eq!(
        q.ordering,
        Some(vec![OrderItem { field: path(&["name"]), direction: Direction::Asc }])
    );
}

#[test]
fn ordering_descending() {
    let q = plain("year > 1980 ORDER BY year DESC").unwrap();
    assert_eq!(q.predicate, cmp("year", Operator::Gt, Literal::Int(1980)));
    assert_eq!(
        q.ordering,
        Some(vec![OrderItem { field: path(&["year"]), direction: Direction::Desc }])
    );
}

#[test]
fn ordering_several_keys() {
    let q = plain("true ORDER BY artist ASC, year DESC").unwrap();
    assert_eq!(
        q.ordering,
        Some(vec![
            OrderItem { field: path(&["artist"]), direction: Direction::Asc },
            OrderItem { field: path(&["year"]), direction: Direction::Desc },
        ])
    );
}

#[test]
fn in_list_of_integers() {
    let q = plain("year IN (1984, 1985, 1986)").unwrap();
    assert_eq!(
        q.predicate,
        Predicate::Comparison {
            field: path(&["year"]),
            op: Operator::In,
            value: CmpValue::List(vec![
                Literal::Int(1984),
                Literal::Int(1985),
                Literal::Int(1986)
            ]),
        }
    );
}

#[test]
fn missing_right_hand_literal_is_parse_error() {
    let e = plain("year >").unwrap_err();
    assert_eq!(
        e,
        QueryError::Parse(ParseError { pos: 2, expected: Expected::Value, found: Found::End })
    );
}

#[test]
fn empty_in_list_is_parse_error() {
    let e = plain("year IN ()").unwrap_err();
    assert_eq!(
        e,
        QueryError::Parse(ParseError { pos: 3, expected: Expected::Value, found: Found::RParen })
    );
}

#[test]
fn trailing_comma_in_list_is_parse_error() {
    let e = plain("year IN (1984,)").unwrap_err();
    assert!(matches!(e, QueryError::Parse(_)));
}

#[test]
fn unmatched_paren_is_parse_error() {
    let e = plain("(a = 1").unwrap_err();
    assert!(matches!(
        e,
        QueryError::Parse(ParseError { expected: Expected::RParen, found: Found::End, .. })
    ));
}

#[test]
fn trailing_tokens_are_parse_error() {
    let e = plain("a = 1 b = 2").unwrap_err();
    assert!(matches!(
        e,
        QueryError::Parse(ParseError { expected: Expected::End, .. })
    ));
}

#[test]
fn empty_source_is_parse_error() {
    let e = plain("").unwrap_err();
    assert_eq!(
        e,
        QueryError::Parse(ParseError { pos: 0, expected: Expected::Predicate, found: Found::End })
    );
    let e2 = plain("   ").unwrap_err();
    assert_eq!(
        e2,
        QueryError::Parse(ParseError { pos: 0, expected: Expected::Predicate, found: Found::End })
    );
}

#[test]
fn order_by_without_by_is_parse_error() {
    let e = plain("true ORDER name").unwrap_err();
    assert!(matches!(
        e,
        QueryError::Parse(ParseError { expected: Expected::By, .. })
    ));
}

#[test]
fn bare_boolean_is_a_predicate() {
    assert_eq!(plain("true").unwrap().predicate, Predicate::Literal(true));
    assert_eq!(plain("FALSE").unwrap().predicate, Predicate::Literal(false));
}

#[test]
fn grouped_or_then_and() {
    let q = plain("(artist = 'Prince' OR artist = 'Madonna') AND year > 1985").unwrap();
    let expected = Predicate::And(
        Box::new(Predicate::Or(
            Box::new(cmp("artist", Operator::Eq, Literal::Str("Prince".to_string()))),
            Box::new(cmp("artist", Operator::Eq, Literal::Str("Madonna".to_string()))),
        )),
        Box::new(cmp("year", Operator::Gt, Literal::Int(1985))),
    );
    assert_eq!(q.predicate, expected);
}

#[test]
fn dotted_path_reaches_nested_fields() {
    let q = plain("metadata.genre = 'rock'").unwrap();
    assert_eq!(
        q.predicate,
        Predicate::Comparison {
            field: path(&["metadata", "genre"]),
            op: Operator::Eq,
            value: CmpValue::Single(Literal::Str("rock".to_string())),
        }
    );
}

#[test]
fn all_comparison_operators_parse() {
    let ops = [
        ("=", Operator::Eq),
        ("!=", Operator::Ne),
        (">", Operator::Gt),
        ("<", Operator::Lt),
        (">=", Operator::Ge),
        ("<=", Operator::Le),
    ];
    for (sym, op) in ops.iter() {
        let q = plain(&format!("year {} 1985", sym)).unwrap();
        assert_eq!(q.predicate, cmp("year", *op, Literal::Int(1985)));
    }
}

#[test]
fn float_and_bool_values_parse() {
    let q = plain("rating >= 4.5 AND completed = false").unwrap();
    let expected = Predicate::And(
        Box::new(cmp("rating", Operator::Ge, Literal::Float("4.5".to_string()))),
        Box::new(cmp("completed", Operator::Eq, Literal::Bool(false))),
    );
    assert_eq!(q.predicate, expected);
}
