use selection::ast::{CmpValue, Predicate};
use selection::compile::{compile, Interpolation, QueryError};
use selection::interp::{interpolate_quoted, interpolate_unquoted, InterpError};
use selection::literal::Literal;
use selection::token::Operator;

fn ipath(segs: &[&str]) -> selection::ast::FieldPath {
    selection::ast::FieldPath { segments: segs.iter().map(|s| s.to_string()).collect() }
}

fn icmp(field: &str, op: Operator, value: Literal) -> Predicate {
    Predicate::Comparison { field: ipath(&[field]), op, value: CmpValue::Single(value) }
}

fn bind(name: &str, value: Literal) -> (String, Literal) {
    (name.to_string(), value)
}

#[test]
fn positional_interpolation_compiles_range() {
    let q = compile(
        "year >= {} AND year <= {}",
        Interpolation::Quoted {
            positional: vec![Literal::Int(1980), Literal::Int(1990)],
            named: vec![],
        },
    )
    .unwrap();
    let expected = Predicate::And(
        Box::new(icmp("year", Operator::Ge, Literal::Int(1980))),
        Box::new(icmp("year", Operator::Le, Literal::Int(1990))),
    );
    assert_eq!(q.predicate, expected);
}

#[test]
fn named_quoted_interpolation() {
    let q = compile(
        "artist = {a} AND year > {y}",
        Interpolation::Quoted {
            positional: vec![],
            named: vec![
                bind("a", Literal::Str("Prince".to_string())),
                bind("y", Literal::Int(1985)),
            ],
        },
    )
    .unwrap();
    let explicit = compile("artist = 'Prince' AND year > 1985", Interpolation::Plain).unwrap();
    assert_eq!(q, explicit);
}

#[test]
fn unquoted_sugar_matches_explicit_query() {
    let q = compile(
        "{artist} AND {>year}",
        Interpolation::Unquoted {
            env: vec![
                bind("artist", Literal::Str("Prince".to_string())),
                bind("year", Literal::Int(1985)),
            ],
        },
    )
    .unwrap();
    let explicit = compile("artist = 'Prince' AND year > 1985", Interpolation::Plain).unwrap();
    assert_eq!(q, explicit);
}

#[test]
fn unquoted_sugar_all_operators() {
    let env = vec![bind("year", Literal::Int(1985))];
    let cases = [
        ("{>year}", "year > 1985"),
        ("{<year}", "year < 1985"),
        ("{>=year}", "year >= 1985"),
        ("{<=year}", "year <= 1985"),
        ("{!=year}", "year != 1985"),
        ("{year}", "year = 1985"),
    ];
    for (template, explicit) in cases.iter() {
        let q = compile(template, Interpolation::Unquoted { env: env.clone() }).unwrap();
        let e = compile(explicit, Interpolation::Plain).unwrap();
        assert_eq!(q, e);
    }
}

#[test]
fn unquoted_mixes_with_explicit_comparisons() {
    // explicit comparison text passes through unchanged around the sugar
    let env = vec![bind("artist", Literal::Str("Prince".to_string()))];
    let q = compile("{artist} AND year > 1985", Interpolation::Unquoted { env }).unwrap();
    let e = compile("artist = 'Prince' AND year > 1985", Interpolation::Plain).unwrap();
    assert_eq!(q, e);
}

#[test]
fn unquoted_expansion_is_textual() {
    // `{year}` always expands to the whole clause `year = 1985`, even after
    // explicit operator text: substitution is textual, never AST splicing,
    // so this template expands to a string that does not parse
    let env = vec![
        bind("artist", Literal::Str("Prince".to_string())),
        bind("year", Literal::Int(1985)),
    ];
    let out = interpolate_unquoted("{artist} AND year > {year}", &env).unwrap();
    assert_eq!(out, "artist = 'Prince' AND year > year = 1985".to_string());
    let r = compile("{artist} AND year > {year}", Interpolation::Unquoted { env });
    assert!(matches!(r, Err(QueryError::Parse(_))));
}

#[test]
fn missing_positional_value_is_interpolation_error() {
    let e = compile(
        "year > {}",
        Interpolation::Quoted { positional: vec![], named: vec![] },
    )
    .unwrap_err();
    assert_eq!(e, QueryError::Interp(InterpError::PositionalMismatch { pos: 7 }));
}

#[test]
fn leftover_positional_value_is_interpolation_error() {
    let e = compile(
        "year > 1985",
        Interpolation::Quoted { positional: vec![Literal::Int(7)], named: vec![] },
    )
    .unwrap_err();
    assert_eq!(e, QueryError::Interp(InterpError::PositionalMismatch { pos: 11 }));
}

#[test]
fn unbound_name_is_interpolation_error() {
    let e = compile("{artist}", Interpolation::Unquoted { env: vec![] }).unwrap_err();
    assert_eq!(
        e,
        QueryError::Interp(InterpError::Unbound { pos: 0, name: "artist".to_string() })
    );
}

#[test]
fn malformed_operator_prefix_is_interpolation_error() {
    let env = vec![bind("year", Literal::Int(1985))];
    let e = compile("{==year}", Interpolation::Unquoted { env }).unwrap_err();
    assert_eq!(e, QueryError::Interp(InterpError::BadOperator { pos: 0 }));
}

#[test]
fn unclosed_brace_is_interpolation_error() {
    let e = compile(
        "year > {",
        Interpolation::Quoted { positional: vec![Literal::Int(1)], named: vec![] },
    )
    .unwrap_err();
    assert_eq!(e, QueryError::Interp(InterpError::UnclosedBrace { pos: 7 }));
}

#[test]
fn malformed_float_is_interpolation_error() {
    let env = vec![bind("speed", Literal::Float("1e5".to_string()))];
    let e = compile("{speed}", Interpolation::Unquoted { env }).unwrap_err();
    assert_eq!(e, QueryError::Interp(InterpError::BadFloat { pos: 0 }));
}

#[test]
fn well_formed_float_interpolates() {
    let env = vec![bind("speed", Literal::Float("2.5".to_string()))];
    let q = compile("{>speed}", Interpolation::Unquoted { env }).unwrap();
    assert_eq!(q.predicate, icmp("speed", Operator::Gt, Literal::Float("2.5".to_string())));
}

#[test]
fn embedded_quote_cannot_inject() {
    // the value holds a quote and query keywords; it must come back as the
    // same string value, not reshape the query
    let tricky = "x' OR 'a' = 'a";
    let q = compile(
        "artist = {}",
        Interpolation::Quoted {
            positional: vec![Literal::Str(tricky.to_string())],
            named: vec![],
        },
    )
    .unwrap();
    assert_eq!(q.predicate, icmp("artist", Operator::Eq, Literal::Str(tricky.to_string())));
}

#[test]
fn unquoted_value_with_quote_cannot_inject() {
    let tricky = "p' OR true OR name = 'q";
    let env = vec![bind("name", Literal::Str(tricky.to_string()))];
    let q = compile("{name}", Interpolation::Unquoted { env }).unwrap();
    assert_eq!(q.predicate, icmp("name", Operator::Eq, Literal::Str(tricky.to_string())));
}

#[test]
fn interpolate_quoted_renders_text() {
    let out = interpolate_quoted(
        "year >= {} AND artist = {a}",
        &vec![Literal::Int(1980)],
        &vec![bind("a", Literal::Str("Prince".to_string()))],
    )
    .unwrap();
    assert_eq!(out, "year >= 1980 AND artist = 'Prince'".to_string());
}

#[test]
fn interpolate_unquoted_renders_text() {
    let out = interpolate_unquoted(
        "{artist} OR {>=year}",
        &vec![
            bind("artist", Literal::Str("Rock 'n' Roll".to_string())),
            bind("year", Literal::Int(1990)),
        ],
    )
    .unwrap();
    assert_eq!(out, "artist = 'Rock ''n'' Roll' OR year >= 1990".to_string());
}
