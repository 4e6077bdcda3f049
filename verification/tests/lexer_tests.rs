use selection::lexer::lex;
use selection::token::{LexError, LexErrorKind, Operator, Token};

fn seg1(s: &str) -> Token {
    Token::Ident(vec![s.to_string()])
}

#[test]
fn lex_comparison_tokens() {
    let toks = lex("year >= 1985").unwrap();
    assert_eq!(toks, vec![seg1("year"), Token::Op(Operator::Ge), Token::Int(1985)]);
}

#[test]
fn lex_keywords_are_case_insensitive() {
    let toks = lex("AND and AnD oR OrDeR bY aSc DeSc In TRUE fAlSe").unwrap();
    assert_eq!(
        toks,
        vec![
            Token::And,
            Token::And,
            Token::And,
            Token::Or,
            Token::Order,
            Token::By,
            Token::Asc,
            Token::Desc,
            Token::In,
            Token::Bool(true),
            Token::Bool(false),
        ]
    );
}

#[test]
fn lex_identifiers_are_case_sensitive() {
    let toks = lex("Year year").unwrap();
    assert_eq!(toks, vec![seg1("Year"), seg1("year")]);
}

#[test]
fn lex_dotted_path_is_one_token() {
    let toks = lex("metadata.genre = 'rock'").unwrap();
    assert_eq!(
        toks,
        vec![
            Token::Ident(vec!["metadata".to_string(), "genre".to_string()]),
            Token::Op(Operator::Eq),
            Token::Str("rock".to_string()),
        ]
    );
}

#[test]
fn lex_string_decodes_doubled_quotes() {
    let toks = lex("'Rock ''n'' Roll'").unwrap();
    assert_eq!(toks, vec![Token::Str("Rock 'n' Roll".to_string())]);
}

#[test]
fn lex_numbers_integer_float_negative() {
    let toks = lex("12 3.5 -7 -0.25").unwrap();
    assert_eq!(
        toks,
        vec![
            Token::Int(12),
            Token::Float("3.5".to_string()),
            Token::Int(-7),
            Token::Float("-0.25".to_string()),
        ]
    );
}

#[test]
fn lex_extreme_integers() {
    let toks = lex("9223372036854775807 -9223372036854775808").unwrap();
    assert_eq!(toks, vec![Token::Int(i64::MAX), Token::Int(i64::MIN)]);
}

#[test]
fn lex_integer_overflow_is_error() {
    let e = lex("9223372036854775808").unwrap_err();
    assert_eq!(e, LexError { pos: 0, kind: LexErrorKind::BadNumber });
    let e2 = lex("year = -9223372036854775809").unwrap_err();
    assert_eq!(e2, LexError { pos: 7, kind: LexErrorKind::BadNumber });
}

#[test]
fn lex_unterminated_string_is_error() {
    let e = lex("name = 'oops").unwrap_err();
    assert_eq!(e, LexError { pos: 7, kind: LexErrorKind::UnterminatedString });
}

#[test]
fn lex_dangling_dot_after_digits_is_error() {
    let e = lex("12.").unwrap_err();
    assert_eq!(e, LexError { pos: 2, kind: LexErrorKind::BadNumber });
}

#[test]
fn lex_stray_character_is_error() {
    let e = lex("year # 1985").unwrap_err();
    assert_eq!(e, LexError { pos: 5, kind: LexErrorKind::BadChar });
    let e2 = lex("a ! b").unwrap_err();
    assert_eq!(e2, LexError { pos: 2, kind: LexErrorKind::BadChar });
}

#[test]
fn lex_punctuation_and_operators() {
    let toks = lex("(a = 1, b != 2) < <= >").unwrap();
    assert_eq!(
        toks,
        vec![
            Token::LParen,
            seg1("a"),
            Token::Op(Operator::Eq),
            Token::Int(1),
            Token::Comma,
            seg1("b"),
            Token::Op(Operator::Ne),
            Token::Int(2),
            Token::RParen,
            Token::Op(Operator::Lt),
            Token::Op(Operator::Le),
            Token::Op(Operator::Gt),
        ]
    );
}

#[test]
fn lex_whitespace_only_is_empty() {
    assert_eq!(lex("  \t\r\n ").unwrap(), vec![]);
    assert_eq!(lex("").unwrap(), vec![]);
}
