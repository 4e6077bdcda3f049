use selection::lexer::lex;
use selection::literal::{render_literal, Literal};
use selection::models::{Album, Artist, Document, Task};
use selection::token::Token;

fn roundtrip(l: Literal) {
    let text = render_literal(&l);
    let toks = lex(&text).unwrap();
    let got = match &toks[..] {
        [Token::Str(s)] => Literal::Str(s.clone()),
        [Token::Int(n)] => Literal::Int(*n),
        [Token::Float(t)] => Literal::Float(t.clone()),
        [Token::Bool(b)] => Literal::Bool(*b),
        other => panic!("rendered literal lexed to {:?}", other),
    };
    assert_eq!(got, l);
}

#[test]
fn roundtrip_plain_string() {
    roundtrip(Literal::Str("Purple Rain".to_string()));
    assert_eq!(
        render_literal(&Literal::Str("Purple Rain".to_string())),
        "'Purple Rain'".to_string()
    );
}

#[test]
fn roundtrip_string_with_quotes() {
    roundtrip(Literal::Str("Rock 'n' Roll".to_string()));
    roundtrip(Literal::Str("'".to_string()));
    roundtrip(Literal::Str("''".to_string()));
    roundtrip(Literal::Str("".to_string()));
    assert_eq!(
        render_literal(&Literal::Str("Rock 'n' Roll".to_string())),
        "'Rock ''n'' Roll'".to_string()
    );
}

#[test]
fn roundtrip_string_with_braces_and_keywords() {
    roundtrip(Literal::Str("{} AND true OR 'x'".to_string()));
}

#[test]
fn roundtrip_integers() {
    roundtrip(Literal::Int(0));
    roundtrip(Literal::Int(42));
    roundtrip(Literal::Int(-42));
    roundtrip(Literal::Int(i64::MAX));
    roundtrip(Literal::Int(i64::MIN));
    assert_eq!(render_literal(&Literal::Int(-42)), "-42".to_string());
    assert_eq!(
        render_literal(&Literal::Int(i64::MIN)),
        "-9223372036854775808".to_string()
    );
}

#[test]
fn roundtrip_floats() {
    roundtrip(Literal::Float("3.14".to_string()));
    roundtrip(Literal::Float("-0.5".to_string()));
    roundtrip(Literal::Float("120.0".to_string()));
    assert_eq!(render_literal(&Literal::Float("3.14".to_string())), "3.14".to_string());
}

#[test]
fn roundtrip_booleans() {
    roundtrip(Literal::Bool(true));
    roundtrip(Literal::Bool(false));
    assert_eq!(render_literal(&Literal::Bool(true)), "true".to_string());
    assert_eq!(render_literal(&Literal::Bool(false)), "false".to_string());
}

#[test]
fn model_records_construct() {
    let album = Album { name: "Parade".to_string(), artist: "Prince".to_string(), year: 1986 };
    assert_eq!(album.year, 1986);
    let task = Task { title: "ship".to_string(), completed: false, priority: 2 };
    assert!(!task.completed);
    let doc = Document { content: "...".to_string(), title: "notes".to_string() };
    assert_eq!(doc.title, "notes".to_string());
    let artist = Artist { name: "Radiohead".to_string() };
    assert_eq!(artist.clone(), artist);
}
