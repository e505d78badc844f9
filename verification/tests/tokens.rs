use lib::parser::identifier::IdentifierType;
use lib::parser::tokenizer::keys::{Header, Key};
use lib::parser::tokenizer::token::{Inlinable, RawToken, Token};
use lib::parser::tokenizer::Tokenizer;

fn token(word: &str, at: usize) -> Token {
    Token::from_bytes(word.as_bytes()).ok().unwrap().with_source_index(at)
}

#[test]
fn keys_are_read_from_their_spelling() {
    assert_eq!(Key::from_bytes(b"("), Some(Key::ParenOpen));
    assert_eq!(Key::from_bytes(b")"), Some(Key::ParenClose));
    assert_eq!(Key::from_bytes(b"["), Some(Key::ListOpen));
    assert_eq!(Key::from_bytes(b"]"), Some(Key::ListClose));
    assert_eq!(Key::from_bytes(b"{"), Some(Key::RecordOpen));
    assert_eq!(Key::from_bytes(b"}"), Some(Key::RecordClose));
    assert_eq!(Key::from_bytes(b","), Some(Key::Comma));
    assert_eq!(Key::from_bytes(b"."), Some(Key::Dot));
    assert_eq!(Key::from_bytes(b"<<"), Some(Key::Pipe));
    assert_eq!(Key::from_bytes(b"->"), Some(Key::Arrow));
    assert_eq!(Key::from_bytes(b"\\"), Some(Key::Lambda));
    assert_eq!(Key::from_bytes(b"#"), Some(Key::ClosureMarker));
    assert_eq!(Key::from_bytes(b"if"), Some(Key::If));
    assert_eq!(Key::from_bytes(b"then"), Some(Key::Then));
    assert_eq!(Key::from_bytes(b"elif"), Some(Key::Elif));
    assert_eq!(Key::from_bytes(b"else"), Some(Key::Else));
    assert_eq!(Key::from_bytes(b"first"), Some(Key::First));
    assert_eq!(Key::from_bytes(b"and"), Some(Key::And));
    assert_eq!(Key::from_bytes(b"where"), Some(Key::Where));
    assert_eq!(Key::from_bytes(b"???"), Some(Key::PrimitiveUnimplemented));
    assert_eq!(Key::from_bytes(b"iff"), None);
    assert_eq!(Key::from_bytes(b""), None);
}

#[test]
fn headers_are_read_from_their_spelling() {
    assert_eq!(Header::from_bytes(b"fn"), Some(Header::Function));
    assert_eq!(Header::from_bytes(b"operator"), Some(Header::Operator));
    assert_eq!(Header::from_bytes(b"type"), Some(Header::Type));
    assert_eq!(Header::from_bytes(b"use"), Some(Header::Use));
    assert_eq!(Header::from_bytes(b"fun"), None);
}

#[test]
fn literals_are_read() {
    assert_eq!(Inlinable::from_bytes(b"42"), Some(Inlinable::Int(42)));
    assert_eq!(Inlinable::from_bytes(b"0"), Some(Inlinable::Int(0)));
    assert_eq!(Inlinable::from_bytes(b"-7"), Some(Inlinable::Int(-7)));
    assert_eq!(Inlinable::from_bytes(b"true"), Some(Inlinable::Bool(true)));
    assert_eq!(Inlinable::from_bytes(b"false"), Some(Inlinable::Bool(false)));
    assert_eq!(
        Inlinable::from_bytes(b"9223372036854775807"),
        Some(Inlinable::Int(i64::MAX))
    );
    assert_eq!(
        Inlinable::from_bytes(b"-9223372036854775808"),
        Some(Inlinable::Int(i64::MIN))
    );
}

#[test]
fn words_that_are_no_literals() {
    assert_eq!(Inlinable::from_bytes(b"9223372036854775808"), None);
    assert_eq!(Inlinable::from_bytes(b"12a"), None);
    assert_eq!(Inlinable::from_bytes(b"-"), None);
    assert_eq!(Inlinable::from_bytes(b""), None);
    assert_eq!(Inlinable::from_bytes(b"True"), None);
}

#[test]
fn a_word_becomes_an_identifier_token() {
    let t = Token::from_bytes(b"io:puts").ok().unwrap();
    assert_eq!(t.source_index, 0);
    match t.inner {
        RawToken::Identifier(a) => {
            assert_eq!(a.inner.path, vec!["io".to_string()]);
            assert_eq!(a.inner.name, "puts");
            assert_eq!(a.inner.kind, IdentifierType::Normal);
            assert!(a.anot.is_empty());
        }
        _ => panic!("not an identifier"),
    }
}

#[test]
fn token_kinds_are_tried_in_order() {
    assert!(matches!(token("fn", 0).inner, RawToken::Header(Header::Function)));
    assert!(matches!(token("then", 0).inner, RawToken::Key(Key::Then)));
    assert!(matches!(token("12", 0).inner, RawToken::Inlined(Inlinable::Int(12))));
    assert!(matches!(token("\n", 0).inner, RawToken::NewLine));
    match token("+", 0).inner {
        RawToken::Identifier(a) => assert_eq!(a.inner.kind, IdentifierType::Operator),
        _ => panic!("not an identifier"),
    }
}

#[test]
fn empty_text_is_no_token() {
    assert!(Token::from_bytes(b"").is_err());
}

#[test]
fn source_index_is_set_and_read() {
    let t = token("x", 0).with_source_index(17);
    assert_eq!(t.pos(), 17);
    let (inner, at) = t.sep();
    assert_eq!(at, 17);
    assert!(matches!(inner, RawToken::Identifier(_)));
}

#[test]
fn tokenizer_hands_out_tokens_in_order() {
    let mut tz = Tokenizer::new(vec![token("1", 1), token("+", 3), token("2", 5)]);
    assert_eq!(tz.remaining(), 3);
    assert_eq!(tz.peek().unwrap().pos(), 1);
    let first = tz.next().unwrap();
    assert_eq!(first.pos(), 1);
    assert!(matches!(first.inner, RawToken::Inlined(Inlinable::Int(1))));
    assert_eq!(tz.remaining(), 2);
    tz.skip();
    assert_eq!(tz.peek().unwrap().pos(), 5);
    assert_eq!(tz.next().unwrap().pos(), 5);
    assert!(tz.peek().is_none());
    assert!(tz.next().is_none());
    assert_eq!(tz.remaining(), 0);
}
