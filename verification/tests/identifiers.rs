use lib::parser::fault::ParseFault;
use lib::parser::identifier::{Identifier, IdentifierType};

#[test]
fn a_plain_name_has_no_path() {
    let id = Identifier::parse("puts").ok().unwrap();
    assert!(id.path.is_empty());
    assert_eq!(id.name, "puts");
    assert_eq!(id.kind, IdentifierType::Normal);
    assert!(!id.is_operator());
}

#[test]
fn colons_separate_the_path() {
    let id = Identifier::parse("std:io:puts").ok().unwrap();
    assert_eq!(id.path, vec!["std".to_string(), "io".to_string()]);
    assert_eq!(id.name, "puts");
}

#[test]
fn empty_segments_are_kept() {
    let id = Identifier::parse("a::b").ok().unwrap();
    assert_eq!(id.path, vec!["a".to_string(), String::new()]);
    assert_eq!(id.name, "b");
    let trailing = Identifier::parse("a:").ok().unwrap();
    assert_eq!(trailing.path, vec!["a".to_string()]);
    assert_eq!(trailing.name, "");
}

#[test]
fn operator_names() {
    for op in ["+", "-", "*", "/", "==", "<=", "!", "&&", "||", "%", "^", "~", "?", "@", "$"] {
        let id = Identifier::parse(op).ok().unwrap();
        assert_eq!(id.kind, IdentifierType::Operator, "{}", op);
        assert!(id.is_operator());
    }
    let qualified = Identifier::parse("math:+").ok().unwrap();
    assert_eq!(qualified.kind, IdentifierType::Operator);
    let not_op = Identifier::parse("a+").ok().unwrap();
    assert_eq!(not_op.kind, IdentifierType::Normal);
}

#[test]
fn empty_text_is_no_identifier() {
    assert!(matches!(Identifier::parse(""), Err(ParseFault::EmptyIdentifier)));
}

#[test]
fn a_copy_is_equal() {
    let id = Identifier::parse("x:y").ok().unwrap();
    let copy = id.duplicate();
    assert_eq!(copy.path, id.path);
    assert_eq!(copy.name, id.name);
    assert_eq!(copy.kind, id.kind);
}
