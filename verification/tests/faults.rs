use lib::parser::fault::{Expected, ParseError, ParseFault};

#[test]
fn a_fault_is_placed_at_an_index() {
    let e = ParseFault::EmptyParen.into_err(12);
    assert_eq!(e.source_index, 12);
    assert!(matches!(e.fault, ParseFault::EmptyParen));
}

#[test]
fn an_unknown_index_falls_back() {
    let e = ParseFault::IfMissingThen.into_err(0).fallback_index(7);
    assert_eq!(e.source_index, 7);
    assert!(matches!(e.fault, ParseFault::IfMissingThen));
}

#[test]
fn a_known_index_is_kept() {
    let e = ParseError { fault: ParseFault::EmptyListType, source_index: 3 };
    assert_eq!(e.fallback_index(9).source_index, 3);
}

#[test]
fn falling_back_twice_keeps_the_first_index() {
    let e = ParseFault::FirstMissingThen.into_err(0).fallback_index(4).fallback_index(8);
    assert_eq!(e.source_index, 4);
}

#[test]
fn expected_things_have_their_names() {
    assert_eq!(Expected::LambdaParameter.text(), "lambda parameter");
    assert_eq!(Expected::Arrow.text(), "->");
    assert_eq!(Expected::ParenClose.text(), ")");
    assert_eq!(Expected::Comma.text(), ",");
    assert_eq!(Expected::ListClose.text(), "]");
    assert_eq!(Expected::Elif.text(), "elif");
    assert_eq!(Expected::Else.text(), "else");
    assert_eq!(Expected::TypeName.text(), "type name");
    assert_eq!(Expected::Identifier.text(), "identifier");
    assert_eq!(Expected::Dot.text(), ".");
    assert_eq!(Expected::FieldName.text(), "field name");
    assert_eq!(Expected::RecordClose.text(), "}");
}
