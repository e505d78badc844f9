use std::collections::HashMap;

use lib::parser::fault::{Outcome, ParseFault};
use lib::parser::type_parse::{annotation, splice_to};
use lib::parser::types::{InferenceTable, MaybeType, Type};

fn parse(s: &str) -> Type {
    Type::parse(s).ok().unwrap()
}

#[test]
fn primitive_types() {
    assert!(matches!(parse("int"), Type::Int));
    assert!(matches!(parse("float"), Type::Float));
    assert!(matches!(parse("bool"), Type::Bool));
    assert!(matches!(parse("nothing"), Type::Nothing));
    assert!(matches!(parse("_"), Type::Nothing));
}

#[test]
fn single_lower_case_letters_are_generics() {
    assert!(matches!(parse("a"), Type::Generic(0)));
    assert!(matches!(parse("b"), Type::Generic(1)));
    assert!(matches!(parse("z"), Type::Generic(25)));
}

#[test]
fn other_names_are_custom_types() {
    match parse("A") {
        Type::Custom(a) => {
            assert_eq!(a.inner.name, "A");
            assert!(a.anot.is_empty());
        }
        _ => panic!("not a custom type"),
    }
    match parse("geo:point") {
        Type::Custom(a) => {
            assert_eq!(a.inner.path, vec!["geo".to_string()]);
            assert_eq!(a.inner.name, "point");
        }
        _ => panic!("not a custom type"),
    }
}

#[test]
fn annotated_names() {
    match parse("map<int, a>") {
        Type::Custom(a) => {
            assert_eq!(a.inner.name, "map");
            assert_eq!(a.anot.len(), 2);
            assert!(matches!(a.anot[0], Type::Int));
            assert!(matches!(a.anot[1], Type::Generic(0)));
        }
        _ => panic!("not a custom type"),
    }
}

#[test]
fn list_types_drop_the_two_last_characters() {
    // The inner text runs from the second character up to two before the end.
    match parse("[ int ]") {
        Type::List(inner) => assert!(matches!(*inner, Type::Int)),
        _ => panic!("not a list"),
    }
    match parse("[int]") {
        Type::List(inner) => match *inner {
            Type::Custom(a) => assert_eq!(a.inner.name, "in"),
            _ => panic!("not a custom type"),
        },
        _ => panic!("not a list"),
    }
}

#[test]
fn short_list_types_are_empty() {
    assert!(matches!(Type::parse("[]"), Err(ParseFault::EmptyListType)));
    assert!(matches!(Type::parse("[a"), Err(ParseFault::EmptyListType)));
}

#[test]
fn a_type_without_a_name_is_refused() {
    assert!(matches!(Type::parse("<int>"), Err(ParseFault::EmptyIdentifier)));
}

#[test]
fn splice_stops_at_a_point() {
    let chars: Vec<char> = "int, bool>".chars().collect();
    let (found, at) = splice_to(&chars, 0, ",>");
    let (c, t) = found.unwrap();
    assert_eq!(c, ',');
    assert!(matches!(t, Type::Int));
    assert_eq!(at, 4);
    let (found, at) = splice_to(&chars, at, ",>");
    let (c, t) = found.unwrap();
    assert_eq!(c, '>');
    assert!(matches!(t, Type::Bool));
    assert_eq!(at, chars.len());
}

#[test]
fn splice_without_a_point_gives_nothing() {
    let chars: Vec<char> = "int".chars().collect();
    let (found, at) = splice_to(&chars, 0, ",>");
    assert!(found.is_none());
    assert_eq!(at, 3);
}

#[test]
fn annotations_up_to_the_closing_bracket() {
    let chars: Vec<char> = "int, a>".chars().collect();
    let (anot, at) = annotation(&chars, 0);
    let anot = anot.unwrap();
    assert_eq!(anot.len(), 2);
    assert!(matches!(anot[0], Type::Int));
    assert!(matches!(anot[1], Type::Generic(0)));
    assert_eq!(at, chars.len());
}

#[test]
fn no_annotation_at_the_end() {
    let chars: Vec<char> = Vec::new();
    let (anot, at) = annotation(&chars, 0);
    assert!(anot.unwrap().is_empty());
    assert_eq!(at, 0);
}

#[test]
fn decoding_replaces_bound_generics() {
    let mut g = HashMap::new();
    g.insert(0u8, Type::Int);
    assert!(matches!(Type::Generic(0).decoded(&g), Type::Int));
    assert!(matches!(Type::Generic(1).decoded(&g), Type::Generic(1)));
    match Type::List(Box::new(Type::Generic(0))).decoded(&g) {
        Type::List(inner) => assert!(matches!(*inner, Type::Int)),
        _ => panic!("not a list"),
    }
    match Type::Function(Box::new((vec![Type::Generic(0), Type::Bool], Type::Generic(0)))).decoded(&g) {
        Type::Function(f) => {
            assert_eq!(f.0.len(), 2);
            assert!(matches!(f.0[0], Type::Int));
            assert!(matches!(f.0[1], Type::Bool));
            assert!(matches!(f.1, Type::Int));
        }
        _ => panic!("not a function"),
    }
}

#[test]
fn decoding_without_bindings_changes_nothing() {
    let g = HashMap::new();
    match Type::List(Box::new(Type::Generic(3))).decoded(&g) {
        Type::List(inner) => assert!(matches!(*inner, Type::Generic(3))),
        _ => panic!("not a list"),
    }
    assert!(matches!(Type::Struct(1, 2).decoded(&g), Type::Struct(1, 2)));
}

#[test]
fn the_default_type_is_nothing() {
    assert!(matches!(Type::default(), Type::Nothing));
}

#[test]
fn an_inferred_type_is_read_from_its_cell() {
    let mut table = InferenceTable::new();
    let m = MaybeType::new(&mut table);
    let other = MaybeType::new(&mut table);
    assert!(matches!(m, MaybeType::Infer(0)));
    assert!(matches!(other, MaybeType::Infer(1)));
    table.fill(0, Type::Bool);
    assert!(matches!(m.unwrap(&table), Type::Bool));
    assert!(matches!(MaybeType::Known(Type::Int).unwrap(&table), Type::Int));
}

#[test]
fn types_are_shown_as_text() {
    assert_eq!(Type::Int.to_text(), "int");
    assert_eq!(Type::Nothing.to_text(), "nothing");
    assert_eq!(Type::Float.to_text(), "float");
    assert_eq!(Type::Bool.to_text(), "bool");
    assert_eq!(Type::Generic(0).to_text(), "a");
    assert_eq!(Type::Generic(25).to_text(), "z");
    assert_eq!(Type::List(Box::new(Type::Int)).to_text(), "[int]");
    assert_eq!(Type::Struct(3, -12).to_text(), "Struct(3:-12)");
    assert_eq!(Type::Struct(i32::MIN, 0).to_text(), "Struct(-2147483648:0)");
    assert_eq!(Type::KnownCustom(10, 2).to_text(), "10:2");
    let f = Type::Function(Box::new((vec![Type::Int, Type::Generic(1)], Type::Bool)));
    assert_eq!(f.to_text(), "(int b -> bool)");
    let g = Type::Function(Box::new((Vec::new(), Type::Nothing)));
    assert_eq!(g.to_text(), "( -> nothing)");
}

#[test]
fn unresolved_custom_types_are_shown_with_their_names() {
    assert_eq!(parse("geo:point").to_text(), "unevaluated type geo:point");
    assert_eq!(parse("map<int, a>").to_text(), "unevaluated type map<int, a>");
}

#[test]
fn a_maybe_type_is_shown_once_known() {
    let mut table = InferenceTable::new();
    let m = MaybeType::new(&mut table);
    assert_eq!(m.to_text(&table), "?");
    table.fill(0, Type::List(Box::new(Type::Bool)));
    assert_eq!(m.to_text(&table), "[bool]");
    assert_eq!(MaybeType::Known(Type::Int).to_text(&table), "int");
}

#[test]
fn an_empty_cell_hashes_as_nothing() {
    let mut table = InferenceTable::new();
    let m = MaybeType::new(&mut table);
    assert!(matches!(m.hash_type(&table), Type::Nothing));
    table.fill(0, Type::Int);
    assert!(matches!(m.hash_type(&table), Type::Int));
    assert!(matches!(MaybeType::Known(Type::Bool).hash_type(&table), Type::Bool));
}

#[test]
fn annotations_end_at_the_end_of_the_text() {
    let chars: Vec<char> = "x<int>".chars().collect();
    let (anot, at) = annotation(&chars, 2);
    assert_eq!(anot.unwrap().len(), 1);
    assert_eq!(at, chars.len());
}

#[test]
fn the_checked_type_reader() {
    assert!(matches!(Type::try_parse("int"), Outcome::Done(Type::Int)));
    assert!(matches!(Type::try_parse("[]"), Outcome::Fails(ParseFault::EmptyListType)));
    assert!(matches!(Type::try_parse(""), Outcome::Panics));
    assert!(matches!(Type::try_parse("a<int>x"), Outcome::Panics));
    assert!(matches!(Type::try_parse("a<int,bool"), Outcome::Panics));
}
