use lib::parser::ast::builder::AstBuilder;
use lib::parser::ast::{Callable, Entity};
use lib::parser::fault::{Expected, Outcome, ParseError, ParseFault};
use lib::parser::identifier::{Anot, Identifier};
use lib::parser::tokenizer::keys::Key;
use lib::parser::tokenizer::token::{Inlinable, RawToken, Token};
use lib::parser::tokenizer::Tokenizer;

/// A builder over the words of `text`, each placed at its index (from 1).
fn builder(text: &str) -> AstBuilder {
    let tokens: Vec<Token> = text
        .split(' ')
        .filter(|w| !w.is_empty())
        .enumerate()
        .map(|(i, w)| Token::from_bytes(w.as_bytes()).ok().unwrap().with_source_index(i + 1))
        .collect();
    AstBuilder::new(Tokenizer::new(tokens))
}

fn int_of(e: &Entity) -> i64 {
    match e {
        Entity::Inlined(Inlinable::Int(n)) => *n,
        _ => panic!("not an integer literal"),
    }
}

#[test]
fn a_literal() {
    let mut b = builder("42");
    let e = b.run_chunk().ok().unwrap();
    assert_eq!(int_of(&e.inner), 42);
    assert_eq!(e.pos, 1);
    assert_eq!(b.tokenizer().remaining(), 0);
}

#[test]
fn an_operator_between_two_operands() {
    let mut b = builder("1 + 2");
    let e = b.run_chunk().ok().unwrap();
    assert_eq!(e.pos, 2);
    match e.inner {
        Entity::Call(Callable::Func(op), params) => {
            assert_eq!(op.inner.name, "+");
            assert_eq!(params.len(), 2);
            assert_eq!(int_of(&params[0].inner), 1);
            assert_eq!(int_of(&params[1].inner), 2);
        }
        _ => panic!("not a call"),
    }
}

#[test]
fn a_function_with_parameters() {
    let mut b = builder("f 1 2");
    match b.run_chunk().ok().unwrap().inner {
        Entity::Call(Callable::Func(f), params) => {
            assert_eq!(f.inner.name, "f");
            assert_eq!(params.len(), 2);
            assert_eq!(int_of(&params[1].inner), 2);
        }
        _ => panic!("not a call"),
    }
}

#[test]
fn a_name_alone() {
    let mut b = builder("x");
    match b.run_chunk().ok().unwrap().inner {
        Entity::SingleIdent(x) => assert_eq!(x.inner.name, "x"),
        _ => panic!("not a name"),
    }
}

#[test]
fn builtin_paths_are_marked() {
    let mut b = builder("builtin:io:puts 1");
    match b.run_chunk().ok().unwrap().inner {
        Entity::Call(Callable::Builtin(f), params) => {
            assert_eq!(f.inner.path, vec!["io".to_string()]);
            assert_eq!(f.inner.name, "puts");
            assert_eq!(params.len(), 1);
        }
        _ => panic!("not a builtin call"),
    }
}

#[test]
fn a_list() {
    let mut b = builder("[ 1 , 2 ]");
    match b.run_chunk().ok().unwrap().inner {
        Entity::List(items) => {
            assert_eq!(items.len(), 2);
            assert_eq!(int_of(&items[0].inner), 1);
            assert_eq!(int_of(&items[1].inner), 2);
        }
        _ => panic!("not a list"),
    }
}

#[test]
fn an_empty_list() {
    let mut b = builder("[ ]");
    match b.run_chunk().ok().unwrap().inner {
        Entity::List(items) => assert!(items.is_empty()),
        _ => panic!("not a list"),
    }
}

#[test]
fn an_if_expression() {
    let mut b = builder("if true then 1 elif false then 2 else 3");
    match b.run_chunk().ok().unwrap().inner {
        Entity::If(branches, otherwise) => {
            assert_eq!(branches.len(), 2);
            assert!(matches!(branches[0].0.inner, Entity::Inlined(Inlinable::Bool(true))));
            assert_eq!(int_of(&branches[0].1.inner), 1);
            assert_eq!(int_of(&branches[1].1.inner), 2);
            assert_eq!(int_of(&otherwise.inner), 3);
        }
        _ => panic!("not an if"),
    }
}

#[test]
fn an_if_without_then_is_refused() {
    let mut b = builder("if true 1 else 2");
    match b.run_chunk() {
        Err(e) => {
            assert!(matches!(e.fault, ParseFault::IfWantedThen(RawToken::Inlined(Inlinable::Int(1)))));
            assert_eq!(e.source_index, 3);
        }
        Ok(_) => panic!("expected an error"),
    }
}

#[test]
fn a_first_expression() {
    let mut b = builder("first f 1 and g 2 then 3");
    match b.run_chunk().ok().unwrap().inner {
        Entity::First(stmts) => {
            assert_eq!(stmts.len(), 3);
            assert!(matches!(stmts[0].inner, Entity::Call(Callable::Func(_), _)));
            assert_eq!(int_of(&stmts[2].inner), 3);
        }
        _ => panic!("not a first"),
    }
}

#[test]
fn a_lambda() {
    let mut b = builder("\\ x y -> x");
    match b.run_chunk().ok().unwrap().inner {
        Entity::Lambda(params, body) => {
            assert_eq!(params.len(), 2);
            assert_eq!(params[1].inner.name, "y");
            assert!(matches!(body.inner, Entity::SingleIdent(_)));
        }
        _ => panic!("not a lambda"),
    }
}

#[test]
fn a_record_with_fields_last_first() {
    let mut b = builder("{ point . x 1 , y 2 }");
    match b.run_chunk().ok().unwrap().inner {
        Entity::Record(name, fields) => {
            assert_eq!(name.inner.name, "point");
            assert_eq!(fields.len(), 2);
            assert_eq!(fields[0].0, "y");
            assert_eq!(int_of(&fields[0].1.inner), 2);
            assert_eq!(fields[1].0, "x");
            assert_eq!(int_of(&fields[1].1.inner), 1);
        }
        _ => panic!("not a record"),
    }
}

#[test]
fn parentheses_group() {
    let mut b = builder("( 1 + 2 ) * 3");
    match b.run_chunk().ok().unwrap().inner {
        Entity::Call(Callable::Func(op), params) => {
            assert_eq!(op.inner.name, "*");
            assert!(matches!(params[0].inner, Entity::Call(_, _)));
            assert_eq!(int_of(&params[1].inner), 3);
        }
        _ => panic!("not a call"),
    }
}

#[test]
fn unimplemented_marker() {
    let mut b = builder("???");
    assert!(matches!(b.run_chunk().ok().unwrap().inner, Entity::Unimplemented));
}

#[test]
fn nothing_to_read_is_an_empty_paren() {
    let mut b = builder("");
    match b.run_chunk() {
        Err(e) => {
            assert!(matches!(e.fault, ParseFault::EmptyParen));
            assert_eq!(e.source_index, 0);
        }
        Ok(_) => panic!("expected an error"),
    }
}

#[test]
fn an_unexpected_token() {
    let mut b = builder(")");
    match b.run_chunk() {
        Err(e) => {
            assert!(matches!(e.fault, ParseFault::Unexpected(RawToken::Key(Key::ParenClose))));
            assert_eq!(e.source_index, 1);
        }
        Ok(_) => panic!("expected an error"),
    }
}

#[test]
fn reading_only_takes_tokens_from_the_front() {
    let mut b = builder("1 ) 2");
    assert_eq!(int_of(&b.run_chunk().ok().unwrap().inner), 1);
    assert_eq!(b.tokenizer().remaining(), 2);
    let mut rest = builder("1 ) 2");
    let _ = rest.run_chunk();
    assert!(matches!(
        b.tokenizer().peek().map(|t| t.pos()),
        Some(2)
    ));
}

fn error_of(text: &str) -> ParseError {
    match builder(text).run_chunk() {
        Err(e) => e,
        Ok(_) => panic!("expected an error for {:?}", text),
    }
}

#[test]
fn an_unclosed_parenthesis() {
    let e = error_of("( 1");
    assert!(matches!(e.fault, ParseFault::Unmatched(Key::ParenOpen)));
    assert_eq!(e.source_index, 1);
}

#[test]
fn list_items_need_commas() {
    let e = error_of("[ 1 2 ]");
    match e.fault {
        ParseFault::GotButExpected(RawToken::Inlined(Inlinable::Int(2)), wanted) => {
            assert_eq!(wanted, vec![Expected::Comma, Expected::ListClose]);
        }
        _ => panic!("wrong fault"),
    }
    assert_eq!(e.source_index, 3);
}

#[test]
fn a_token_that_cannot_be_a_parameter() {
    let e = error_of("f 1 .");
    assert!(matches!(e.fault, ParseFault::UnexpectedWantedParameter(RawToken::Key(Key::Dot))));
    assert_eq!(e.source_index, 3);
}

#[test]
fn a_list_is_no_closure() {
    let e = error_of("f # ( [ 1 ] )");
    assert!(matches!(e.fault, ParseFault::InvalidClosure(Entity::List(_))));
    assert_eq!(e.source_index, 4);
}

#[test]
fn a_closing_bracket_is_no_closure() {
    let e = error_of("f # ]");
    assert!(matches!(e.fault, ParseFault::InvalidClosureT(RawToken::Key(Key::ListClose))));
    assert_eq!(e.source_index, 3);
}

#[test]
fn an_if_that_ends_early_is_placed_at_the_if() {
    let e = error_of("if true");
    assert!(matches!(e.fault, ParseFault::IfMissingThen));
    assert_eq!(e.source_index, 1);
}

#[test]
fn a_first_that_ends_early_is_placed_at_the_first() {
    let e = error_of("first 1");
    assert!(matches!(e.fault, ParseFault::FirstMissingThen));
    assert_eq!(e.source_index, 1);
}

#[test]
fn a_first_needs_then() {
    let e = error_of("first 1 2");
    assert!(matches!(e.fault, ParseFault::FirstWantedThen(RawToken::Inlined(Inlinable::Int(2)))));
    assert_eq!(e.source_index, 3);
}

#[test]
fn a_record_needs_a_dot() {
    let e = error_of("{ point");
    match e.fault {
        ParseFault::EndedWhileExpecting(wanted) => assert_eq!(wanted, vec![Expected::Dot]),
        _ => panic!("wrong fault"),
    }
    assert_eq!(e.source_index, 2);
}

#[test]
fn a_closure_of_a_value() {
    let mut b = builder("f # 5");
    match b.run_chunk().ok().unwrap().inner {
        Entity::Call(Callable::Func(_), params) => {
            assert_eq!(params.len(), 1);
            assert!(matches!(params[0].inner, Entity::Pass(_)));
        }
        _ => panic!("not a call"),
    }
}

#[test]
fn leading_new_lines_are_skipped() {
    let mut b = builder("\n \n 42");
    let e = b.run_chunk().ok().unwrap();
    assert_eq!(int_of(&e.inner), 42);
    assert_eq!(e.pos, 3);
}

#[test]
fn parentheses_around_a_value_change_nothing() {
    let mut b = builder("( 7 )");
    let e = b.run_chunk().ok().unwrap();
    assert_eq!(int_of(&e.inner), 7);
    assert_eq!(e.pos, 2);
    assert_eq!(b.tokenizer().remaining(), 0);
}

#[test]
fn operators_group_to_the_right() {
    let mut b = builder("1 + 2 * 3");
    match b.run_chunk().ok().unwrap().inner {
        Entity::Call(Callable::Func(op), params) => {
            assert_eq!(op.inner.name, "+");
            assert_eq!(int_of(&params[0].inner), 1);
            match &params[1].inner {
                Entity::Call(Callable::Func(inner), ps) => {
                    assert_eq!(inner.inner.name, "*");
                    assert_eq!(int_of(&ps[0].inner), 2);
                    assert_eq!(int_of(&ps[1].inner), 3);
                }
                _ => panic!("not a call"),
            }
        }
        _ => panic!("not a call"),
    }
}

#[test]
fn parameters_come_in_source_order() {
    let mut b = builder("f 3 1 2");
    match b.run_chunk().ok().unwrap().inner {
        Entity::Call(_, params) => {
            let values: Vec<i64> = params.iter().map(|p| int_of(&p.inner)).collect();
            assert_eq!(values, vec![3, 1, 2]);
            assert_eq!(params[0].pos, 2);
            assert_eq!(params[2].pos, 4);
        }
        _ => panic!("not a call"),
    }
}

#[test]
fn the_checked_reader_gives_the_same_expression() {
    let mut b = builder("1 + 2");
    match b.try_run_chunk() {
        Outcome::Done(e) => assert!(matches!(e.inner, Entity::Call(_, _))),
        _ => panic!("expected a value"),
    }
    let mut c = builder(")");
    assert!(matches!(c.try_run_chunk(), Outcome::Fails(_)));
}

#[test]
fn the_checked_reader_reports_a_bad_record_field_end() {
    let mut b = builder("{ p . x 1 2 }");
    assert!(matches!(b.try_run_chunk(), Outcome::Panics));
}

#[test]
fn the_checked_reader_reports_an_annotation_that_panics() {
    let inner = Identifier::parse("f").ok().unwrap();
    let t = Token::new(RawToken::Identifier(Anot { inner, anot: vec![String::new()] }), 1);
    let mut b = AstBuilder::new(Tokenizer::new(vec![t]));
    assert!(matches!(b.try_run_chunk(), Outcome::Panics));
}
