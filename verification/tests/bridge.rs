use lib::ir::bridge::{get_funcid, try_rust_builtin, NaiveType};
use lib::parser::fault::ParseFault;
use lib::parser::types::Type;

fn id_of(name: &str) -> u16 {
    match get_funcid(name) {
        Ok((id, _)) => id,
        Err(_) => panic!("no builtin {}", name),
    }
}

#[test]
fn each_builtin_has_its_index() {
    assert_eq!(id_of("add"), 0);
    assert_eq!(id_of("sub"), 1);
    assert_eq!(id_of("mul"), 2);
    assert_eq!(id_of("div"), 3);
    assert_eq!(id_of("push_back"), 4);
    assert_eq!(id_of("push_front"), 5);
    assert_eq!(id_of("get"), 6);
    assert_eq!(id_of("len"), 7);
}

#[test]
fn each_builtin_has_its_result_type() {
    assert!(matches!(get_funcid("add"), Ok((_, NaiveType::Matching(0)))));
    assert!(matches!(get_funcid("div"), Ok((_, NaiveType::Matching(0)))));
    assert!(matches!(get_funcid("push_back"), Ok((_, NaiveType::Matching(1)))));
    assert!(matches!(get_funcid("push_front"), Ok((_, NaiveType::Matching(1)))));
    assert!(matches!(get_funcid("get"), Ok((_, NaiveType::UnlistedMatching(1)))));
    assert!(matches!(get_funcid("len"), Ok((_, NaiveType::Known(Type::Int)))));
}

#[test]
fn an_unknown_builtin_is_refused() {
    match get_funcid("pop") {
        Err(ParseFault::BridgedFunctionNotFound(id)) => {
            assert_eq!(id.name, "pop");
            assert!(id.path.is_empty());
        }
        _ => panic!("expected an error"),
    }
    match get_funcid("io:puts") {
        Err(ParseFault::BridgedFunctionNotFound(id)) => {
            assert_eq!(id.path, vec!["io".to_string()]);
            assert_eq!(id.name, "puts");
        }
        _ => panic!("expected an error"),
    }
}

#[test]
fn a_rust_path_names_a_builtin() {
    let entries = vec!["rust".to_string(), "mul".to_string()];
    assert!(matches!(try_rust_builtin(&entries), Ok(Some((2, NaiveType::Matching(0))))));
    let bad = vec!["rust".to_string(), "nope".to_string()];
    assert!(matches!(try_rust_builtin(&bad), Err(ParseFault::BridgedFunctionNotFound(_))));
}

#[test]
fn other_paths_name_no_builtin() {
    let entries = vec!["std".to_string(), "add".to_string()];
    assert!(matches!(try_rust_builtin(&entries), Ok(None)));
    let single = vec!["rusty".to_string()];
    assert!(matches!(try_rust_builtin(&single), Ok(None)));
}
