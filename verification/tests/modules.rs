use lib::parser::fault::ParseFault;
use lib::parser::identifier::{Anot, Identifier};
use lib::parser::leafmod::{candidate_files, Environment, FileSource, ParseModule};

fn strings(parts: &[&str]) -> Vec<String> {
    parts.iter().map(|s| s.to_string()).collect()
}

fn levels(source: &FileSource) -> (&'static str, Vec<String>) {
    match source {
        FileSource::Project(l) => ("project", l.clone()),
        FileSource::Leafpath(l) => ("leaf", l.clone()),
        FileSource::Prelude => ("prelude", Vec::new()),
    }
}

fn env() -> Environment {
    Environment {
        entrypoint: strings(&["home", "me", "proj", "main.lf"]),
        leafpath: strings(&["opt", "leaf"]),
    }
}

#[test]
fn join_then_pop_gives_the_level_back() {
    let s = FileSource::Project(strings(&["a"])).join("b".to_string());
    assert_eq!(levels(&s), ("project", strings(&["a", "b"])));
    let mut s = s;
    assert_eq!(s.pop(), Some("b".to_string()));
    assert_eq!(levels(&s), ("project", strings(&["a"])));
    let mut leaf = FileSource::Leafpath(Vec::new()).join("x".to_string());
    assert_eq!(leaf.pop(), Some("x".to_string()));
    assert_eq!(leaf.pop(), None);
    assert_eq!(levels(&leaf), ("leaf", Vec::new()));
}

#[test]
fn only_a_top_level_project_file_is_the_entry_point() {
    assert!(FileSource::Project(strings(&["main"])).is_entrypoint());
    assert!(!FileSource::Project(strings(&["a", "b"])).is_entrypoint());
    assert!(!FileSource::Project(Vec::new()).is_entrypoint());
    assert!(!FileSource::Leafpath(strings(&["main"])).is_entrypoint());
    assert!(!FileSource::Prelude.is_entrypoint());
}

#[test]
fn project_files_sit_next_to_the_entry_point() {
    let p = FileSource::Project(strings(&["std", "io"])).to_pathbuf(&env());
    assert_eq!(p, strings(&["home", "me", "proj", "std", "io.lf"]));
}

#[test]
fn leaf_files_sit_under_modules() {
    let p = FileSource::Leafpath(strings(&["fs"])).to_pathbuf(&env());
    assert_eq!(p, strings(&["opt", "leaf", "modules", "fs.lf"]));
}

#[test]
fn the_extension_is_replaced() {
    let p = FileSource::Project(strings(&["lib.v1"])).to_pathbuf(&env());
    assert_eq!(p, strings(&["home", "me", "proj", "lib.lf"]));
    let hidden = FileSource::Project(strings(&[".hidden"])).to_pathbuf(&env());
    assert_eq!(hidden, strings(&["home", "me", "proj", ".hidden.lf"]));
}

#[test]
fn locating_prefers_the_project() {
    let path = strings(&["std"]);
    let name = "io".to_string();
    let both = FileSource::locate(&path, &name, true, true);
    assert_eq!(levels(&both), ("project", strings(&["std", "io"])));
    let leaf = FileSource::locate(&path, &name, false, true);
    assert_eq!(levels(&leaf), ("leaf", strings(&["std", "io"])));
}

#[test]
fn forking_from_the_entry_point_looks_the_module_up() {
    let ident = Anot { inner: Identifier::parse("std:io").ok().unwrap(), anot: Vec::new() };
    let s = FileSource::Project(strings(&["main"])).fork_from(ident, false, true);
    assert_eq!(levels(&s), ("leaf", strings(&["std", "io"])));
}

#[test]
fn forking_elsewhere_stays_next_to_the_module() {
    let ident = Anot { inner: Identifier::parse("c:d").ok().unwrap(), anot: Vec::new() };
    let s = FileSource::Project(strings(&["a", "b"])).fork_from(ident, false, false);
    assert_eq!(levels(&s), ("project", strings(&["a", "c"])));
    let ident = Anot { inner: Identifier::parse("x:y:z").ok().unwrap(), anot: Vec::new() };
    let s = FileSource::Leafpath(strings(&["m"])).fork_from(ident, true, true);
    assert_eq!(levels(&s), ("leaf", strings(&["x", "y"])));
}

#[test]
fn imports_are_found_by_name() {
    let mut m = ParseModule::new(FileSource::Prelude);
    assert!(m.function_ids.is_empty());
    assert!(m.types.is_empty());
    assert!(matches!(m.file_source, FileSource::Prelude));
    m.imports.push(("io".to_string(), 3));
    m.imports.push(("fs".to_string(), 5));
    assert!(matches!(m.get_import("io"), Ok(3)));
    assert!(matches!(m.get_import("fs"), Ok(5)));
    match m.get_import("net") {
        Err(ParseFault::ModuleNotImported(name)) => assert_eq!(name, "net"),
        _ => panic!("expected an error"),
    }
}

#[test]
fn sources_are_shown_as_text() {
    assert_eq!(FileSource::Project(strings(&["a", "b"])).to_text(), "project:a:b");
    assert_eq!(FileSource::Leafpath(strings(&["fs"])).to_text(), "leaf:fs");
    assert_eq!(FileSource::Leafpath(Vec::new()).to_text(), "leaf:");
    assert_eq!(FileSource::Prelude.to_text(), "prelude");
}

#[test]
fn an_empty_last_level_moves_the_extension_up() {
    let p = FileSource::Project(strings(&["a", ""])).to_pathbuf(&env());
    assert_eq!(p, strings(&["home", "me", "proj", "a.lf"]));
}

#[test]
fn a_dot_level_is_dropped() {
    let p = FileSource::Project(strings(&["a", "."])).to_pathbuf(&env());
    assert_eq!(p, strings(&["home", "me", "proj", "a.lf"]));
    let q = FileSource::Project(strings(&["a", ".", "b"])).to_pathbuf(&env());
    assert_eq!(q, strings(&["home", "me", "proj", "a", "b.lf"]));
}

#[test]
fn a_parent_level_keeps_the_path() {
    let p = FileSource::Project(strings(&["a", ".."])).to_pathbuf(&env());
    assert_eq!(p, strings(&["home", "me", "proj", "a", ".."]));
}

#[test]
fn an_absolute_level_text_replaces_the_directory() {
    let p = FileSource::Project(strings(&["", "x"])).to_pathbuf(&env());
    assert_eq!(p, strings(&["/", "x.lf"]));
}

#[test]
fn slashes_inside_a_level_split_it() {
    let p = FileSource::Project(strings(&["x/y"])).to_pathbuf(&env());
    assert_eq!(p, strings(&["home", "me", "proj", "x", "y.lf"]));
}

#[test]
fn no_levels_name_the_modules_directory() {
    let p = FileSource::Leafpath(Vec::new()).to_pathbuf(&env());
    assert_eq!(p, strings(&["opt", "leaf", "modules.lf"]));
}

#[test]
fn candidate_files_of_an_import() {
    let (in_project, in_leaf) = candidate_files(&strings(&["std"]), &"io".to_string(), &env());
    assert_eq!(in_project, strings(&["home", "me", "proj", "std", "io.lf"]));
    assert_eq!(in_leaf, strings(&["opt", "leaf", "modules", "std", "io.lf"]));
}

#[test]
fn candidate_files_without_a_path_are_at_the_root() {
    let (in_project, in_leaf) = candidate_files(&Vec::new(), &"io".to_string(), &env());
    assert_eq!(in_project, strings(&["/", "io.lf"]));
    assert_eq!(in_leaf, strings(&["/", "io.lf"]));
}
