use clorus_runtime::forms::{is_ffi_error, lines_of, split_forms};
use clorus_runtime::project::{default_entry, Build, Package, ProjectConfig};
use clorus_runtime::repl::{display_value, format_result, EvalKind, EvalResult, ReplConfig};
use clorus_runtime::value::{Value, ValueTag};
use std::rc::Rc;

fn project(entry: &str, name: &str) -> ProjectConfig {
    ProjectConfig {
        package: Package { name: name.to_string(), version: "0.1.0".to_string() },
        build: Build { entry: entry.to_string() },
    }
}

#[test]
fn format_results() {
    let def = EvalResult { value: Value::Nil, kind: EvalKind::Def("x".to_string()) };
    assert_eq!(format_result(&def, "user"), "#'user/x");
    let ns = EvalResult { value: Value::Long(1), kind: EvalKind::Namespace };
    assert_eq!(format_result(&ns, "user"), "nil");
    let v = EvalResult { value: Value::Long(42), kind: EvalKind::Value };
    assert_eq!(format_result(&v, "user"), "42");
    let s = EvalResult { value: Value::Str("hi".to_string()), kind: EvalKind::Value };
    assert_eq!(format_result(&s, "user"), "\"hi\"");
    let vec = Value::Vector(Rc::new(vec![Value::Long(1), Value::Str("a".to_string())]));
    assert_eq!(display_value(&vec), "[1 \"a\"]");
    assert_eq!(display_value(&Value::Keyword("k".to_string())), ":k");
    assert_eq!(display_value(&Value::Identity(ValueTag::Atom, 255)), "Atom(0xff)");
}

#[test]
fn repl_config_default() {
    let c = ReplConfig::default();
    assert!(c.history_file.is_none() && c.stdlib_path.is_none());
    assert!(!c.no_banner && !c.no_stdlib && !c.no_auto_load && !c.main_thread);
}

#[test]
fn namespaces_follow_the_entry_path() {
    assert_eq!(project("src/gui/demo/core.clrs", "p").namespace(), "gui.demo.core");
    assert_eq!(project("src/gui_demo/core.clrs", "p").namespace(), "gui-demo.core");
    assert_eq!(project("src/gui-demo/core.clrs", "p").namespace(), "gui-demo.core");
    assert_eq!(project("src", "my_pkg").namespace(), "my-pkg");
    assert_eq!(default_entry(), "src/main.clrs");
    assert_eq!(Build::default().entry, "src/main.clrs");
}

#[test]
fn forms_are_split_by_brackets() {
    let src = "; comment\n(def x 1)\n\n(defn f [a]\n  (+ a \"(\"))\n(broken\n";
    let forms = split_forms(src);
    assert_eq!(forms, vec!["(def x 1)\n".to_string(), "(defn f [a]\n  (+ a \"(\"))\n".to_string()]);
    let lines = lines_of("a\r\nb\n\nc");
    assert_eq!(lines.len(), 4);
    assert_eq!(lines[0], vec!['a']);
    assert!(is_ffi_error("Unknown function foo"));
    assert!(!is_ffi_error("type error"));
}

#[test]
fn keyword_result_shows_as_keyword() {
    let r = EvalResult { value: Value::Keyword("keyword".to_string()), kind: EvalKind::Value };
    assert_eq!(format_result(&r, "user"), ":keyword");
}

#[test]
fn namespace_from_components() {
    use_components();
}

fn use_components() {
    let comps = vec!["src".to_string(), "gui_demo".to_string(), "core.clrs".to_string()];
    assert_eq!(clorus_runtime::project::namespace_of_components(&comps, "p"), "gui-demo.core");
    let none: Vec<String> = vec!["src".to_string()];
    assert_eq!(clorus_runtime::project::namespace_of_components(&none, "my_pkg"), "my-pkg");
}

#[test]
fn stems_of_path_components() {
    let stem = |c: &str| clorus_runtime::project::file_stem_of(c);
    assert_eq!(stem("core.clrs"), Some("core".to_string()));
    assert_eq!(stem("a.b.c"), Some("a.b".to_string()));
    assert_eq!(stem(".bashrc"), Some(".bashrc".to_string()));
    assert_eq!(stem(".a.b"), Some(".a".to_string()));
    assert_eq!(stem("a."), Some("a".to_string()));
    assert_eq!(stem("noext"), Some("noext".to_string()));
    assert_eq!(stem("."), None);
    assert_eq!(stem(".."), None);
    assert_eq!(stem("/"), None);
    assert_eq!(stem(""), None);
    for c in ["core.clrs", "a.b.c", ".bashrc", ".a.b", "a.", "noext", ".", "..", "/", ""] {
        let std_stem = std::path::Path::new(c).file_stem().map(|s| s.to_string_lossy().into_owned());
        assert_eq!(stem(c), std_stem);
    }
}
