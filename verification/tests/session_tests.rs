use clorus_runtime::namespace::{module_file, NamespaceState, RequireSpec, SymbolRegistry};
use clorus_runtime::repl::EvalKind;
use clorus_runtime::session::{eval_kind_of, FormKind, ReplState};

fn s(x: &str) -> String {
    x.to_string()
}

fn sorted(v: Option<Vec<String>>) -> Option<Vec<String>> {
    v.map(|mut v| {
        v.sort();
        v
    })
}

#[test]
fn registry_records_symbols_once() {
    let mut r = SymbolRegistry::new();
    assert_eq!(r.symbols("app.core"), None);
    r.register("app.core", "run");
    r.register("app.core", "stop");
    r.register("app.core", "run");
    r.register("app.util", "helper");
    assert_eq!(sorted(r.symbols("app.core")), Some(vec![s("run"), s("stop")]));
    assert_eq!(r.symbols("app.util"), Some(vec![s("helper")]));
    assert_eq!(r.symbols("other"), None);
}

#[test]
fn entering_a_namespace_imports_core() {
    let mut r = SymbolRegistry::new();
    r.register("clorus.core", "map");
    r.register("clorus.core", "filter");
    let mut ns = NamespaceState::new("user");
    assert!(ns.import_of("map").is_none());
    ns.set_namespace("app.main", &r);
    assert_eq!(ns.current_name(), "app.main");
    let b = ns.import_of("map").unwrap();
    assert_eq!((b.namespace.as_str(), b.symbol.as_str()), ("clorus.core", "map"));
    assert!(ns.import_of("reduce").is_none());
    ns.set_namespace("clorus.core", &r);
    assert!(ns.import_of("map").is_none());
}

#[test]
fn require_with_alias_refer_and_rename() {
    let r = SymbolRegistry::new();
    let mut ns = NamespaceState::new("user");
    let spec = RequireSpec {
        module: s("app.math"),
        alias: Some(s("m")),
        refer_all: false,
        refer: vec![s("square")],
        rename: vec![(s("cube"), s("pow3"))],
    };
    ns.process_require(&spec, &r);
    assert_eq!(ns.alias_target("m"), Some(s("app.math")));
    assert_eq!(ns.alias_target("x"), None);
    let b = ns.import_of("square").unwrap();
    assert_eq!((b.namespace.as_str(), b.symbol.as_str()), ("app.math", "square"));
    let c = ns.import_of("pow3").unwrap();
    assert_eq!((c.namespace.as_str(), c.symbol.as_str()), ("app.math", "cube"));
    assert!(ns.import_of("cube").is_none());
}

#[test]
fn require_refer_all_takes_registered_symbols() {
    let mut r = SymbolRegistry::new();
    r.register("app.math", "square");
    r.register("app.math", "cube");
    let mut ns = NamespaceState::new("user");
    let spec = RequireSpec { module: s("app.math"), alias: None, refer_all: true, refer: vec![], rename: vec![] };
    ns.process_require(&spec, &r);
    assert_eq!(ns.import_of("cube").unwrap().symbol, "cube");
    assert_eq!(ns.import_of("square").unwrap().namespace, "app.math");
    assert_eq!(ns.alias_target("app.math"), None);
}

#[test]
fn later_alias_replaces_earlier() {
    let mut ns = NamespaceState::new("user");
    ns.add_rust_alias("g", "coral-gfx");
    assert_eq!(ns.alias_target("g"), Some(s("rust.coral_gfx")));
    ns.add_rust_alias("g", "egui");
    assert_eq!(ns.alias_target("g"), Some(s("rust.egui")));
}

#[test]
fn module_files() {
    assert_eq!(module_file("demos.shapes-demo"), (false, vec![s("src"), s("demos"), s("shapes-demo.clrs")]));
    assert_eq!(module_file("clorus.string.utils"), (true, vec![s("clorus"), s("string"), s("utils.clr")]));
    assert_eq!(module_file("main"), (false, vec![s("src"), s("main.clrs")]));
    assert_eq!(module_file("clorus"), (true, vec![s("clorus.clr")]));
}

#[test]
fn eval_kinds_of_forms() {
    assert!(matches!(eval_kind_of(&FormKind::Def(s("x"))), EvalKind::Def(n) if n == "x"));
    assert!(matches!(eval_kind_of(&FormKind::Defn(s("f"))), EvalKind::Defn(n) if n == "f"));
    assert!(matches!(eval_kind_of(&FormKind::Defmacro(s("m"))), EvalKind::Defmacro(n) if n == "m"));
    assert!(matches!(eval_kind_of(&FormKind::Ns(s("a"))), EvalKind::Namespace));
    assert!(matches!(eval_kind_of(&FormKind::Require), EvalKind::Import));
    assert!(matches!(eval_kind_of(&FormKind::Use), EvalKind::Import));
    assert!(matches!(eval_kind_of(&FormKind::Declare), EvalKind::Value));
    assert!(matches!(eval_kind_of(&FormKind::Other), EvalKind::Value));
}

#[test]
fn modules_load_once_and_clip_modules_never() {
    let mut st = ReplState::new();
    assert_eq!(st.current_namespace(), "user");
    assert!(st.begin_module_load("app.util"));
    assert!(!st.begin_module_load("app.util"));
    st.register_clip_namespace("gui");
    assert!(!st.begin_module_load("gui.button"));
    assert!(st.begin_module_load("app.other"));
}

#[test]
fn stdlib_batch_registers_and_replays() {
    let forms = vec![
        FormKind::Ns(s("clorus.core")),
        FormKind::Defn(s("inc")),
        FormKind::Declare,
        FormKind::Def(s("pi")),
        FormKind::Other,
        FormKind::Ns(s("clorus.string")),
        FormKind::Defn(s("blank?")),
        FormKind::Defmacro(s("when")),
    ];
    let mut st = ReplState::new();
    let (count, replay) = st.load_stdlib_batch(&forms);
    assert_eq!(count, 3);
    assert_eq!(
        replay,
        vec![
            (1, s("clorus.core")),
            (3, s("clorus.core")),
            (4, s("clorus.core")),
            (6, s("clorus.string")),
            (7, s("clorus.string")),
        ]
    );
    assert!(st.stdlib_loaded);
    assert_eq!(st.current_namespace(), "user");
    assert_eq!(st.namespace.import_of("inc").unwrap().namespace, "clorus.core");
    assert!(st.namespace.import_of("blank?").is_none());
    assert_eq!(st.registry.symbols("clorus.string"), Some(vec![s("blank?")]));
    assert!(!st.begin_module_load("clorus.core"));
    let (again, none) = st.load_stdlib_batch(&forms);
    assert_eq!((again, none.len()), (0, 0));
}

#[test]
fn stdlib_symbols_only_leaves_library_unloaded() {
    let forms = vec![FormKind::Def(s("x")), FormKind::Defn(s("f"))];
    let mut st = ReplState::new();
    assert_eq!(st.load_stdlib_symbols_only(&Vec::new()), 0);
    assert_eq!(st.load_stdlib_symbols_only(&forms), 2);
    assert!(!st.stdlib_loaded);
    assert_eq!(sorted(st.registry.symbols("clorus.core")), Some(vec![s("f"), s("x")]));
    assert!(st.namespace.import_of("f").is_some());
}
