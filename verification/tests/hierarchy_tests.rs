use clorus_runtime::hierarchy::{
    clorus_ancestors, clorus_derive, clorus_descendants, clorus_isa, clorus_isa_i32, clorus_parents,
    clorus_underive, Hierarchy,
};
use clorus_runtime::map_ops::{clorus_set_contains, clorus_set_count};
use clorus_runtime::value::Value;

fn kw(s: &str) -> Value {
    Value::Keyword(s.to_string())
}

fn has(set: &Value, v: &Value) -> bool {
    matches!(clorus_set_contains(set, v), Value::Bool(true))
}

#[test]
fn derive_builds_ancestry() {
    let mut h = Hierarchy::new();
    clorus_derive(&mut h, &kw("square"), &kw("rect"));
    clorus_derive(&mut h, &kw("rect"), &kw("shape"));
    assert!(clorus_isa(&h, &kw("square"), &kw("shape")));
    assert!(clorus_isa(&h, &kw("square"), &kw("square")));
    assert!(!clorus_isa(&h, &kw("shape"), &kw("square")));
    assert_eq!(clorus_isa_i32(&h, &kw("rect"), &kw("shape")), 1);

    let anc = clorus_ancestors(&h, &kw("square"));
    assert_eq!(clorus_set_count(&anc), 2);
    assert!(has(&anc, &kw("rect")) && has(&anc, &kw("shape")));

    let desc = clorus_descendants(&h, &kw("shape"));
    assert_eq!(clorus_set_count(&desc), 2);
    assert!(has(&desc, &kw("square")) && has(&desc, &kw("rect")));

    let parents = clorus_parents(&h, &kw("square"));
    assert_eq!(clorus_set_count(&parents), 1);
    assert!(has(&parents, &kw("rect")));
}

#[test]
fn derive_refuses_cycles() {
    let mut h = Hierarchy::new();
    clorus_derive(&mut h, &kw("a"), &kw("b"));
    clorus_derive(&mut h, &kw("b"), &kw("a"));
    assert!(clorus_isa(&h, &kw("a"), &kw("b")));
    assert!(!clorus_isa(&h, &kw("b"), &kw("a")));
    clorus_derive(&mut h, &kw("a"), &kw("a"));
    assert_eq!(clorus_set_count(&clorus_ancestors(&h, &kw("a"))), 1);
}

#[test]
fn underive_removes_the_edge() {
    let mut h = Hierarchy::new();
    clorus_derive(&mut h, &kw("a"), &kw("b"));
    clorus_underive(&mut h, &kw("a"), &kw("b"));
    assert!(!clorus_isa(&h, &kw("a"), &kw("b")));
    assert_eq!(clorus_set_count(&clorus_parents(&h, &kw("a"))), 0);
}

#[test]
fn symbols_read_back_as_strings_and_collections_have_no_parents() {
    let mut h = Hierarchy::new();
    clorus_derive(&mut h, &kw("x"), &Value::Symbol("Base".to_string()));
    let parents = clorus_parents(&h, &kw("x"));
    assert!(has(&parents, &Value::Str("Base".to_string())));
    let v = Value::Vector(std::rc::Rc::new(vec![]));
    assert!(matches!(clorus_parents(&h, &v), Value::Nil));
    assert!(clorus_isa(&h, &v, &Value::Vector(std::rc::Rc::new(vec![]))));
}
