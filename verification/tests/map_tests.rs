use clorus_runtime::map_ops::{
    clorus_map_assoc, clorus_map_assoc_in, clorus_map_count, clorus_map_dissoc, clorus_map_empty,
    clorus_map_get, clorus_map_get_in, clorus_map_get_in_or, clorus_map_keys, clorus_map_merge,
    clorus_map_vals,
};
use clorus_runtime::value::Value;
use std::rc::Rc;

fn text(v: &Value) -> String {
    match v {
        Value::Str(s) => s.clone(),
        _ => panic!("not a string"),
    }
}

fn long(v: &Value) -> i64 {
    match v {
        Value::Long(n) => *n,
        _ => panic!("not a long"),
    }
}

#[test]
fn test_empty_map() {
    let m = clorus_map_empty();
    assert!(matches!(m, Value::HashMap(_)));
    assert_eq!(clorus_map_count(&m), 0);
}

#[test]
fn test_map_assoc_get() {
    let key = Value::Long(42);
    let m = clorus_map_assoc(&clorus_map_empty(), &key, Value::Str("hello".to_string()));
    assert_eq!(text(&clorus_map_get(&m, &key)), "hello");
}

#[test]
fn test_assoc_does_not_mutate_original() {
    let key = Value::Long(1);
    let map1 = clorus_map_assoc(&clorus_map_empty(), &key, Value::Str("a".to_string()));
    let map2 = clorus_map_assoc(&map1, &key, Value::Str("b".to_string()));
    assert_eq!(text(&clorus_map_get(&map1, &key)), "a");
    assert_eq!(text(&clorus_map_get(&map2, &key)), "b");
    assert_eq!(clorus_map_count(&map1), 1);
    assert_eq!(clorus_map_count(&map2), 1);
}

#[test]
fn test_assoc_many_keys_and_lookup() {
    let mut m = clorus_map_empty();
    for i in 0..200i64 {
        m = clorus_map_assoc(&m, &Value::Long(i), Value::Long(i * 10));
    }
    assert_eq!(clorus_map_count(&m), 200);
    for i in 0..200i64 {
        assert_eq!(long(&clorus_map_get(&m, &Value::Long(i))), i * 10);
    }
}

#[test]
fn test_update_existing_key_keeps_count() {
    let key = Value::Str("k".to_string());
    let map1 = clorus_map_assoc(&clorus_map_empty(), &key, Value::Long(1));
    let map2 = clorus_map_assoc(&map1, &key, Value::Long(2));
    assert_eq!(clorus_map_count(&map2), 1);
    assert_eq!(long(&clorus_map_get(&map2, &key)), 2);
}

#[test]
fn dissoc_removes_only_its_key() {
    let m = clorus_map_assoc(&clorus_map_empty(), &Value::Long(1), Value::Long(10));
    let m = clorus_map_assoc(&m, &Value::Long(2), Value::Long(20));
    let d = clorus_map_dissoc(&m, &Value::Long(1));
    assert_eq!(clorus_map_count(&d), 1);
    assert!(matches!(clorus_map_get(&d, &Value::Long(1)), Value::Nil));
    assert_eq!(long(&clorus_map_get(&d, &Value::Long(2))), 20);
    assert_eq!(clorus_map_count(&m), 2);
}

#[test]
fn keys_and_vals_line_up() {
    let mut m = clorus_map_empty();
    for i in 0..20i64 {
        m = clorus_map_assoc(&m, &Value::Long(i), Value::Long(i * 3));
    }
    let (ks, vs) = match (clorus_map_keys(&m), clorus_map_vals(&m)) {
        (Value::Vector(ks), Value::Vector(vs)) => (ks, vs),
        _ => panic!("expected vectors"),
    };
    assert_eq!(ks.len(), 20);
    for (k, v) in ks.iter().zip(vs.iter()) {
        assert_eq!(long(v), long(k) * 3);
    }
}

#[test]
fn merge_prefers_later_maps() {
    let a = clorus_map_assoc(&clorus_map_empty(), &Value::Long(1), Value::Long(1));
    let a = clorus_map_assoc(&a, &Value::Long(2), Value::Long(2));
    let b = clorus_map_assoc(&clorus_map_empty(), &Value::Long(2), Value::Long(20));
    let merged = clorus_map_merge(&Value::Vector(Rc::new(vec![a, Value::Nil, b])));
    assert_eq!(clorus_map_count(&merged), 2);
    assert_eq!(long(&clorus_map_get(&merged, &Value::Long(1))), 1);
    assert_eq!(long(&clorus_map_get(&merged, &Value::Long(2))), 20);
}

#[test]
fn get_in_and_assoc_in_follow_paths() {
    let path = Value::Vector(Rc::new(vec![
        Value::Keyword("a".to_string()),
        Value::Keyword("b".to_string()),
    ]));
    let m = clorus_map_assoc_in(&clorus_map_empty(), &path, Value::Long(7));
    assert_eq!(long(&clorus_map_get_in(&m, &path)), 7);
    let missing = Value::Vector(Rc::new(vec![Value::Keyword("x".to_string())]));
    assert!(matches!(clorus_map_get_in(&m, &missing), Value::Nil));
    assert_eq!(long(&clorus_map_get_in_or(&m, &missing, &Value::Long(-1))), -1);
    assert!(matches!(clorus_map_get_in(&m, &Value::Nil), Value::HashMap(_)));
}

#[test]
fn identity_values_are_keys() {
    let atom = Value::Identity(clorus_runtime::value::ValueTag::Atom, 4);
    let other = Value::Identity(clorus_runtime::value::ValueTag::Ref, 4);
    let m = clorus_map_assoc(&clorus_map_empty(), &atom, Value::Long(1));
    assert!(matches!(clorus_map_get(&m, &atom), Value::Long(1)));
    assert!(matches!(clorus_map_get(&m, &other), Value::Nil));
    assert_eq!(clorus_runtime::map_ops::clorus_map_count(&m), 1);
}
