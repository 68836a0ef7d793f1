use clorus_runtime::equality::equals;
use clorus_runtime::map_ops::{clorus_map_assoc, clorus_map_empty};
use clorus_runtime::printer::{clorus_pr_str, clorus_str, value_to_pr_string, value_to_rust_string};
use clorus_runtime::value::{bool_to_i32, is_truthy, Header, Value, ValueTag};
use clorus_runtime::value_hash::clorus_hash;
use std::rc::Rc;

#[test]
fn test_long_value() {
    let v = Value::Long(42);
    let h = Header::new(v.tag());
    assert_eq!(h.tag(), ValueTag::Long);
    assert!(matches!(v, Value::Long(42)));
    assert_eq!(h.refcount(), 1);
}

#[test]
fn test_refcounting() {
    let mut h = Header::new(ValueTag::Long);
    assert_eq!(h.refcount(), 1);
    h.retain();
    assert_eq!(h.refcount(), 2);
    h.retain();
    assert_eq!(h.refcount(), 3);
    assert!(!h.release());
    assert_eq!(h.refcount(), 2);
    assert!(!h.release());
    assert_eq!(h.refcount(), 1);
    assert!(h.release());
}

#[test]
fn test_boolean() {
    let t = Value::Bool(true);
    let f = Value::Bool(false);
    assert_eq!(t.tag(), ValueTag::Bool);
    assert_eq!(f.tag(), ValueTag::Bool);
    assert_eq!(is_truthy(&t), 1);
    assert_eq!(is_truthy(&f), 0);
    assert_eq!(bool_to_i32(true), 1);
}

#[test]
fn test_string_value() {
    let v = Value::Str("Hello, Clorus!".to_string());
    let h = Header::new(v.tag());
    assert_eq!(h.tag(), ValueTag::String);
    assert_eq!(value_to_rust_string(&v), "Hello, Clorus!");
    assert_eq!(h.refcount(), 1);
}

#[test]
fn test_string_refcounting() {
    let mut h = Header::new(Value::Str("Refcounted string".to_string()).tag());
    assert_eq!(h.refcount(), 1);
    h.retain();
    assert_eq!(h.refcount(), 2);
    h.release();
    assert_eq!(h.refcount(), 1);
}

#[test]
fn test_vector_structural_equals_and_hash() {
    let v1 = Value::Vector(Rc::new(vec![Value::Long(1), Value::Long(2)]));
    let v2 = Value::Vector(Rc::new(vec![Value::Long(1), Value::Long(2)]));
    assert!(equals(&v1, &v2));
    assert_eq!(clorus_hash(&v1), clorus_hash(&v2));
}

#[test]
fn test_map_structural_equals_and_hash() {
    let m1 = clorus_map_assoc(&clorus_map_empty(), &Value::Str("a".to_string()), Value::Long(1));
    let m1 = clorus_map_assoc(&m1, &Value::Str("b".to_string()), Value::Long(2));
    let m2 = clorus_map_assoc(&clorus_map_empty(), &Value::Str("b".to_string()), Value::Long(2));
    let m2 = clorus_map_assoc(&m2, &Value::Str("a".to_string()), Value::Long(1));
    assert!(equals(&m1, &m2));
    assert_eq!(clorus_hash(&m1), clorus_hash(&m2));
}

#[test]
fn different_values_are_not_equal() {
    let v1 = Value::Vector(Rc::new(vec![Value::Long(1)]));
    let v2 = Value::Vector(Rc::new(vec![Value::Long(2)]));
    assert!(!equals(&v1, &v2));
    assert!(!equals(&Value::Long(1), &Value::Str("1".to_string())));
}

#[test]
fn printing_is_readable_and_sorted() {
    let m = clorus_map_assoc(&clorus_map_empty(), &Value::Keyword("b".to_string()), Value::Long(2));
    let m = clorus_map_assoc(&m, &Value::Keyword("a".to_string()), Value::Str("x\"y".to_string()));
    assert_eq!(value_to_pr_string(&m), "{:a \"x\\\"y\" :b 2}");
    assert_eq!(value_to_rust_string(&m), "{:a x\"y :b 2}");
    let v = Value::Vector(Rc::new(vec![Value::Nil, Value::Long(-3), Value::Bool(true)]));
    assert_eq!(value_to_pr_string(&v), "[nil -3 true]");
    assert_eq!(value_to_rust_string(&v), "[ -3 true]");
    match clorus_pr_str(&Value::Str("a\nb".to_string())) {
        Value::Str(s) => assert_eq!(s, "\"a\\nb\""),
        _ => panic!("expected a string"),
    }
}

#[test]
fn test_str_concatenation() {
    let args = Value::Vector(Rc::new(vec![
        Value::Str("hello".to_string()),
        Value::Str(" ".to_string()),
        Value::Str("world".to_string()),
    ]));
    match clorus_str(&args) {
        Value::Str(s) => assert_eq!(s, "hello world"),
        _ => panic!("expected a string"),
    }
    let mixed = Value::Vector(Rc::new(vec![
        Value::Str("count: ".to_string()),
        Value::Long(42),
        Value::Nil,
    ]));
    match clorus_str(&mixed) {
        Value::Str(s) => assert_eq!(s, "count: 42"),
        _ => panic!("expected a string"),
    }
}

#[test]
fn equality_is_symmetric_and_transitive_on_nested_values() {
    let inner = |n: i64| clorus_map_assoc(&clorus_map_empty(), &Value::Keyword("k".to_string()), Value::Long(n));
    let a = Value::Vector(Rc::new(vec![inner(1), Value::Str("x".to_string())]));
    let b = Value::Vector(Rc::new(vec![inner(1), Value::Str("x".to_string())]));
    let c = Value::Vector(Rc::new(vec![inner(1), Value::Str("x".to_string())]));
    let d = Value::Vector(Rc::new(vec![inner(2), Value::Str("x".to_string())]));
    assert!(equals(&a, &b) && equals(&b, &a));
    assert!(equals(&b, &c) && equals(&a, &c));
    assert_eq!(equals(&a, &d), equals(&d, &a));
    assert!(!equals(&a, &d));
}

#[test]
fn equal_nested_maps_hash_alike() {
    let m1 = clorus_map_assoc(&clorus_map_empty(), &Value::Long(1), Value::Vector(Rc::new(vec![Value::Long(7)])));
    let m1 = clorus_map_assoc(&m1, &Value::Long(2), Value::Nil);
    let m2 = clorus_map_assoc(&clorus_map_empty(), &Value::Long(2), Value::Nil);
    let m2 = clorus_map_assoc(&m2, &Value::Long(1), Value::Vector(Rc::new(vec![Value::Long(7)])));
    assert!(equals(&m1, &m2));
    assert_eq!(clorus_hash(&m1), clorus_hash(&m2));
}

#[test]
fn header_keeps_its_tag_through_retains_and_releases() {
    let mut h = Header::new(ValueTag::Vector);
    h.retain();
    h.retain();
    assert!(!h.release());
    assert_eq!(h.refcount(), 2);
    assert!(!h.release());
    assert!(h.release());
    assert_eq!(h.refcount(), 0);
    assert_eq!(h.tag(), ValueTag::Vector);
}

#[test]
fn equal_maps_print_alike_whatever_the_insertion_order() {
    let ka = Value::Keyword("a".to_string());
    let kb = Value::Keyword("b".to_string());
    let m1 = clorus_map_assoc(&clorus_map_assoc(&clorus_map_empty(), &kb, Value::Long(2)), &ka, Value::Long(1));
    let m2 = clorus_map_assoc(&clorus_map_assoc(&clorus_map_empty(), &ka, Value::Long(1)), &kb, Value::Long(2));
    assert_eq!(value_to_pr_string(&m1), "{:a 1 :b 2}");
    assert_eq!(value_to_pr_string(&m2), "{:a 1 :b 2}");
}
