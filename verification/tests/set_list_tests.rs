use clorus_runtime::list::PersistentList;
use clorus_runtime::map_ops::{
    clorus_list_count, clorus_list_cons, clorus_list_empty, clorus_list_first, clorus_set_conj,
    clorus_set_contains, clorus_set_count, clorus_set_disj, clorus_set_empty,
};
use clorus_runtime::value::Value;

fn long(v: &Value) -> i64 {
    match v {
        Value::Long(n) => *n,
        _ => panic!("not a long"),
    }
}

fn truthy(v: &Value) -> bool {
    matches!(v, Value::Bool(true))
}

#[test]
fn test_empty_set() {
    let s = clorus_set_empty();
    assert!(matches!(s, Value::HashSet(_)));
    assert_eq!(clorus_set_count(&s), 0);
}

#[test]
fn test_set_conj() {
    let s = clorus_set_conj(&clorus_set_empty(), &Value::Long(42));
    let s = clorus_set_conj(&s, &Value::Long(43));
    assert_eq!(clorus_set_count(&s), 2);
    assert!(truthy(&clorus_set_contains(&s, &Value::Long(42))));
    assert!(truthy(&clorus_set_contains(&s, &Value::Long(43))));
}

#[test]
fn test_set_contains() {
    let s = clorus_set_empty();
    assert!(!truthy(&clorus_set_contains(&s, &Value::Long(42))));
    let s2 = clorus_set_conj(&s, &Value::Long(42));
    assert!(truthy(&clorus_set_contains(&s2, &Value::Long(42))));
}

#[test]
fn test_conj_does_not_mutate_original() {
    let s1 = clorus_set_empty();
    let s2 = clorus_set_conj(&s1, &Value::Long(1));
    assert_eq!(clorus_set_count(&s1), 0);
    assert_eq!(clorus_set_count(&s2), 1);
    assert!(!truthy(&clorus_set_contains(&s1, &Value::Long(1))));
    assert!(truthy(&clorus_set_contains(&s2, &Value::Long(1))));
}

#[test]
fn test_disj_does_not_mutate_original() {
    let s1 = clorus_set_conj(&clorus_set_empty(), &Value::Long(1));
    let s2 = clorus_set_conj(&s1, &Value::Long(2));
    let s3 = clorus_set_disj(&s2, &Value::Long(1));
    assert_eq!(clorus_set_count(&s2), 2);
    assert!(truthy(&clorus_set_contains(&s2, &Value::Long(1))));
    assert_eq!(clorus_set_count(&s3), 1);
    assert!(!truthy(&clorus_set_contains(&s3, &Value::Long(1))));
    assert!(truthy(&clorus_set_contains(&s3, &Value::Long(2))));
}

#[test]
fn test_empty_list() {
    let l = PersistentList::empty();
    assert!(l.is_empty());
    assert_eq!(l.count(), 0);
    assert!(l.first().is_none());
}

#[test]
fn test_cons() {
    let l = PersistentList::empty();
    let l1 = l.cons(Value::Long(1));
    assert!(!l1.is_empty());
    assert_eq!(l1.count(), 1);
    let l2 = l1.cons(Value::Long(2));
    assert_eq!(l2.count(), 2);
    assert!(l.is_empty());
}

#[test]
fn test_first_rest() {
    let l = PersistentList::empty().cons(Value::Long(3)).cons(Value::Long(2)).cons(Value::Long(1));
    assert_eq!(long(l.first().unwrap()), 1);
    let rest = l.rest();
    assert_eq!(long(rest.first().unwrap()), 2);
    let rest2 = rest.rest();
    assert_eq!(long(rest2.first().unwrap()), 3);
    assert!(rest2.rest().is_empty());
}

#[test]
fn test_structural_sharing() {
    let list1 = PersistentList::empty().cons(Value::Long(1)).cons(Value::Long(2));
    let list2 = list1.cons(Value::Long(3));
    let tail = list2.head.as_ref().unwrap().tail.as_ref().unwrap();
    let head1 = list1.head.as_ref().unwrap();
    assert!(std::rc::Rc::ptr_eq(tail, head1));
    assert!(std::rc::Rc::strong_count(head1) >= 1);
}

#[test]
fn test_ffi_functions() {
    let empty = clorus_list_empty();
    assert_eq!(clorus_list_count(&empty), 0);
    let l1 = clorus_list_cons(&empty, Value::Long(42));
    assert_eq!(clorus_list_count(&l1), 1);
    assert_eq!(long(&clorus_list_first(&l1)), 42);
}
