use clorus_runtime::collections::{
    clorus_concat, clorus_count, clorus_dedupe, clorus_distinct, clorus_drop, clorus_first, clorus_flatten, clorus_get,
    clorus_interleave, clorus_interpose, clorus_last, clorus_nth, clorus_take,
};
use clorus_runtime::list::PersistentList;
use clorus_runtime::map_ops::{clorus_map_assoc, clorus_map_empty};
use clorus_runtime::value::Value;
use std::rc::Rc;

fn longs(xs: &[i64]) -> Value {
    Value::Vector(Rc::new(xs.iter().map(|x| Value::Long(*x)).collect()))
}

fn as_long(v: &Value) -> i64 {
    match v {
        Value::Long(n) => *n,
        _ => panic!("not a long"),
    }
}

fn vec_longs(v: &Value) -> Vec<i64> {
    match v {
        Value::Vector(xs) => xs.iter().map(as_long).collect(),
        _ => panic!("not a vector"),
    }
}

#[test]
fn collections_test_nth_vector() {
    let v = longs(&[1, 2, 3]);
    assert_eq!(as_long(&clorus_nth(&v, 1)), 2);
}

#[test]
fn mod_test_nth_vector() {
    let v = longs(&[1, 2, 3]);
    assert_eq!(as_long(&clorus_nth(&v, 1)), 2);
    assert!(matches!(clorus_nth(&v, 3), Value::Nil));
    assert!(matches!(clorus_nth(&v, -1), Value::Nil));
}

#[test]
fn collections_test_first_vector() {
    assert_eq!(as_long(&clorus_first(&longs(&[42]))), 42);
}

#[test]
fn mod_test_first_vector() {
    assert_eq!(as_long(&clorus_first(&longs(&[42]))), 42);
    assert!(matches!(clorus_first(&longs(&[])), Value::Nil));
}

#[test]
fn collections_test_last_vector() {
    assert_eq!(as_long(&clorus_last(&longs(&[1, 2, 99]))), 99);
}

#[test]
fn mod_test_last_vector() {
    assert_eq!(as_long(&clorus_last(&longs(&[1, 2, 99]))), 99);
}

#[test]
fn collections_test_count_vector() {
    assert_eq!(clorus_count(&longs(&[])), 0);
    assert_eq!(clorus_count(&longs(&[1])), 1);
    assert_eq!(clorus_count(&longs(&[1, 2])), 2);
}

#[test]
fn mod_test_count_vector() {
    assert_eq!(clorus_count(&longs(&[])), 0);
    assert_eq!(clorus_count(&longs(&[1])), 1);
    assert_eq!(clorus_count(&longs(&[1, 2])), 2);
    assert_eq!(clorus_count(&Value::Str("héllo".to_string())), 6);
}

#[test]
fn collections_test_get_map() {
    let key = Value::Keyword("name".to_string());
    let m = clorus_map_assoc(&clorus_map_empty(), &key, Value::Str("Alice".to_string()));
    match clorus_get(&m, &key) {
        Value::Str(s) => assert_eq!(s, "Alice"),
        _ => panic!("expected a string"),
    }
}

#[test]
fn mod_test_get_map() {
    let key = Value::Keyword("name".to_string());
    let m = clorus_map_assoc(&clorus_map_empty(), &key, Value::Str("Alice".to_string()));
    assert!(matches!(clorus_get(&m, &key), Value::Str(_)));
    assert!(matches!(clorus_get(&m, &Value::Keyword("age".to_string())), Value::Nil));
}

#[test]
fn take_and_drop_follow_the_count() {
    let v = longs(&[1, 2, 3, 4]);
    assert_eq!(vec_longs(&clorus_take(&v, 2)), vec![1, 2]);
    assert_eq!(vec_longs(&clorus_take(&v, 10)), vec![1, 2, 3, 4]);
    assert_eq!(vec_longs(&clorus_take(&v, 0)), Vec::<i64>::new());
    assert_eq!(vec_longs(&clorus_drop(&v, 3)), vec![4]);
    assert_eq!(vec_longs(&clorus_drop(&v, 0)), vec![1, 2, 3, 4]);
    let l = PersistentList::empty().cons(Value::Long(2)).cons(Value::Long(1));
    assert_eq!(vec_longs(&clorus_take(&Value::List(l), 1)), vec![1]);
}

#[test]
fn concat_joins_vectors_and_lists() {
    let l = PersistentList::empty().cons(Value::Long(4)).cons(Value::Long(3));
    let colls = Value::Vector(Rc::new(vec![longs(&[1, 2]), Value::List(l), Value::Long(9)]));
    assert_eq!(vec_longs(&clorus_concat(&colls)), vec![1, 2, 3, 4]);
}

#[test]
fn interpose_puts_the_separator_between() {
    let r = clorus_interpose(&longs(&[1, 2, 3]), &Value::Long(0));
    assert_eq!(vec_longs(&r), vec![1, 0, 2, 0, 3]);
    assert_eq!(vec_longs(&clorus_interpose(&longs(&[]), &Value::Long(0))), Vec::<i64>::new());
}

#[test]
fn distinct_and_dedupe() {
    let v = longs(&[1, 1, 2, 1, 3, 3]);
    assert_eq!(vec_longs(&clorus_distinct(&v)), vec![1, 2, 3]);
    assert_eq!(vec_longs(&clorus_dedupe(&v)), vec![1, 2, 1, 3]);
}

#[test]
fn interleave_takes_turns_and_stops_at_a_gap() {
    let colls = Value::Vector(Rc::new(vec![longs(&[1, 2, 3]), longs(&[10, 20])]));
    assert_eq!(vec_longs(&clorus_interleave(&colls)), vec![1, 10, 2, 20, 3]);
    let with_nil = Value::Vector(Rc::new(vec![
        Value::Vector(Rc::new(vec![Value::Long(1), Value::Nil, Value::Long(3)])),
    ]));
    assert_eq!(vec_longs(&clorus_interleave(&with_nil)), vec![1]);
}

#[test]
fn flatten_unnests_vectors_and_lists() {
    let l = PersistentList::empty().cons(longs(&[3, 4])).cons(Value::Long(2));
    let v = Value::Vector(Rc::new(vec![Value::Long(1), Value::List(l), longs(&[])]));
    assert_eq!(vec_longs(&clorus_flatten(&v)), vec![1, 2, 3, 4]);
    assert_eq!(vec_longs(&clorus_flatten(&Value::Long(5))), vec![5]);
}

#[test]
fn list_nth_walks_the_list() {
    let l = PersistentList::empty().cons(Value::Long(30)).cons(Value::Long(20)).cons(Value::Long(10));
    assert!(matches!(clorus_runtime::collections::clorus_list_nth(&l, 0), Value::Long(10)));
    assert!(matches!(clorus_runtime::collections::clorus_list_nth(&l, 2), Value::Long(30)));
    assert!(matches!(clorus_runtime::collections::clorus_list_nth(&l, 3), Value::Nil));
    assert!(matches!(clorus_runtime::collections::clorus_list_nth(&l, -1), Value::Nil));
}
