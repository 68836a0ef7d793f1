use clorus_runtime::refs::{clorus_commute, clorus_ensure, clorus_ref_deref, clorus_ref_set, commute_base, new_ref, set_versioned};
use clorus_runtime::transaction::{clorus_tx_begin, clorus_tx_commit, tx_has_commute, RefValue, TxContext};
use clorus_runtime::value::{Value, ValueTag};
use clorus_runtime::var::{
    clorus_var_get, clorus_var_is_dynamic, clorus_var_meta, clorus_var_name, clorus_var_pop_binding,
    clorus_var_push_binding, clorus_var_set, clorus_var_set_meta, Bindings, Var,
};
use clorus_runtime::map_ops::clorus_map_get;
use std::collections::HashMap;

fn long(v: &Value) -> i64 {
    match v {
        Value::Long(n) => *n,
        _ => panic!("not a long"),
    }
}

#[test]
fn test_ref_create_and_deref() {
    let mut refs: HashMap<usize, RefValue> = HashMap::new();
    refs.insert(1, new_ref(Value::Long(42)));
    let mut ctx = TxContext::new();
    assert_eq!(long(&clorus_ref_deref(&mut ctx, &refs, 1)), 42);
}

#[test]
fn test_ref_version() {
    let mut rv = new_ref(Value::Long(10));
    assert_eq!(rv.version, 0);
    let old = set_versioned(&mut rv, Value::Long(20));
    assert_eq!(long(&old), 10);
    assert_eq!(rv.version, 1);
    assert_eq!(long(&rv.value), 20);
}

#[test]
fn ref_set_and_commute_inside_a_transaction() {
    let mut refs: HashMap<usize, RefValue> = HashMap::new();
    refs.insert(1, new_ref(Value::Long(1)));
    refs.insert(2, new_ref(Value::Long(100)));
    let mut ctx = TxContext::new();
    assert!(matches!(clorus_ref_set(&mut ctx, 1, Value::Long(5)), Value::Nil));
    assert!(clorus_tx_begin(&mut ctx, 0));
    assert_eq!(long(&clorus_ref_set(&mut ctx, 1, Value::Long(5))), 5);
    assert_eq!(long(&clorus_ref_deref(&mut ctx, &refs, 1)), 5);
    let base = commute_base(&ctx, &refs, 2).unwrap();
    assert_eq!(long(&base), 100);
    let func = Value::Identity(ValueTag::Function, 1);
    let args = Value::Nil;
    assert_eq!(long(&clorus_commute(&mut ctx, 2, func, args, Value::Long(101))), 101);
    assert!(tx_has_commute(&ctx, 2));
    assert_eq!(long(&clorus_ref_deref(&mut ctx, &refs, 2)), 101);
    assert_eq!(long(&clorus_ensure(&mut ctx, &refs, 1)), 5);
    let mut replay = clorus_runtime::transaction::begin_replay(&ctx, &refs, 2);
    let call = replay.next_call().unwrap();
    assert_eq!(long(&call.args[0]), 100);
    replay.feed(Value::Long(long(&call.args[0]) + 1));
    let replayed = vec![replay];
    assert!(clorus_tx_commit(&mut ctx, &mut refs, &replayed));
    assert_eq!(long(&refs[&1].value), 5);
    assert_eq!(long(&refs[&2].value), 101);
}

#[test]
fn var_bindings_shadow_the_root() {
    let mut b = Bindings::new();
    let mut v = Var::new("*x*".to_string(), Value::Long(1));
    assert_eq!(long(&clorus_var_get(&b, 7, &v)), 1);
    clorus_var_push_binding(&mut b, 7, Value::Long(2));
    assert_eq!(long(&clorus_var_get(&b, 7, &v)), 2);
    clorus_var_set(&mut b, 7, &mut v, Value::Long(3));
    assert_eq!(long(&clorus_var_get(&b, 7, &v)), 3);
    clorus_var_pop_binding(&mut b, 7);
    assert_eq!(long(&clorus_var_get(&b, 7, &v)), 1);
    clorus_var_set(&mut b, 7, &mut v, Value::Long(9));
    assert_eq!(long(&clorus_var_get(&b, 7, &v)), 9);
    clorus_var_pop_binding(&mut b, 7);
    assert_eq!(long(&clorus_var_get(&b, 7, &v)), 9);
}

#[test]
fn var_metadata() {
    let mut v = Var::new("*x*".to_string(), Value::Nil);
    assert!(!clorus_var_is_dynamic(&v));
    clorus_var_set_meta(&mut v, &Value::Str("dynamic".to_string()), Value::Bool(true));
    assert!(clorus_var_is_dynamic(&v));
    let m = clorus_var_meta(&v);
    match clorus_map_get(&m, &Value::Keyword("name".to_string())) {
        Value::Symbol(s) => assert_eq!(s, "*x*"),
        _ => panic!("expected the name as a symbol"),
    }
    assert!(matches!(clorus_map_get(&m, &Value::Keyword("dynamic".to_string())), Value::Bool(true)));
    match clorus_var_name(&v) {
        Value::Str(s) => assert_eq!(s, "*x*"),
        _ => panic!("expected a string"),
    }
}
