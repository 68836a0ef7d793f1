use clorus_runtime::agent::AgentState;
use clorus_runtime::transducer::{clorus_deref_reduced, clorus_ensure_reduced, clorus_is_reduced, clorus_reduced};
use clorus_runtime::value::{Value, ValueTag};

fn long(v: &Value) -> i64 {
    match v {
        Value::Long(n) => *n,
        _ => panic!("not a long"),
    }
}

fn inc(v: &Value) -> Value {
    Value::Long(long(v) + 1)
}

fn run_pending(a: &mut AgentState) {
    while let Some(action) = a.next_action() {
        let result = inc(&a.deref());
        a.complete_action(&action, result);
    }
}

#[test]
fn test_agent_create_and_deref() {
    let a = AgentState::new(Value::Long(42), 0);
    assert_eq!(long(&a.deref()), 42);
}

#[test]
fn test_agent_error_none() {
    let a = AgentState::new(Value::Long(5), 1);
    assert!(a.get_error().is_none());
}

#[test]
fn test_agent_await() {
    let mut a = AgentState::new(Value::Long(1), 2);
    let f = Value::Identity(ValueTag::Function, 1);
    assert!(a.send_action(f.copy(), vec![]));
    assert!(a.send_action(f.copy(), vec![]));
    assert!(a.send_action(f, vec![]));
    assert!(!a.is_idle());
    run_pending(&mut a);
    assert!(a.is_idle());
    assert_eq!(long(&a.deref()), 4);
}

#[test]
fn agent_stops_on_too_many_arguments() {
    let mut a = AgentState::new(Value::Long(1), 3);
    let f = Value::Identity(ValueTag::Function, 1);
    assert!(a.send_action(f.copy(), vec![Value::Nil, Value::Nil, Value::Nil]));
    run_pending(&mut a);
    assert_eq!(long(&a.deref()), 1);
    match a.get_error() {
        Some(Value::Str(s)) => assert_eq!(s, "Function call failed: too many arguments"),
        _ => panic!("expected the arity error"),
    }
    assert!(!a.send_action(f, vec![]));
    a.restart(Value::Long(7));
    assert!(a.get_error().is_none());
    assert_eq!(long(&a.deref()), 7);
}

#[test]
fn reduced_values() {
    let r = clorus_reduced(Value::Long(3));
    assert_eq!(long(&clorus_deref_reduced(&r)), 3);
    assert!(!clorus_is_reduced(&r));
    assert!(!clorus_is_reduced(&Value::Long(3)));
    let wrapped = clorus_ensure_reduced(Value::Long(4));
    assert_eq!(long(&clorus_deref_reduced(&wrapped)), 4);
}
