use clorus_runtime::arithmetic::{clorus_add, clorus_bit_and, clorus_mod};
use clorus_runtime::value::Value;

fn as_long(v: &Value) -> Option<i64> {
    match v {
        Value::Long(n) => Some(*n),
        _ => None,
    }
}

#[test]
fn test_long_addition() {
    let a = Value::Long(42);
    let b = Value::Long(10);
    let result = clorus_add(&a, &b);
    assert_eq!(as_long(&result), Some(52));
}

#[test]
fn test_bitwise_and() {
    let a = Value::Long(0b1100);
    let b = Value::Long(0b1010);
    let result = clorus_bit_and(&a, &b);
    assert_eq!(as_long(&result), Some(0b1000));
}

#[test]
fn mod_is_floored() {
    assert_eq!(as_long(&clorus_mod(&Value::Long(-7), &Value::Long(3))), Some(2));
    assert_eq!(as_long(&clorus_mod(&Value::Long(7), &Value::Long(-3))), Some(-2));
    assert_eq!(as_long(&clorus_mod(&Value::Long(9), &Value::Long(3))), Some(0));
    assert!(matches!(clorus_mod(&Value::Long(9), &Value::Long(0)), Value::Nil));
}
