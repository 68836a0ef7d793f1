use clorus_runtime::agent::AgentState;
use clorus_runtime::atom::{clorus_deref, AtomTable};
use clorus_runtime::refs::new_ref;
use clorus_runtime::transaction::{RefValue, TxContext};
use clorus_runtime::value::{Value, ValueTag};
use std::collections::HashMap;

fn long(v: &Value) -> i64 {
    match v {
        Value::Long(n) => *n,
        _ => panic!("not a long"),
    }
}

fn is_nil(v: &Value) -> bool {
    matches!(v, Value::Nil)
}

#[test]
fn test_atom_create_and_deref() {
    let mut atoms = AtomTable::new();
    let atom = atoms.clorus_atom(Value::Long(42));
    assert!(matches!(atom, Value::Identity(ValueTag::Atom, _)));
    assert_eq!(long(&atoms.atom_deref(&atom)), 42);
}

#[test]
fn test_atom_reset() {
    let mut atoms = AtomTable::new();
    let atom = atoms.clorus_atom(Value::Long(10));
    let result = atoms.clorus_reset(&atom, Value::Long(20));
    assert_eq!(long(&result), 20);
    assert_eq!(long(&atoms.atom_deref(&atom)), 20);
}

#[test]
fn reset_of_a_non_atom_is_nil() {
    let mut atoms = AtomTable::new();
    let atom = atoms.clorus_atom(Value::Long(1));
    assert!(is_nil(&atoms.clorus_reset(&Value::Long(3), Value::Long(2))));
    assert_eq!(long(&atoms.atom_deref(&atom)), 1);
    assert!(is_nil(&atoms.atom_deref(&Value::Identity(ValueTag::Atom, 7))));
}

#[test]
fn atoms_are_independent() {
    let mut atoms = AtomTable::new();
    let a = atoms.clorus_atom(Value::Long(1));
    let b = atoms.clorus_atom(Value::Long(2));
    atoms.clorus_reset(&a, Value::Long(5));
    assert_eq!(long(&atoms.atom_deref(&a)), 5);
    assert_eq!(long(&atoms.atom_deref(&b)), 2);
}

#[test]
fn test_ref_deref_non_ref() {
    let atoms = AtomTable::new();
    let mut ctx = TxContext::new();
    let refs: HashMap<usize, RefValue> = HashMap::new();
    let agents: Vec<AgentState> = Vec::new();
    let result = clorus_deref(&atoms, &mut ctx, &refs, &agents, &Value::Long(99));
    assert!(is_nil(&result));
}

#[test]
fn deref_of_each_reference_kind() {
    let mut atoms = AtomTable::new();
    let atom = atoms.clorus_atom(Value::Long(1));
    let mut ctx = TxContext::new();
    let mut refs: HashMap<usize, RefValue> = HashMap::new();
    refs.insert(4, new_ref(Value::Long(2)));
    let agents = vec![AgentState::new(Value::Long(3), 9)];
    assert_eq!(long(&clorus_deref(&atoms, &mut ctx, &refs, &agents, &atom)), 1);
    assert_eq!(long(&clorus_deref(&atoms, &mut ctx, &refs, &agents, &Value::Identity(ValueTag::Ref, 4))), 2);
    assert_eq!(long(&clorus_deref(&atoms, &mut ctx, &refs, &agents, &Value::Identity(ValueTag::Agent, 9))), 3);
    assert!(is_nil(&clorus_deref(&atoms, &mut ctx, &refs, &agents, &Value::Identity(ValueTag::Agent, 1))));
    assert!(is_nil(&clorus_deref(&atoms, &mut ctx, &refs, &agents, &Value::Identity(ValueTag::Ref, 5))));
}
