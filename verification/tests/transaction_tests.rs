use clorus_runtime::transaction::{
    begin_replay, CommuteReplay,
    clorus_tx_abort, clorus_tx_active, clorus_tx_begin, clorus_tx_commit, tx_get_commute_value,
    tx_get_write, tx_has_commute, tx_has_write, tx_record_read, tx_stage_commute, tx_stage_write,
    RefValue, TxContext,
};
use clorus_runtime::value::Value;
use std::collections::HashMap;
use std::rc::Rc;

fn long(v: &Value) -> i64 {
    match v {
        Value::Long(n) => *n,
        _ => panic!("not a long"),
    }
}

#[test]
fn test_tx_begin_commit() {
    let mut ctx = TxContext::new();
    let mut refs: HashMap<usize, RefValue> = HashMap::new();
    let replayed: Vec<CommuteReplay> = Vec::new();
    assert!(!clorus_tx_active(&ctx));
    assert!(clorus_tx_begin(&mut ctx, 0));
    assert!(clorus_tx_active(&ctx));
    assert!(clorus_tx_commit(&mut ctx, &mut refs, &replayed));
    assert!(!clorus_tx_active(&ctx));
}

#[test]
fn test_nested_transactions() {
    let mut ctx = TxContext::new();
    let mut refs: HashMap<usize, RefValue> = HashMap::new();
    let replayed: Vec<CommuteReplay> = Vec::new();
    assert!(clorus_tx_begin(&mut ctx, 0));
    assert!(!clorus_tx_begin(&mut ctx, 1));
    assert!(clorus_tx_active(&ctx));
    assert!(clorus_tx_commit(&mut ctx, &mut refs, &replayed));
    assert!(clorus_tx_active(&ctx));
    assert!(clorus_tx_commit(&mut ctx, &mut refs, &replayed));
    assert!(!clorus_tx_active(&ctx));
}

#[test]
fn test_tx_abort() {
    let mut ctx = TxContext::new();
    assert!(clorus_tx_begin(&mut ctx, 0));
    assert!(clorus_tx_active(&ctx));
    clorus_tx_abort(&mut ctx);
    assert!(!clorus_tx_active(&ctx));
}

#[test]
fn test_tx_commit_detects_version_conflict() {
    let id = 7usize;
    let mut ctx = TxContext::new();
    let mut refs: HashMap<usize, RefValue> = HashMap::new();
    refs.insert(id, RefValue { value: Value::Long(1), version: 0 });
    let replayed: Vec<CommuteReplay> = Vec::new();

    assert!(clorus_tx_begin(&mut ctx, 0));
    assert_eq!(long(&clorus_runtime::refs::clorus_ref_deref(&mut ctx, &refs, id)), 1);

    refs.insert(id, RefValue { value: Value::Long(2), version: 1 });

    assert!(!clorus_tx_commit(&mut ctx, &mut refs, &replayed));
    assert!(clorus_tx_active(&ctx));
    assert_eq!(long(&refs[&id].value), 2);
    assert_eq!(refs[&id].version, 1);

    clorus_tx_abort(&mut ctx);
    assert!(!clorus_tx_active(&ctx));
}

#[test]
fn test_tx_commit_replays_commute_on_latest_value() {
    let id = 3usize;
    let mut ctx = TxContext::new();
    let mut refs: HashMap<usize, RefValue> = HashMap::new();
    refs.insert(id, RefValue { value: Value::Long(1), version: 0 });

    assert!(clorus_tx_begin(&mut ctx, 0));
    let args = Value::Vector(Rc::new(Vec::new()));
    let base = clorus_runtime::refs::commute_base(&ctx, &refs, id).unwrap();
    let local = clorus_runtime::refs::clorus_commute(
        &mut ctx,
        id,
        Value::Identity(clorus_runtime::value::ValueTag::Function, 1),
        args,
        Value::Long(long(&base) + 1),
    );
    assert_eq!(long(&local), 2);
    assert_eq!(long(&tx_get_commute_value(&ctx, id).unwrap()), 2);
    assert!(tx_has_commute(&ctx, id));

    refs.insert(id, RefValue { value: Value::Long(5), version: 1 });

    let mut replay = begin_replay(&ctx, &refs, id);
    let call = replay.next_call().unwrap();
    assert!(matches!(call.func, Value::Identity(clorus_runtime::value::ValueTag::Function, 1)));
    assert_eq!(call.args.len(), 1);
    let latest = long(&call.args[0]);
    assert_eq!(latest, 5);
    replay.feed(Value::Long(latest + 1));
    assert!(replay.is_finished());
    assert!(replay.next_call().is_none());
    let replayed = vec![replay];
    assert!(clorus_tx_commit(&mut ctx, &mut refs, &replayed));
    assert_eq!(long(&refs[&id].value), 6);
    assert_eq!(refs[&id].version, 2);
}

#[test]
fn read_then_write_is_still_validated() {
    let id = 1usize;
    let mut ctx = TxContext::new();
    let mut refs: HashMap<usize, RefValue> = HashMap::new();
    refs.insert(id, RefValue { value: Value::Long(10), version: 4 });
    let replayed: Vec<CommuteReplay> = Vec::new();

    assert!(clorus_tx_begin(&mut ctx, 9));
    tx_record_read(&mut ctx, id, 4);
    tx_stage_write(&mut ctx, id, Value::Long(11));
    assert!(tx_has_write(&ctx, id));
    assert_eq!(long(&tx_get_write(&ctx, id).unwrap()), 11);

    refs.insert(id, RefValue { value: Value::Long(50), version: 5 });
    assert!(!clorus_tx_commit(&mut ctx, &mut refs, &replayed));

    refs.insert(id, RefValue { value: Value::Long(50), version: 4 });
    assert!(clorus_tx_commit(&mut ctx, &mut refs, &replayed));
    assert_eq!(long(&refs[&id].value), 11);
    assert_eq!(refs[&id].version, 5);
}

#[test]
fn outside_a_transaction_nothing_is_staged() {
    let mut ctx = TxContext::new();
    tx_record_read(&mut ctx, 1, 0);
    tx_stage_write(&mut ctx, 1, Value::Long(1));
    assert!(!tx_has_write(&ctx, 1));
    assert!(!tx_has_commute(&ctx, 1));
    assert!(tx_get_write(&ctx, 1).is_none());
}

#[test]
fn replay_chains_commutes_in_order() {
    let id = 7usize;
    let mut ctx = TxContext::new();
    let mut refs: HashMap<usize, RefValue> = HashMap::new();
    refs.insert(id, RefValue { value: Value::Long(1), version: 0 });
    assert!(clorus_tx_begin(&mut ctx, 0));
    let add = Value::Identity(clorus_runtime::value::ValueTag::Function, 1);
    let double = Value::Identity(clorus_runtime::value::ValueTag::Function, 2);
    tx_stage_commute(&mut ctx, id, add, Value::Vector(Rc::new(vec![Value::Long(10)])), Value::Long(11));
    tx_stage_commute(&mut ctx, id, double, Value::Vector(Rc::new(Vec::new())), Value::Long(22));
    refs.insert(id, RefValue { value: Value::Long(4), version: 3 });
    let mut replay = begin_replay(&ctx, &refs, id);
    let first = replay.next_call().unwrap();
    assert!(matches!(first.func, Value::Identity(_, 1)));
    assert_eq!(first.args.iter().map(long).collect::<Vec<_>>(), vec![4, 10]);
    replay.feed(Value::Long(14));
    assert!(!replay.is_finished());
    let second = replay.next_call().unwrap();
    assert!(matches!(second.func, Value::Identity(_, 2)));
    assert_eq!(second.args.iter().map(long).collect::<Vec<_>>(), vec![14]);
    replay.feed(Value::Long(28));
    assert!(replay.is_finished());
    assert_eq!(long(&replay.outcome()), 28);
    assert!(clorus_tx_commit(&mut ctx, &mut refs, &vec![replay]));
    assert_eq!(long(&refs[&id].value), 28);
    assert_eq!(refs[&id].version, 4);
}

#[test]
fn staged_write_seen_until_transaction_closes() {
    let mut ctx = TxContext::new();
    let mut refs: HashMap<usize, RefValue> = HashMap::new();
    refs.insert(1, RefValue { value: Value::Long(0), version: 0 });
    refs.insert(2, RefValue { value: Value::Long(0), version: 0 });
    assert!(!tx_has_write(&ctx, 1));
    assert!(clorus_tx_begin(&mut ctx, 0));
    assert!(!tx_has_write(&ctx, 1));
    tx_stage_write(&mut ctx, 1, Value::Long(9));
    assert!(tx_has_write(&ctx, 1));
    assert!(!tx_has_write(&ctx, 2));
    assert!(clorus_tx_commit(&mut ctx, &mut refs, &Vec::new()));
    assert!(!tx_has_write(&ctx, 1));
    assert!(clorus_tx_begin(&mut ctx, 1));
    tx_stage_write(&mut ctx, 2, Value::Long(3));
    clorus_tx_abort(&mut ctx);
    assert!(!tx_has_write(&ctx, 2));
    assert_eq!(long(&refs[&2].value), 0);
}
