use clorus_runtime::channel::{alts_poll, all_closed, chan_capacity, ChannelState, PutStep, TakeStep};
use clorus_runtime::value::Value;

fn long(v: &Value) -> i64 {
    match v {
        Value::Long(n) => *n,
        _ => panic!("not a long"),
    }
}

#[test]
fn test_channel_create() {
    let c = ChannelState::new(chan_capacity(10), 0);
    assert!(!c.is_closed());
    assert_eq!(c.id(), 0);
    assert_eq!(chan_capacity(-1), None);
    assert_eq!(chan_capacity(0), Some(0));
}

#[test]
fn test_channel_put_take() {
    let mut c = ChannelState::new(chan_capacity(10), 1);
    assert!(matches!(c.try_put(Value::Long(42)), PutStep::Accepted));
    match c.try_take_step() {
        TakeStep::Took(v) => assert_eq!(long(&v), 42),
        _ => panic!("expected a value"),
    }
    assert!(matches!(c.try_take_step(), TakeStep::Empty));
}

#[test]
fn test_channel_close() {
    let mut c = ChannelState::new(chan_capacity(10), 2);
    c.close();
    assert!(matches!(c.try_put(Value::Long(42)), PutStep::Closed));
    assert!(matches!(c.try_take_step(), TakeStep::Closed));
    assert!(matches!(c.try_take(), Some(Value::Nil)));
}

#[test]
fn channel_is_fifo_and_bounded() {
    let mut c = ChannelState::new(chan_capacity(2), 3);
    assert!(matches!(c.try_put(Value::Long(1)), PutStep::Accepted));
    assert!(matches!(c.try_put(Value::Long(2)), PutStep::Accepted));
    assert!(matches!(c.try_put(Value::Long(3)), PutStep::Full));
    assert!(c.is_full());
    assert_eq!(long(&c.try_take().unwrap()), 1);
    assert_eq!(long(&c.try_take().unwrap()), 2);
    assert!(c.try_take().is_none());
    let mut r = ChannelState::new(chan_capacity(0), 4);
    assert!(matches!(r.try_put(Value::Long(1)), PutStep::Full));
}

#[test]
fn alts_takes_from_the_first_ready_channel() {
    let mut a = ChannelState::new(None, 0);
    let mut b = ChannelState::new(None, 1);
    assert!(matches!(b.try_put(Value::Long(7)), PutStep::Accepted));
    let mut chans = vec![a, b];
    match alts_poll(&mut chans) {
        Some((v, i)) => {
            assert_eq!(long(&v), 7);
            assert_eq!(i, 1);
        }
        None => panic!("expected a value"),
    }
    assert!(alts_poll(&mut chans).is_none());
    assert!(!all_closed(&chans));
    chans[0].close();
    a = ChannelState::new(None, 9);
    a.close();
    let _ = a;
    match alts_poll(&mut chans) {
        Some((v, i)) => {
            assert!(matches!(v, Value::Nil));
            assert_eq!(i, 0);
        }
        None => panic!("expected nil from the closed channel"),
    }
}
