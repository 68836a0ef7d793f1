use clorus_runtime::net::{read_limit, tcp_port, ReadLimit};
use clorus_runtime::value::Value;

#[test]
fn ports_are_longs_in_range() {
    assert_eq!(tcp_port(&Value::Long(8080)), Some(8080));
    assert_eq!(tcp_port(&Value::Long(0)), Some(0));
    assert_eq!(tcp_port(&Value::Long(65535)), Some(65535));
    assert_eq!(tcp_port(&Value::Long(65536)), None);
    assert_eq!(tcp_port(&Value::Long(-1)), None);
    assert_eq!(tcp_port(&Value::Str("80".to_string())), None);
}

#[test]
fn read_limits() {
    assert!(matches!(read_limit(&Value::Long(512)), ReadLimit::Bytes(512)));
    assert!(matches!(read_limit(&Value::Long(0)), ReadLimit::Nothing));
    assert!(matches!(read_limit(&Value::Long(-4)), ReadLimit::Nothing));
    assert!(matches!(read_limit(&Value::Nil), ReadLimit::Invalid));
}
