use clorus_runtime::intern::{clorus_is_keyword, clorus_is_keyword_i32, clorus_keyword_name, clorus_name, intern_keyword, intern_symbol, InternTable};
use clorus_runtime::debug::{DebugEvent, DebugLog};
use clorus_runtime::function::{ArityVariant, FunctionData, MultiArityFunctionData};
use clorus_runtime::protocols::ProtocolRegistry;
use clorus_runtime::value::Value;

#[test]
fn test_debug_mode() {
    let mut log = DebugLog::new();
    assert!(!log.is_debug_mode());
    log.enable_debug_mode();
    assert!(log.is_debug_mode());
}

#[test]
fn events_are_recorded_only_in_debug_mode() {
    let mut log = DebugLog::new();
    let ev = || DebugEvent::Alloc {
        timestamp_us: 0,
        address: 0x1234,
        kind_name: "TestType".to_string(),
        size: 48,
        refcount: 1,
        file: "test.clrs".to_string(),
        line: 10,
        expression: "(def x 10)".to_string(),
    };
    log.record_event(ev());
    assert_eq!(log.get_debug_events().len(), 0);
    log.enable_debug_mode();
    log.clear_debug_events();
    log.record_event(ev());
    log.record_event(DebugEvent::Release {
        timestamp_us: 5,
        address: 0x1234,
        refcount_before: 1,
        refcount_after: 0,
        freed: true,
        file: "?".to_string(),
        line: 11,
    });
    let events = log.get_debug_events();
    assert_eq!(events.len(), 2);
    match &events[0] {
        DebugEvent::Alloc { address, .. } => assert_eq!(*address, 0x1234),
        _ => panic!("Expected Alloc event"),
    }
    assert_eq!(log.summary_counts(), (1, 1));
    log.clear_debug_events();
    assert_eq!(log.get_debug_events().len(), 0);
}

#[test]
fn protocol_registry_lookup() {
    let mut r = ProtocolRegistry::new();
    assert_eq!(r.lookup_method("Point", "Show", "show"), None);
    r.register_method("Point".to_string(), "Show".to_string(), "show".to_string(), 100);
    r.register_method("Point".to_string(), "Show".to_string(), "show".to_string(), 200);
    r.register_method("Line".to_string(), "Show".to_string(), "show".to_string(), 300);
    assert_eq!(r.lookup_method("Point", "Show", "show"), Some(200));
    assert_eq!(r.lookup_method("Line", "Show", "show"), Some(300));
    assert_eq!(r.lookup_method("Line", "Show", "hide"), None);
}

#[test]
fn function_arity_dispatch() {
    let f = FunctionData::new(0x10, 2, vec![Value::Long(1)]);
    assert_eq!(f.env_size(), 1);
    assert!(f.accepts(2));
    assert!(!f.accepts(1));
    let v = FunctionData::new(0x10, -1, vec![]);
    assert!(v.accepts(6));
    assert!(!v.accepts(7));
    let m = MultiArityFunctionData::new(
        vec![ArityVariant { arity: 1, func_ptr: 1 }, ArityVariant { arity: -1, func_ptr: 2 }],
        vec![],
    );
    assert_eq!(m.arity_count(), 2);
    assert_eq!(m.select_variant(1), Some(0));
    assert_eq!(m.select_variant(3), Some(1));
    assert_eq!(m.select_variant(9), None);
}

#[test]
fn test_keyword_interning() {
    let mut table: Option<InternTable> = None;
    let k1 = intern_keyword(&mut table, "name");
    let k2 = intern_keyword(&mut table, "name");
    let k3 = intern_keyword(&mut table, "age");
    assert_eq!(k1, k2);
    assert_ne!(k1, k3);
    let t = table.as_ref().unwrap();
    assert_eq!(t.name_of(k1).unwrap(), "name");
    assert_eq!(t.name_of(k3).unwrap(), "age");
    assert!(t.name_of(9).is_none());
    let mut symbols: Option<InternTable> = None;
    assert_eq!(intern_symbol(&mut symbols, "x"), 0);
    assert_eq!(intern_symbol(&mut symbols, "y"), 1);
    assert_eq!(intern_symbol(&mut symbols, "x"), 0);
}

#[test]
fn keyword_predicates_and_names() {
    let k = Value::Keyword("test".to_string());
    assert!(clorus_is_keyword(&k));
    assert_eq!(clorus_is_keyword_i32(&Value::Long(1)), 0);
    assert_eq!(clorus_keyword_name(&k).unwrap(), "test");
    assert_eq!(clorus_name(&Value::Symbol("s".to_string())).unwrap(), "s");
    assert!(clorus_name(&Value::Long(1)).is_none());
}

#[test]
fn debug_filters() {
    use_filters();
}

fn use_filters() {
    assert_eq!(clorus_runtime::debug::parse_ptr(" 0x1F "), Some(31));
    assert_eq!(clorus_runtime::debug::parse_ptr("0Xff"), Some(255));
    assert_eq!(clorus_runtime::debug::parse_ptr("1234"), Some(1234));
    assert_eq!(clorus_runtime::debug::parse_ptr("+7"), Some(7));
    assert_eq!(clorus_runtime::debug::parse_ptr(""), None);
    assert_eq!(clorus_runtime::debug::parse_ptr("0x"), None);
    assert_eq!(clorus_runtime::debug::parse_ptr("12a"), None);
    assert_eq!(clorus_runtime::debug::parse_ptr("99999999999999999999999"), None);
    assert!(clorus_runtime::debug::tag_matches("Vector", clorus_runtime::value::ValueTag::Vector));
    assert!(clorus_runtime::debug::tag_matches(" vector ", clorus_runtime::value::ValueTag::Vector));
    assert!(clorus_runtime::debug::tag_matches("", clorus_runtime::value::ValueTag::Nil));
    assert!(!clorus_runtime::debug::tag_matches("List", clorus_runtime::value::ValueTag::Vector));
}

#[test]
fn rc_sections_nest() {
    let mut depth: u32 = 0;
    let outer = clorus_runtime::value::ValueRcSection::enter(&mut depth);
    assert!(!outer.nested);
    let inner = clorus_runtime::value::ValueRcSection::enter(&mut depth);
    assert!(inner.nested);
    assert_eq!(depth, 2);
    clorus_runtime::value::ValueRcSection::leave(&mut depth);
    clorus_runtime::value::ValueRcSection::leave(&mut depth);
    clorus_runtime::value::ValueRcSection::leave(&mut depth);
    assert_eq!(depth, 0);
}
