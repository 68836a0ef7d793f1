use clorus_runtime::list::PersistentList;
use clorus_runtime::map_ops::clorus_map_empty;
use clorus_runtime::output::{module_symbol, pr_line, println_line, read_line_text, value_to_display_string};
use clorus_runtime::value::Value;
use std::rc::Rc;

#[test]
fn display_strings() {
    let v = Value::Vector(Rc::new(vec![Value::Long(1), Value::Str("a".to_string()), Value::Nil]));
    assert_eq!(value_to_display_string(&v), "[1 a nil]");
    assert_eq!(value_to_display_string(&clorus_map_empty()), "{...}");
    assert_eq!(value_to_display_string(&Value::List(PersistentList::empty())), "#<List>");
    assert_eq!(value_to_display_string(&Value::Keyword("k".to_string())), ":k");
}

#[test]
fn printing_lines() {
    let args = Value::Vector(Rc::new(vec![Value::Str("x".to_string()), Value::Long(2)]));
    assert_eq!(println_line(&args), "x 2");
    assert_eq!(pr_line(&args), "\"x\" 2");
}

#[test]
fn read_line_strips_the_line_ending() {
    assert_eq!(read_line_text("abc\r\n"), "abc");
    assert_eq!(read_line_text("abc\n"), "abc");
    assert_eq!(read_line_text("abc\r"), "abc\r");
    assert_eq!(read_line_text(""), "");
    assert!(module_symbol::<u32>("f").is_none());
}
