use clorus_runtime::strings::{
    clorus_char_at, clorus_compare_strings, clorus_compare_values, clorus_ends_with, clorus_includes,
    clorus_index_of, clorus_join, clorus_lower_case, clorus_replace, clorus_replace_first,
    clorus_split, clorus_starts_with, clorus_subs2, clorus_subs3, clorus_trim, clorus_trim_left,
    clorus_trim_right, clorus_upper_case,
};
use clorus_runtime::regex::{clorus_re_find, clorus_re_matches, clorus_re_replace, clorus_re_seq, clorus_regex_valid_i32};
use clorus_runtime::value::Value;
use std::rc::Rc;

fn s(t: &str) -> Value {
    Value::Str(t.to_string())
}

fn text(v: &Value) -> String {
    match v {
        Value::Str(s) => s.clone(),
        _ => panic!("not a string"),
    }
}

fn texts(v: &Value) -> Vec<String> {
    match v {
        Value::Vector(xs) => xs.iter().map(text).collect(),
        _ => panic!("not a vector"),
    }
}

#[test]
fn test_subs() {
    let h = s("hello world");
    assert_eq!(text(&clorus_subs3(&h, 0, 5)), "hello");
    assert_eq!(text(&clorus_subs2(&h, 6)), "world");
    assert_eq!(text(&clorus_subs2(&h, 60)), "");
    assert_eq!(text(&clorus_subs3(&h, 4, 2)), "");
}

#[test]
fn test_split() {
    let r = clorus_split(&s("a,b,c"), &s(","));
    assert!(matches!(r, Value::Vector(_)));
    assert_eq!(texts(&r), vec!["a", "b", "c"]);
    assert_eq!(texts(&clorus_split(&s("a,,b,"), &s(","))), vec!["a", "", "b", ""]);
    assert_eq!(texts(&clorus_split(&s("ab"), &s(""))), vec!["", ""]);
}

#[test]
fn test_case_conversion() {
    let upper = clorus_upper_case(&s("hello"));
    assert_eq!(text(&upper), "HELLO");
    assert_eq!(text(&clorus_lower_case(&upper)), "hello");
}

#[test]
fn test_trim() {
    assert_eq!(text(&clorus_trim(&s("  hello  "))), "hello");
    assert_eq!(text(&clorus_trim(&s("\t\nhello\n\t"))), "hello");
    assert_eq!(text(&clorus_trim_left(&s("  hello  "))), "hello  ");
    assert_eq!(text(&clorus_trim_right(&s("  hello  "))), "  hello");
}

#[test]
fn join_replace_and_search() {
    let coll = Value::Vector(Rc::new(vec![s("a"), s("b"), Value::Long(3)]));
    assert_eq!(text(&clorus_join(&s(","), &coll)), "a,b,3");
    assert_eq!(text(&clorus_replace(&s("hello world"), &s("l"), &s("L"))), "heLLo worLd");
    assert_eq!(text(&clorus_replace(&s("hello"), &s("ll"), &s("yy"))), "heyyo");
    assert_eq!(text(&clorus_replace(&s("abc"), &s(""), &s("-"))), "-a-b-c-");
    assert_eq!(text(&clorus_replace_first(&s("hello hello"), &s("ll"), &s("yy"))), "heyyo hello");
    assert_eq!(clorus_starts_with(&s("hello world"), &s("hello")), 1);
    assert_eq!(clorus_starts_with(&s("hello"), &s("hi")), 0);
    assert_eq!(clorus_ends_with(&s("hello.txt"), &s(".txt")), 1);
    assert_eq!(clorus_includes(&s("hello world"), &s("lo wo")), 1);
    assert_eq!(clorus_includes(&s("hello"), &s("x")), 0);
    assert_eq!(text(&clorus_char_at(&s("hello"), 1)), "e");
    assert!(matches!(clorus_char_at(&s("hello"), 10), Value::Nil));
    assert!(matches!(clorus_index_of(&s("hello world"), &s("world")), Value::Long(6)));
    assert!(matches!(clorus_index_of(&s("hello"), &s("x")), Value::Nil));
}

#[test]
fn comparisons() {
    assert_eq!(clorus_compare_strings(&s("apple"), &s("banana")), -1);
    assert_eq!(clorus_compare_strings(&s("hello"), &s("hello")), 0);
    assert_eq!(clorus_compare_strings(&s("zebra"), &s("apple")), 1);
    assert_eq!(clorus_compare_values(&Value::Nil, &Value::Long(1)), -1);
    assert_eq!(clorus_compare_values(&Value::Long(3), &Value::Long(1)), 1);
    assert_eq!(clorus_compare_values(&Value::Bool(false), &Value::Bool(true)), -1);
    assert_eq!(clorus_compare_values(&Value::Long(3), &s("a")), -1);
}

#[test]
fn regular_expressions() {
    assert_eq!(text(&clorus_re_find(&s("[0-9]+"), &s("abc123def"))), "123");
    assert_eq!(text(&clorus_re_matches(&s("[0-9]+"), &s("123"))), "123");
    assert!(matches!(clorus_re_matches(&s("[0-9]+"), &s("a123")), Value::Nil));
    assert_eq!(texts(&clorus_re_seq(&s("[a-z]"), &s("a1b2"))), vec!["a", "b"]);
    assert!(matches!(clorus_re_seq(&s("x"), &s("abc")), Value::Nil));
    assert_eq!(text(&clorus_re_replace(&s("a1b22"), &s("[0-9]+"), &s("#"))), "a#b#");
    assert_eq!(clorus_regex_valid_i32(&s("(")), 0);
    assert_eq!(clorus_regex_valid_i32(&s("a+")), 1);
    match clorus_re_find(&s("([a-z])([0-9])"), &s("--b7")) {
        Value::Vector(xs) => assert_eq!(xs.iter().map(text).collect::<Vec<_>>(), vec!["b7", "b", "7"]),
        _ => panic!("expected a vector of groups"),
    }
}

#[test]
fn regex_replace_first_only_first_match() {
    assert_eq!(
        text(&clorus_runtime::regex::clorus_re_replace_first(&s("a1b22"), &s("[0-9]+"), &s("#"))),
        "a#b22"
    );
    assert_eq!(text(&clorus_runtime::regex::clorus_re_replace_first(&s("abc"), &s("[0-9]"), &s("#"))), "abc");
}
