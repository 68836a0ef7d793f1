//! What the REPL shows for an evaluation, and its configuration.

use crate::printer::{render, tag_name, value_to_pr_string};
use crate::text::{push_char, push_decimal, push_str, string_from};
use crate::value::{Value, ValueTag};
use vstd::prelude::*;

verus! {

/// Configuration options of the REPL.
#[derive(Debug, Clone)]
pub struct ReplConfig {
    /// Path of the history file (default: `~/.clorus_history`).
    pub history_file: Option<String>,
    /// Don't print the banner.
    pub no_banner: bool,
    /// Don't load the standard library.
    pub no_stdlib: bool,
    /// Custom standard library path.
    pub stdlib_path: Option<String>,
    /// Don't load the project's entry file.
    pub no_auto_load: bool,
    /// Run on the main thread (GUI on macOS).
    pub main_thread: bool,
}

/// The default REPL configuration: no paths given, every flag off.
pub open spec fn is_default_repl_config(c: ReplConfig) -> bool {
    &&& c.history_file is None
    &&& !c.no_banner
    &&& !c.no_stdlib
    &&& c.stdlib_path is None
    &&& !c.no_auto_load
    &&& !c.main_thread
}

impl Default for ReplConfig {
    fn default() -> (r: Self)
        ensures
            is_default_repl_config(r),
    {
        ReplConfig {
            history_file: None,
            no_banner: false,
            no_stdlib: false,
            stdlib_path: None,
            no_auto_load: false,
            main_thread: false,
        }
    }
}

/// The kind of form that was evaluated.
pub enum EvalKind {
    /// An expression: its value is shown.
    Value,
    /// `(def name ...)`: shown as `#'namespace/name`.
    Def(String),
    /// `(defn name ...)`: shown as `#'namespace/name`.
    Defn(String),
    /// `(defmacro name ...)`: shown as `#'namespace/name`.
    Defmacro(String),
    /// `(ns name)`: shown as `nil`.
    Namespace,
    /// `(require ...)` or `(use ...)`: shown as `nil`.
    Import,
}

/// The result of evaluating one form in the REPL.
pub struct EvalResult {
    pub value: Value,
    pub kind: EvalKind,
}

/// The hexadecimal digits of `n`, most significant first ("0" for zero).
pub open spec fn hex_digits(n: nat) -> Seq<char>
    decreases n,
{
    if n < 16 {
        seq![hex_digit(n as int)]
    } else {
        hex_digits(n / 16).push(hex_digit((n % 16) as int))
    }
}

/// The lower-case hexadecimal digit for `d` in `0..16`.
pub open spec fn hex_digit(d: int) -> char {
    if d < 10 {
        crate::text::digit_char(d)
    } else if d == 10 {
        'a'
    } else if d == 11 {
        'b'
    } else if d == 12 {
        'c'
    } else if d == 13 {
        'd'
    } else if d == 14 {
        'e'
    } else {
        'f'
    }
}

fn hex_digit_of(d: u64) -> (r: char)
    requires
        d < 16,
    ensures
        r == hex_digit(d as int),
{
    if d == 0 {
        '0'
    } else if d == 1 {
        '1'
    } else if d == 2 {
        '2'
    } else if d == 3 {
        '3'
    } else if d == 4 {
        '4'
    } else if d == 5 {
        '5'
    } else if d == 6 {
        '6'
    } else if d == 7 {
        '7'
    } else if d == 8 {
        '8'
    } else if d == 9 {
        '9'
    } else if d == 10 {
        'a'
    } else if d == 11 {
        'b'
    } else if d == 12 {
        'c'
    } else if d == 13 {
        'd'
    } else if d == 14 {
        'e'
    } else {
        'f'
    }
}

fn push_hex(out: &mut String, m: u64)
    ensures
        final(out)@ == old(out)@ + hex_digits(m as nat),
    decreases m,
{
    if m >= 16 {
        push_hex(out, m / 16);
    }
    crate::text::push_char(out, hex_digit_of(m % 16));
    proof {
        if m >= 16 {
            assert(old(out)@ + hex_digits(m as nat) =~= old(out)@ + hex_digits((m / 16) as nat) + seq![
                hex_digit((m % 16) as int),
            ]);
        } else {
            assert(old(out)@ + hex_digits(m as nat) =~= old(out)@.push(hex_digit((m % 16) as int)));
        }
    }
}

/// How the REPL shows a value: numbers and booleans as written, strings
/// quoted, nil as `nil`, collections and keywords in their readable form
/// (`:name`), symbols as `Symbol(name)`, and other values by kind
/// and identity (`Atom(0x2a)`).
pub open spec fn display_text(v: Value) -> Seq<char> {
    match v {
        Value::Long(n) => crate::text::decimal(n as int),
        Value::Str(s) => seq!['"'] + s@ + seq!['"'],
        Value::Bool(b) => if b {
            "true"@
        } else {
            "false"@
        },
        Value::Nil => "nil"@,
        Value::Vector(_) => render(v, true),
        Value::List(_) => render(v, true),
        Value::HashMap(_) => render(v, true),
        Value::HashSet(_) => render(v, true),
        Value::Keyword(_) => render(v, true),
        Value::Symbol(k) => "Symbol("@ + k@ + ")"@,
        Value::Identity(t, id) => tag_name(t) + "(0x"@ + hex_digits(id as nat) + ")"@,
    }
}

/// How the REPL shows a value (see [`display_text`]).
pub fn display_value(v: &Value) -> (r: String)
    ensures
        r@ == display_text(*v),
{
    let mut out = String::new();
    match v {
        Value::Long(n) => push_decimal(&mut out, *n),
        Value::Str(s) => {
            push_char(&mut out, '"');
            push_str(&mut out, s.as_str());
            push_char(&mut out, '"');
        },
        Value::Bool(b) => {
            if *b {
                push_str(&mut out, "true");
            } else {
                push_str(&mut out, "false");
            }
        },
        Value::Nil => push_str(&mut out, "nil"),
        Value::Symbol(k) => {
            push_str(&mut out, "Symbol(");
            push_str(&mut out, k.as_str());
            push_str(&mut out, ")");
        },
        Value::Identity(t, id) => {
            push_str(&mut out, tag_name_str(*t));
            push_str(&mut out, "(0x");
            push_hex(&mut out, *id);
            push_str(&mut out, ")");
        },
        _ => {
            let text = value_to_pr_string(v);
            push_str(&mut out, text.as_str());
        },
    }
    proof {
        assert(out@ =~= display_text(*v));
    }
    out
}

/// The name of a tag.
fn tag_name_str(t: ValueTag) -> (r: &'static str)
    ensures
        r@ == tag_name(t),
{
    match t {
        ValueTag::Long => "Long",
        ValueTag::Double => "Double",
        ValueTag::List => "List",
        ValueTag::Vector => "Vector",
        ValueTag::HashMap => "HashMap",
        ValueTag::String => "String",
        ValueTag::Keyword => "Keyword",
        ValueTag::Symbol => "Symbol",
        ValueTag::Bool => "Bool",
        ValueTag::Nil => "Nil",
        ValueTag::HashSet => "HashSet",
        ValueTag::Atom => "Atom",
        ValueTag::Ref => "Ref",
        ValueTag::Agent => "Agent",
        ValueTag::Channel => "Channel",
        ValueTag::Function => "Function",
        ValueTag::Var => "Var",
        ValueTag::MultiArityFunction => "MultiArityFunction",
        ValueTag::OpaquePointer => "OpaquePointer",
    }
}

/// What the REPL prints for an evaluation: `#'namespace/name` for a
/// definition, `nil` for `ns` and imports, the value's text otherwise.
pub open spec fn spec_format_result(kind: EvalKind, value: Value, namespace: Seq<char>) -> Seq<char> {
    match kind {
        EvalKind::Def(name) => "#'"@ + namespace + "/"@ + name@,
        EvalKind::Defn(name) => "#'"@ + namespace + "/"@ + name@,
        EvalKind::Defmacro(name) => "#'"@ + namespace + "/"@ + name@,
        EvalKind::Namespace => "nil"@,
        EvalKind::Import => "nil"@,
        EvalKind::Value => display_text(value),
    }
}

/// What the REPL prints for an evaluation.
pub fn format_result(result: &EvalResult, namespace: &str) -> (r: String)
    ensures
        r@ == spec_format_result(result.kind, result.value, namespace@),
{
    match &result.kind {
        EvalKind::Def(name) => definition_text(namespace, name.as_str()),
        EvalKind::Defn(name) => definition_text(namespace, name.as_str()),
        EvalKind::Defmacro(name) => definition_text(namespace, name.as_str()),
        EvalKind::Namespace => string_from("nil"),
        EvalKind::Import => string_from("nil"),
        EvalKind::Value => display_value(&result.value),
    }
}

/// `#'namespace/name`.
fn definition_text(namespace: &str, name: &str) -> (r: String)
    ensures
        r@ == "#'"@ + namespace@ + "/"@ + name@,
{
    let mut out = string_from("#'");
    push_str(&mut out, namespace);
    push_str(&mut out, "/");
    push_str(&mut out, name);
    out
}

} // verus!
