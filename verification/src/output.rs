//! The text that the printing functions (`print`, `println`, `pr`, `prn`)
//! write, and the line that `read-line` gives; writing and reading are the
//! caller's.

use crate::collections::{indexed_items, spec_count};
use crate::equality::{lemma_vector_elem_smaller, value_size};
use crate::printer::{join_texts, render, tag_name};
use crate::text::{push_char, push_decimal, push_str};
use crate::value::Value;
use vstd::prelude::*;

verus! {

/// The text of an element of `v`, guarded so that the definition is well
/// founded.
pub open spec fn part_display(x: Value, v: Value) -> Seq<char>
    decreases value_size(v), 0nat,
{
    if value_size(x) < value_size(v) {
        display_text(x)
    } else {
        Seq::empty()
    }
}

/// The texts of the elements of a vector.
pub open spec fn display_parts(v: Value) -> Seq<Seq<char>>
    decreases value_size(v), 1nat,
{
    match v {
        Value::Vector(xs) => Seq::new(xs@.len(), |i: int| part_display(xs@[i], v)),
        _ => Seq::empty(),
    }
}

/// How `print` and `println` show a value: strings as they are, nil as
/// `nil`, vectors element by element, maps as `{...}`, and other
/// collections and objects by kind (`#<List>`).
pub open spec fn display_text(v: Value) -> Seq<char>
    decreases value_size(v), 2nat,
{
    match v {
        Value::Str(s) => s@,
        Value::Long(n) => crate::text::decimal(n as int),
        Value::Keyword(k) => seq![':'] + k@,
        Value::Symbol(s) => s@,
        Value::Bool(b) => if b {
            "true"@
        } else {
            "false"@
        },
        Value::Nil => "nil"@,
        Value::Vector(_) => seq!['['] + join_texts(display_parts(v), seq![' ']) + seq![']'],
        Value::HashMap(_) => "{...}"@,
        _ => seq!['#', '<'] + tag_name(crate::value::spec_value_tag(v)) + seq!['>'],
    }
}

/// Appends how `print` shows `v` to `out`.
pub fn push_display(out: &mut String, v: &Value)
    ensures
        final(out)@ == old(out)@ + display_text(*v),
    decreases value_size(*v), 1nat,
{
    let ghost o = out@;
    match v {
        Value::Str(s) => push_str(out, s.as_str()),
        Value::Long(n) => push_decimal(out, *n),
        Value::Keyword(k) => {
            push_char(out, ':');
            push_str(out, k.as_str());
        },
        Value::Symbol(s) => push_str(out, s.as_str()),
        Value::Bool(b) => {
            if *b {
                push_str(out, "true");
            } else {
                push_str(out, "false");
            }
        },
        Value::Nil => push_str(out, "nil"),
        Value::Vector(xs) => {
            let ghost parts = display_parts(*v);
            push_char(out, '[');
            let mut i: usize = 0;
            proof {
                assert(parts.subrange(0, 0) =~= Seq::<Seq<char>>::empty());
            }
            while i < xs.len()
                invariant
                    i <= xs@.len(),
                    *v == Value::Vector(*xs),
                    parts == display_parts(*v),
                    parts.len() == xs@.len(),
                    forall|q: int| 0 <= q < xs@.len() ==> #[trigger] parts[q] == part_display(xs@[q], *v),
                    out@ == o + seq!['['] + join_texts(parts.subrange(0, i as int), seq![' ']),
                decreases xs.len() - i,
            {
                if i > 0 {
                    push_char(out, ' ');
                }
                proof {
                    lemma_vector_elem_smaller(xs, i as int);
                }
                push_display(out, &xs[i]);
                proof {
                    let nxt = parts.subrange(0, i + 1);
                    assert(nxt.drop_last() =~= parts.subrange(0, i as int));
                    assert(nxt.last() == display_text(xs@[i as int]));
                    if i == 0 {
                        assert(join_texts(parts.subrange(0, 0), seq![' ']) =~= Seq::<char>::empty());
                    }
                    assert(out@ =~= o + seq!['['] + join_texts(nxt, seq![' ']));
                }
                i += 1;
            }
            push_char(out, ']');
            proof {
                assert(parts.subrange(0, xs@.len() as int) =~= parts);
            }
        },
        Value::HashMap(_) => push_str(out, "{...}"),
        _ => {
            push_char(out, '#');
            push_char(out, '<');
            push_str(out, crate::printer::tag_name_of(v.tag()));
            push_char(out, '>');

        },
    }
    proof {
        assert(out@ =~= o + display_text(*v));
    }
}

/// How `print` shows a value.
pub fn value_to_display_string(v: &Value) -> (r: String)
    ensures
        r@ == display_text(*v),
{
    let mut out = String::new();
    push_display(&mut out, v);
    proof {
        assert(out@ =~= display_text(*v));
    }
    out
}

/// What `println` with several arguments writes before its newline: each
/// argument as `print` shows it, separated by spaces (nil past the
/// elements of a vector or list).
pub open spec fn println_text(args: Value) -> Seq<char> {
    join_texts(indexed_items(args).map_values(|x: Value| display_text(x)), seq![' '])
}

/// What `pr` writes: each argument's readable form, separated by spaces.
pub open spec fn pr_text(args: Value) -> Seq<char> {
    join_texts(indexed_items(args).map_values(|x: Value| render(x, true)), seq![' '])
}

/// The line `println` writes for several arguments (without the newline).
pub fn println_line(args: &Value) -> (r: String)
    requires
        spec_count(*args) <= i64::MAX,
        spec_count(*args) <= usize::MAX,
    ensures
        r@ == println_text(*args),
{
    let xs = crate::collections::indexed_items_of(args);
    let mut parts: Vec<Vec<char>> = Vec::new();
    let mut i: usize = 0;
    while i < xs.len()
        invariant
            i <= xs@.len(),
            xs@ == indexed_items(*args),
            parts@.len() == i,
            forall|q: int| 0 <= q < i ==> (#[trigger] parts@[q])@ == display_text(xs@[q]),
        decreases xs.len() - i,
    {
        let t = value_to_display_string(&xs[i]);
        parts.push(crate::text::chars_of(t.as_str()));
        i += 1;
    }
    let mut out = String::new();
    crate::printer::push_joined(&mut out, &parts, " ");
    proof {
        reveal_strlit(" ");
        assert(" "@ =~= seq![' ']);
        assert(parts@.map_values(|p: Vec<char>| p@) =~= xs@.map_values(|x: Value| display_text(x)));
    }
    out
}

/// The text `pr` writes (and `prn` before its newline).
pub fn pr_line(args: &Value) -> (r: String)
    requires
        spec_count(*args) <= i64::MAX,
        spec_count(*args) <= usize::MAX,
    ensures
        r@ == pr_text(*args),
{
    let xs = crate::collections::indexed_items_of(args);
    let mut parts: Vec<Vec<char>> = Vec::new();
    let mut i: usize = 0;
    while i < xs.len()
        invariant
            i <= xs@.len(),
            xs@ == indexed_items(*args),
            parts@.len() == i,
            forall|q: int| 0 <= q < i ==> (#[trigger] parts@[q])@ == render(xs@[q], true),
        decreases xs.len() - i,
    {
        let t = crate::printer::value_to_pr_string(&xs[i]);
        parts.push(crate::text::chars_of(t.as_str()));
        i += 1;
    }
    let mut out = String::new();
    crate::printer::push_joined(&mut out, &parts, " ");
    proof {
        reveal_strlit(" ");
        assert(" "@ =~= seq![' ']);
        assert(parts@.map_values(|p: Vec<char>| p@) =~= xs@.map_values(|x: Value| render(x, true)));
    }
    out
}

/// A line as read, without its newline and a carriage return before it.
pub open spec fn strip_line_ending(s: Seq<char>) -> Seq<char> {
    let a = if s.len() > 0 && s.last() == '\n' {
        s.drop_last()
    } else {
        s
    };
    if s.len() > 0 && s.last() == '\n' && a.len() > 0 && a.last() == '\r' {
        a.drop_last()
    } else {
        a
    }
}

/// The line `read-line` gives for the text read from the input.
pub fn read_line_text(input: &str) -> (r: String)
    ensures
        r@ == strip_line_ending(input@),
{
    let cs = crate::text::chars_of(input);
    let mut n = cs.len();
    if n > 0 && cs[n - 1] == '\n' {
        n = n - 1;
        if n > 0 && cs[n - 1] == '\r' {
            n = n - 1;
        }
    }
    let out = crate::strings::chars_range(&cs, 0, n);
    proof {
        let s = input@;
        if s.len() > 0 && s.last() == '\n' {
            assert(s.drop_last() =~= s.subrange(0, s.len() - 1));
            if s.len() > 1 && s[s.len() - 2] == '\r' {
                assert(s.drop_last().drop_last() =~= s.subrange(0, s.len() - 2));
            }
        } else {
            assert(s.subrange(0, s.len() as int) =~= s);
        }
    }
    crate::text::string_of_vec(&out)
}

/// The symbol a dynamically loaded module exports under `name`: none, as
/// no module is loaded.
pub fn module_symbol<T>(name: &str) -> (r: Option<T>)
    ensures
        r is None,
{
    None
}

} // verus!
