//! Text forms of values: the readable form of `pr-str` (strings quoted and
//! escaped) and the display form of `str` (strings as they are, nil as
//! nothing). Map entries and set elements are printed sorted by their text,
//! so equal collections print alike.

use crate::equality::{deep_eq, lemma_list_elem_smaller, lemma_map_entry_size, lemma_map_value_smaller, lemma_vector_elem_smaller, value_size};
use crate::hamt::lemma_key_order;
use crate::set::lemma_elem_order;
use crate::value_hash::well_formed_value;
use crate::key::KeyView;
use crate::text::{chars_of, decimal, push_char, push_decimal, push_str};
use crate::value::{Value, ValueTag};
use vstd::prelude::*;

verus! {

/// `a` sorts before `b`: character codes compared in order, a proper
/// prefix first. On UTF-8 text this is the byte order of Rust's string
/// comparison.
pub open spec fn text_lt(a: Seq<char>, b: Seq<char>) -> bool
    decreases a.len(),
{
    if a.len() == 0 {
        b.len() > 0
    } else if b.len() == 0 {
        false
    } else if a[0] != b[0] {
        a[0] < b[0]
    } else {
        text_lt(a.drop_first(), b.drop_first())
    }
}

/// A pair of texts sorts no later than another: by the first text, then
/// by the second.
pub open spec fn pair_le(a: (Seq<char>, Seq<char>), b: (Seq<char>, Seq<char>)) -> bool {
    text_lt(a.0, b.0) || (a.0 == b.0 && !text_lt(b.1, a.1))
}

/// `x` inserted into `s` before the first element it sorts no later than.
pub open spec fn insert_sorted(x: (Seq<char>, Seq<char>), s: Seq<(Seq<char>, Seq<char>)>) -> Seq<
    (Seq<char>, Seq<char>),
>
    decreases s.len(),
{
    if s.len() == 0 {
        seq![x]
    } else if pair_le(x, s[0]) {
        seq![x] + s
    } else {
        seq![s[0]] + insert_sorted(x, s.drop_first())
    }
}

/// The pairs in sorted order.
pub open spec fn sort_pairs(s: Seq<(Seq<char>, Seq<char>)>) -> Seq<(Seq<char>, Seq<char>)>
    decreases s.len(),
{
    if s.len() == 0 {
        Seq::empty()
    } else {
        insert_sorted(s.last(), sort_pairs(s.drop_last()))
    }
}

/// The texts joined with `sep` between each two.
pub open spec fn join_texts(parts: Seq<Seq<char>>, sep: Seq<char>) -> Seq<char>
    decreases parts.len(),
{
    if parts.len() == 0 {
        Seq::empty()
    } else if parts.len() == 1 {
        parts[0]
    } else {
        join_texts(parts.drop_last(), sep) + sep + parts.last()
    }
}

/// How one character of a string is written in readable form.
pub open spec fn escape_char(c: char) -> Seq<char> {
    if c == '\\' {
        seq!['\\', '\\']
    } else if c == '"' {
        seq!['\\', '"']
    } else if c == '\n' {
        seq!['\\', 'n']
    } else if c == '\t' {
        seq!['\\', 't']
    } else if c == '\r' {
        seq!['\\', 'r']
    } else {
        seq![c]
    }
}

/// A string with backslash, quote, newline, tab and carriage return
/// escaped.
pub open spec fn escape_text(s: Seq<char>) -> Seq<char>
    decreases s.len(),
{
    if s.len() == 0 {
        Seq::empty()
    } else {
        escape_text(s.drop_last()) + escape_char(s.last())
    }
}

/// The name of a tag, as `Debug` writes it.
pub open spec fn tag_name(t: ValueTag) -> Seq<char> {
    match t {
        ValueTag::Long => "Long"@,
        ValueTag::Double => "Double"@,
        ValueTag::List => "List"@,
        ValueTag::Vector => "Vector"@,
        ValueTag::HashMap => "HashMap"@,
        ValueTag::String => "String"@,
        ValueTag::Keyword => "Keyword"@,
        ValueTag::Symbol => "Symbol"@,
        ValueTag::Bool => "Bool"@,
        ValueTag::Nil => "Nil"@,
        ValueTag::HashSet => "HashSet"@,
        ValueTag::Atom => "Atom"@,
        ValueTag::Ref => "Ref"@,
        ValueTag::Agent => "Agent"@,
        ValueTag::Channel => "Channel"@,
        ValueTag::Function => "Function"@,
        ValueTag::Var => "Var"@,
        ValueTag::MultiArityFunction => "MultiArityFunction"@,
        ValueTag::OpaquePointer => "OpaquePointer"@,
    }
}

/// The readable form of a value known only by its identity.
pub open spec fn identity_text(t: ValueTag) -> Seq<char> {
    match t {
        ValueTag::Function => "#<function>"@,
        ValueTag::MultiArityFunction => "#<function>"@,
        ValueTag::Atom => "#<atom>"@,
        ValueTag::Ref => "#<ref>"@,
        ValueTag::Agent => "#<agent>"@,
        ValueTag::Channel => "#<channel>"@,
        ValueTag::Var => "#<var>"@,
        _ => "#<opaque-pointer>"@,
    }
}

/// The text of a key: in readable form strings are quoted and escaped
/// and nil is `nil`; in display form strings are as they are and nil is
/// empty.
pub open spec fn key_text(k: KeyView, readable: bool) -> Seq<char> {
    match k {
        KeyView::Nil => if readable {
            "nil"@
        } else {
            Seq::empty()
        },
        KeyView::Bool(b) => if b {
            "true"@
        } else {
            "false"@
        },
        KeyView::Long(n) => decimal(n as int),
        KeyView::Str(s) => if readable {
            seq!['"'] + escape_text(s) + seq!['"']
        } else {
            s
        },
        KeyView::Keyword(s) => seq![':'] + s,
        KeyView::Symbol(s) => s,
        KeyView::Identity(t, _) => if readable {
            identity_text(t)
        } else {
            seq!['#', '<'] + tag_name(t) + seq!['>']
        },
    }
}

/// The text of an element of `v`, guarded so that the definition is well
/// founded (every element is smaller than its collection).
pub open spec fn part_text(x: Value, v: Value, readable: bool) -> Seq<char>
    decreases value_size(v), 0nat,
{
    if value_size(x) < value_size(v) {
        render(x, readable)
    } else {
        Seq::empty()
    }
}

/// The texts of the elements of a vector or list, in order.
pub open spec fn seq_parts(v: Value, readable: bool) -> Seq<Seq<char>>
    decreases value_size(v), 1nat,
{
    match v {
        Value::Vector(xs) => Seq::new(xs@.len(), |i: int| part_text(xs@[i], v, readable)),
        Value::List(l) => Seq::new(l.view().len(), |i: int| part_text(l.view()[i], v, readable)),
        _ => Seq::empty(),
    }
}

/// The texts of the keys and values of a map, in the map's order; the
/// texts of the elements of a set (each with an empty second text).
pub open spec fn entry_pairs(v: Value, readable: bool) -> Seq<(Seq<char>, Seq<char>)>
    decreases value_size(v), 1nat,
{
    match v {
        Value::HashMap(m) => Seq::new(
            m.key_order().len(),
            |i: int|
                (
                    key_text(m.key_order()[i], readable),
                    part_text(m.view()[m.key_order()[i]], v, readable),
                ),
        ),
        Value::HashSet(s) => Seq::new(
            s.elem_order().len(),
            |i: int| (key_text(s.elem_order()[i], readable), Seq::<char>::empty()),
        ),
        _ => Seq::empty(),
    }
}

/// A map entry's text: key, space, value.
pub open spec fn entry_text(p: (Seq<char>, Seq<char>)) -> Seq<char> {
    p.0 + seq![' '] + p.1
}

/// A set element's text.
pub open spec fn elem_text(p: (Seq<char>, Seq<char>)) -> Seq<char> {
    p.0
}

/// The text of a value.
pub open spec fn render(v: Value, readable: bool) -> Seq<char>
    decreases value_size(v), 2nat,
{
    match v {
        Value::Nil => key_text(KeyView::Nil, readable),
        Value::Bool(b) => key_text(KeyView::Bool(b), readable),
        Value::Long(n) => key_text(KeyView::Long(n), readable),
        Value::Str(s) => key_text(KeyView::Str(s@), readable),
        Value::Keyword(s) => key_text(KeyView::Keyword(s@), readable),
        Value::Symbol(s) => key_text(KeyView::Symbol(s@), readable),
        Value::Vector(_) => seq!['['] + join_texts(seq_parts(v, readable), seq![' ']) + seq![']'],
        Value::List(_) => seq!['('] + join_texts(seq_parts(v, readable), seq![' ']) + seq![')'],
        Value::HashMap(_) => seq!['{'] + join_texts(
            sort_pairs(entry_pairs(v, readable)).map_values(|p: (Seq<char>, Seq<char>)| entry_text(p)),
            seq![' '],
        ) + seq!['}'],
        Value::HashSet(_) => seq!['#', '{'] + join_texts(
            sort_pairs(entry_pairs(v, readable)).map_values(|p: (Seq<char>, Seq<char>)| elem_text(p)),
            seq![' '],
        ) + seq!['}'],
        Value::Identity(t, _) => if readable {
            identity_text(t)
        } else {
            seq!['#', '<'] + tag_name(t) + seq!['>']
        },
    }
}

/// Whether `a` sorts before `b`.
pub(crate) fn text_less(a: &Vec<char>, b: &Vec<char>) -> (r: bool)
    ensures
        r == text_lt(a@, b@),
{
    let mut i: usize = 0;
    proof {
        assert(a@.skip(0) =~= a@);
        assert(b@.skip(0) =~= b@);
    }
    while i < a.len() && i < b.len() && a[i] == b[i]
        invariant
            i <= a@.len(),
            i <= b@.len(),
            text_lt(a@, b@) == text_lt(a@.skip(i as int), b@.skip(i as int)),
        decreases a.len() - i,
    {
        proof {
            assert(a@.skip(i as int).drop_first() =~= a@.skip(i + 1));
            assert(b@.skip(i as int).drop_first() =~= b@.skip(i + 1));
        }
        i += 1;
    }
    if i == a.len() {
        i < b.len()
    } else if i == b.len() {
        false
    } else {
        a[i] < b[i]
    }
}

/// The view of a list of text pairs.
pub open spec fn pairs_view(v: Seq<(Vec<char>, Vec<char>)>) -> Seq<(Seq<char>, Seq<char>)> {
    v.map_values(|p: (Vec<char>, Vec<char>)| (p.0@, p.1@))
}

/// Whether pair `a` sorts no later than pair `b`.
fn pair_leq(a: &(Vec<char>, Vec<char>), b: &(Vec<char>, Vec<char>)) -> (r: bool)
    ensures
        r == pair_le((a.0@, a.1@), (b.0@, b.1@)),
{
    if text_less(&a.0, &b.0) {
        return true;
    }
    if text_less(&b.0, &a.0) {
        proof {
            lemma_text_lt_irrefl_eq(a.0@, b.0@);
        }
        return false;
    }
    proof {
        lemma_text_lt_total(a.0@, b.0@);
    }
    !text_less(&b.1, &a.1)
}

/// Two texts that sort before each other are different.
proof fn lemma_text_lt_irrefl_eq(a: Seq<char>, b: Seq<char>)
    requires
        text_lt(b, a),
    ensures
        a != b,
{
    lemma_text_lt_irrefl(a);
}

/// No text sorts before itself.
proof fn lemma_text_lt_irrefl(a: Seq<char>)
    ensures
        !text_lt(a, a),
    decreases a.len(),
{
    if a.len() > 0 {
        lemma_text_lt_irrefl(a.drop_first());
    }
}

/// Of two different texts one sorts before the other.
proof fn lemma_text_lt_total(a: Seq<char>, b: Seq<char>)
    requires
        !text_lt(a, b),
        !text_lt(b, a),
    ensures
        a == b,
    decreases a.len(),
{
    if a.len() > 0 && b.len() > 0 {
        if a[0] == b[0] {
            lemma_text_lt_total(a.drop_first(), b.drop_first());
            assert(a =~= seq![a[0]] + a.drop_first());
            assert(b =~= seq![b[0]] + b.drop_first());
        } else {
            assert(a[0] < b[0] || b[0] < a[0]);
        }
    } else {
        assert(a.len() == 0 && b.len() == 0);
        assert(a =~= b);
    }
}

/// Inserting before the first element that `x` sorts no later than.
proof fn lemma_insert_at(x: (Seq<char>, Seq<char>), s: Seq<(Seq<char>, Seq<char>)>, k: int)
    requires
        0 <= k <= s.len(),
        forall|j: int| 0 <= j < k ==> !pair_le(x, #[trigger] s[j]),
        k < s.len() ==> pair_le(x, s[k]),
    ensures
        insert_sorted(x, s) == s.take(k) + seq![x] + s.skip(k),
    decreases k,
{
    if s.len() == 0 {
        assert(s.take(k) + seq![x] + s.skip(k) =~= seq![x]);
    } else if k == 0 {
        assert(s.take(0) + seq![x] + s.skip(0) =~= seq![x] + s);
    } else {
        let t = s.drop_first();
        assert forall|j: int| 0 <= j < k - 1 implies !pair_le(x, #[trigger] t[j]) by {
            assert(t[j] == s[j + 1]);
        }
        if k - 1 < t.len() {
            assert(t[k - 1] == s[k]);
        }
        lemma_insert_at(x, t, k - 1);
        assert(seq![s[0]] + (t.take(k - 1) + seq![x] + t.skip(k - 1)) =~= s.take(k) + seq![x] + s.skip(k));
    }
}

/// The pairs sorted, by insertion.
fn sort_text_pairs(v: Vec<(Vec<char>, Vec<char>)>) -> (r: Vec<(Vec<char>, Vec<char>)>)
    ensures
        pairs_view(r@) == sort_pairs(pairs_view(v@)),
{
    let mut out: Vec<(Vec<char>, Vec<char>)> = Vec::new();
    let mut i: usize = 0;
    proof {
        assert(pairs_view(v@.subrange(0, 0)) =~= Seq::<(Seq<char>, Seq<char>)>::empty());
        assert(pairs_view(out@) =~= Seq::<(Seq<char>, Seq<char>)>::empty());
    }
    while i < v.len()
        invariant
            i <= v@.len(),
            pairs_view(out@) == sort_pairs(pairs_view(v@.subrange(0, i as int))),
        decreases v.len() - i,
    {
        let x = (v[i].0.clone(), v[i].1.clone());
        let ghost xv = (x.0@, x.1@);
        let ghost before = pairs_view(out@);
        let mut k: usize = 0;
        while k < out.len() && !pair_leq(&x, &out[k])
            invariant
                k <= out@.len(),
                before == pairs_view(out@),
                xv == (x.0@, x.1@),
                forall|j: int| 0 <= j < k ==> !pair_le(xv, #[trigger] before[j]),
            decreases out.len() - k,
        {
            k += 1;
        }
        proof {
            lemma_insert_at(xv, before, k as int);
            assert(pairs_view(v@.subrange(0, i + 1)).drop_last() =~= pairs_view(v@.subrange(0, i as int)));
            assert(pairs_view(v@.subrange(0, i + 1)).last() == xv);
        }
        out.insert(k, x);
        proof {
            assert(pairs_view(out@) =~= before.take(k as int) + seq![xv] + before.skip(k as int));
        }
        i += 1;
    }
    proof {
        assert(v@.subrange(0, v@.len() as int) =~= v@);
    }
    out
}

/// Appends `parts` joined with `sep` to `out`.
pub(crate) fn push_joined(out: &mut String, parts: &Vec<Vec<char>>, sep: &str)
    ensures
        final(out)@ == old(out)@ + join_texts(parts@.map_values(|p: Vec<char>| p@), sep@),
{
    let ghost ps = parts@.map_values(|p: Vec<char>| p@);
    let mut i: usize = 0;
    proof {
        assert(ps.subrange(0, 0) =~= Seq::<Seq<char>>::empty());
    }
    while i < parts.len()
        invariant
            i <= parts@.len(),
            ps == parts@.map_values(|p: Vec<char>| p@),
            out@ == old(out)@ + join_texts(ps.subrange(0, i as int), sep@),
        decreases parts.len() - i,
    {
        let ghost before = out@;
        if i > 0 {
            push_str(out, sep);
        }
        let s = crate::text::string_of(parts[i].as_slice());
        push_str(out, s.as_str());
        proof {
            let pre = ps.subrange(0, i as int);
            let nxt = ps.subrange(0, i + 1);
            assert(nxt.drop_last() =~= pre);
            assert(nxt.last() == parts@[i as int]@);
            if i == 0 {
                assert(nxt.len() == 1);
                assert(join_texts(pre, sep@) =~= Seq::<char>::empty());
            }
        }
        i += 1;
    }
    proof {
        assert(ps.subrange(0, parts@.len() as int) =~= ps);
    }
}

/// Appends the escaped characters of `s` to `out`.
fn push_escaped(out: &mut String, s: &str)
    ensures
        final(out)@ == old(out)@ + escape_text(s@),
{
    let cs = chars_of(s);
    let mut i: usize = 0;
    while i < cs.len()
        invariant
            cs@ == s@,
            i <= cs@.len(),
            out@ == old(out)@ + escape_text(s@.subrange(0, i as int)),
        decreases cs.len() - i,
    {
        let c = cs[i];
        let ghost before = out@;
        if c == '\\' {
            push_char(out, '\\');
            push_char(out, '\\');
        } else if c == '"' {
            push_char(out, '\\');
            push_char(out, '"');
        } else if c == '\n' {
            push_char(out, '\\');
            push_char(out, 'n');
        } else if c == '\t' {
            push_char(out, '\\');
            push_char(out, 't');
        } else if c == '\r' {
            push_char(out, '\\');
            push_char(out, 'r');
        } else {
            push_char(out, c);
        }
        proof {
            assert(s@.subrange(0, i + 1).drop_last() =~= s@.subrange(0, i as int));
            assert(s@.subrange(0, i + 1).last() == c);
            assert(out@ =~= before + escape_char(c));
        }
        i += 1;
    }
    proof {
        assert(s@.subrange(0, cs@.len() as int) =~= s@);
    }
}

/// Appends the text of a key to `out`.
fn push_key_text(out: &mut String, k: &crate::key::Key, readable: bool)
    ensures
        final(out)@ == old(out)@ + key_text(k@, readable),
{
    match k {
        crate::key::Key::Nil => {
            if readable {
                push_str(out, "nil");
            } else {
                proof {
                    assert(old(out)@ + key_text(k@, readable) =~= old(out)@);
                }
            }
        },
        crate::key::Key::Bool(b) => {
            if *b {
                push_str(out, "true");
            } else {
                push_str(out, "false");
            }
        },
        crate::key::Key::Long(n) => push_decimal(out, *n),
        crate::key::Key::Str(s) => {
            if readable {
                let ghost o = out@;
                push_char(out, '"');
                push_escaped(out, s.as_str());
                push_char(out, '"');
                proof {
                    assert(out@ =~= o + (seq!['"'] + escape_text(s@) + seq!['"']));
                }
            } else {
                push_str(out, s.as_str());
            }
        },
        crate::key::Key::Keyword(s) => {
            let ghost o = out@;
            push_char(out, ':');
            push_str(out, s.as_str());
            proof {
                assert(out@ =~= o + (seq![':'] + s@));
            }
        },
        crate::key::Key::Symbol(s) => push_str(out, s.as_str()),
        crate::key::Key::Identity(t, _) => {
            if readable {
                push_str(out, identity_text_of(*t));
            } else {
                let ghost o = out@;
                push_char(out, '#');
                push_char(out, '<');
                push_str(out, tag_name_of(*t));
                push_char(out, '>');
                proof {
                    assert(out@ =~= o + (seq!['#', '<'] + tag_name(*t) + seq!['>']));
                }
            }
        },
    }
}

/// The name of a tag.
pub(crate) fn tag_name_of(t: ValueTag) -> (r: &'static str)
    ensures
        r@ == tag_name(t),
{
    match t {
        ValueTag::Long => "Long",
        ValueTag::Double => "Double",
        ValueTag::List => "List",
        ValueTag::Vector => "Vector",
        ValueTag::HashMap => "HashMap",
        ValueTag::String => "String",
        ValueTag::Keyword => "Keyword",
        ValueTag::Symbol => "Symbol",
        ValueTag::Bool => "Bool",
        ValueTag::Nil => "Nil",
        ValueTag::HashSet => "HashSet",
        ValueTag::Atom => "Atom",
        ValueTag::Ref => "Ref",
        ValueTag::Agent => "Agent",
        ValueTag::Channel => "Channel",
        ValueTag::Function => "Function",
        ValueTag::Var => "Var",
        ValueTag::MultiArityFunction => "MultiArityFunction",
        ValueTag::OpaquePointer => "OpaquePointer",
    }
}

/// The readable text of a value known by its identity.
fn identity_text_of(t: ValueTag) -> (r: &'static str)
    ensures
        r@ == identity_text(t),
{
    match t {
        ValueTag::Function => "#<function>",
        ValueTag::MultiArityFunction => "#<function>",
        ValueTag::Atom => "#<atom>",
        ValueTag::Ref => "#<ref>",
        ValueTag::Agent => "#<agent>",
        ValueTag::Channel => "#<channel>",
        ValueTag::Var => "#<var>",
        _ => "#<opaque-pointer>",
    }
}

/// The text of a value, as characters.
fn render_chars(v: &Value, readable: bool) -> (r: Vec<char>)
    ensures
        r@ == render(*v, readable),
    decreases value_size(*v), 2nat,
{
    let mut buf = String::new();
    push_render(&mut buf, v, readable);
    proof {
        assert(buf@ =~= render(*v, readable));
    }
    chars_of(buf.as_str())
}

/// The text of a key, as characters.
fn key_chars(k: &crate::key::Key, readable: bool) -> (r: Vec<char>)
    ensures
        r@ == key_text(k@, readable),
{
    let mut buf = String::new();
    push_key_text(&mut buf, k, readable);
    proof {
        assert(buf@ =~= key_text(k@, readable));
    }
    chars_of(buf.as_str())
}

/// `a` followed by a space and `b`.
fn spaced(a: &Vec<char>, b: &Vec<char>) -> (r: Vec<char>)
    ensures
        r@ == a@ + seq![' '] + b@,
{
    let mut out: Vec<char> = Vec::new();
    let mut i: usize = 0;
    while i < a.len()
        invariant
            i <= a@.len(),
            out@ == a@.subrange(0, i as int),
        decreases a.len() - i,
    {
        out.push(a[i]);
        proof {
            assert(out@ =~= a@.subrange(0, i + 1));
        }
        i += 1;
    }
    out.push(' ');
    let mut j: usize = 0;
    while j < b.len()
        invariant
            i == a@.len(),
            j <= b@.len(),
            out@ == a@ + seq![' '] + b@.subrange(0, j as int),
        decreases b.len() - j,
    {
        out.push(b[j]);
        proof {
            assert(out@ =~= a@ + seq![' '] + b@.subrange(0, j + 1));
        }
        j += 1;
    }
    proof {
        assert(a@.subrange(0, a@.len() as int) =~= a@);
        assert(b@.subrange(0, b@.len() as int) =~= b@);
    }
    out
}

/// Appends the text of `v` to `out`.
pub fn push_render(out: &mut String, v: &Value, readable: bool)
    ensures
        final(out)@ == old(out)@ + render(*v, readable),
    decreases value_size(*v), 1nat,
{
    let ghost o = out@;
    match v {
        Value::Vector(xs) => {
            let ghost parts = seq_parts(*v, readable);
            push_char(out, '[');
            let mut i: usize = 0;
            proof {
                assert(parts.subrange(0, 0) =~= Seq::<Seq<char>>::empty());
            }
            while i < xs.len()
                invariant
                    i <= xs@.len(),
                    *v == Value::Vector(*xs),
                    parts == seq_parts(*v, readable),
                    parts.len() == xs@.len(),
                    forall|q: int| 0 <= q < xs@.len() ==> #[trigger] parts[q] == part_text(xs@[q], *v, readable),
                    out@ == o + seq!['['] + join_texts(parts.subrange(0, i as int), seq![' ']),
                decreases xs.len() - i,
            {
                let ghost before = out@;
                if i > 0 {
                    push_char(out, ' ');
                }
                proof {
                    lemma_vector_elem_smaller(xs, i as int);
                }
                push_render(out, &xs[i], readable);
                proof {
                    let nxt = parts.subrange(0, i + 1);
                    assert(nxt.drop_last() =~= parts.subrange(0, i as int));
                    assert(nxt.last() == render(xs@[i as int], readable));
                    if i == 0 {
                        assert(join_texts(parts.subrange(0, 0), seq![' ']) =~= Seq::<char>::empty());
                    }
                    assert(out@ =~= o + seq!['['] + join_texts(nxt, seq![' ']));
                }
                i += 1;
            }
            push_char(out, ']');
            proof {
                assert(parts.subrange(0, xs@.len() as int) =~= parts);
                assert(out@ =~= o + render(*v, readable));
            }
        },
        Value::List(l) => {
            let items = l.to_vec_refs();
            let ghost parts = seq_parts(*v, readable);
            push_char(out, '(');
            let mut i: usize = 0;
            proof {
                assert(parts.subrange(0, 0) =~= Seq::<Seq<char>>::empty());
            }
            while i < items.len()
                invariant
                    i <= items@.len(),
                    items@.len() == l.view().len(),
                    forall|t: int| 0 <= t < items@.len() ==> *(#[trigger] items@[t]) == l.view()[t],
                    *v == Value::List(*l),
                    parts == seq_parts(*v, readable),
                    parts.len() == l.view().len(),
                    forall|q: int| 0 <= q < l.view().len() ==> #[trigger] parts[q] == part_text(l.view()[q], *v, readable),
                    out@ == o + seq!['('] + join_texts(parts.subrange(0, i as int), seq![' ']),
                decreases items.len() - i,
            {
                if i > 0 {
                    push_char(out, ' ');
                }
                proof {
                    lemma_list_elem_smaller(l, i as int);
                    assert(*items@[i as int] == l.view()[i as int]);
                }
                push_render(out, items[i], readable);
                proof {
                    let nxt = parts.subrange(0, i + 1);
                    assert(nxt.drop_last() =~= parts.subrange(0, i as int));
                    assert(nxt.last() == render(l.view()[i as int], readable));
                    if i == 0 {
                        assert(join_texts(parts.subrange(0, 0), seq![' ']) =~= Seq::<char>::empty());
                    }
                    assert(out@ =~= o + seq!['('] + join_texts(nxt, seq![' ']));
                }
                i += 1;
            }
            push_char(out, ')');
            proof {
                assert(parts.subrange(0, l.view().len() as int) =~= parts);
                assert(out@ =~= o + render(*v, readable));
            }
        },
        Value::HashMap(m) => {
            let es = m.entry_list();
            let ghost ks = m.key_order();
            let ghost raw = entry_pairs(*v, readable);
            let mut pairs: Vec<(Vec<char>, Vec<char>)> = Vec::new();
            let mut j: usize = 0;
            while j < es.len()
                invariant
                    j <= es@.len(),
                    es@ == crate::hamt::opt_entries(m.root),
                    es@.len() == ks.len(),
                    ks == m.key_order(),
                    forall|t: int| 0 <= t < es@.len() ==> (#[trigger] es@[t]).key@ == ks[t],
                    forall|t: int|
                        0 <= t < es@.len() ==> m.view().contains_key((#[trigger] es@[t]).key@)
                            && m.view()[es@[t].key@] == es@[t].val,
                    *v == Value::HashMap(*m),
                    raw.len() == ks.len(),
                    forall|q: int| 0 <= q < ks.len() ==> #[trigger] raw[q] == (key_text(ks[q], readable), part_text(m.view()[ks[q]], *v, readable)),
                    pairs_view(pairs@) == raw.subrange(0, j as int),
                decreases es.len() - j,
            {
                proof {
                    assert(crate::hamt::opt_entries(m.root)[j as int] == es@[j as int]);
                    lemma_map_entry_size(*m, es@[j as int]);
                }
                let kt = key_chars(&es[j].key, readable);
                let vt = render_chars(&es[j].val, readable);
                let ghost old_pairs = pairs@;
                proof {
                    assert(es@[j as int].key@ == ks[j as int]);
                    assert(raw[j as int] == (kt@, vt@));
                    assert(pairs_view(old_pairs) == raw.subrange(0, j as int));
                }
                let item = (kt, vt);
                let ghost iv = item;
                pairs.push(item);
                proof {
                    assert(pairs_view(old_pairs).len() == old_pairs.len());
                    assert(pairs@ == old_pairs.push(iv));
                    assert forall|q: int| 0 <= q < j + 1 implies pairs_view(pairs@)[q] == raw.subrange(0, j + 1)[q] by {
                        if q < j {
                            assert(pairs@[q] == old_pairs[q]);
                            assert(pairs_view(old_pairs)[q] == raw.subrange(0, j as int)[q]);
                        }
                    }
                    assert(pairs_view(pairs@) =~= raw.subrange(0, j + 1));
                }
                j += 1;
            }
            proof {
                assert(raw.subrange(0, es@.len() as int) =~= raw);
            }
            let sorted = sort_text_pairs(pairs);
            let mut parts: Vec<Vec<char>> = Vec::new();
            let mut t: usize = 0;
            while t < sorted.len()
                invariant
                    t <= sorted@.len(),
                    parts@.len() == t,
                    forall|q: int| 0 <= q < t ==> (#[trigger] parts@[q])@ == sorted@[q].0@ + seq![' '] + sorted@[q].1@,
                decreases sorted.len() - t,
            {
                parts.push(spaced(&sorted[t].0, &sorted[t].1));
                t += 1;
            }
            push_char(out, '{');
            push_joined(out, &parts, " ");
            push_char(out, '}');
            proof {
                let sv = sort_pairs(raw);
                assert(pairs_view(sorted@) == sv);
                assert(parts@.map_values(|p: Vec<char>| p@) =~= sv.map_values(
                    |p: (Seq<char>, Seq<char>)| entry_text(p),
                )) by {
                    assert forall|q: int| 0 <= q < parts@.len() implies parts@[q]@ == sv[q].0 + seq![' '] + sv[q].1 by {
                        assert(pairs_view(sorted@)[q] == (sorted@[q].0@, sorted@[q].1@));
                    }
                }
                assert(" "@ =~= seq![' ']) by {
                    reveal_strlit(" ");
                }
                assert(out@ =~= o + render(*v, readable));
            }
        },
        Value::HashSet(s) => {
            let vs = s.values();
            let ghost ks = s.elem_order();
            let ghost raw = entry_pairs(*v, readable);
            let mut pairs: Vec<(Vec<char>, Vec<char>)> = Vec::new();
            let mut j: usize = 0;
            while j < vs.len()
                invariant
                    j <= vs@.len(),
                    vs@.len() == ks.len(),
                    forall|t: int| 0 <= t < vs@.len() ==> (#[trigger] vs@[t])@ == ks[t],
                    raw.len() == ks.len(),
                    forall|q: int| 0 <= q < ks.len() ==> #[trigger] raw[q] == (key_text(ks[q], readable), Seq::<char>::empty()),
                    pairs_view(pairs@) == raw.subrange(0, j as int),
                decreases vs.len() - j,
            {
                let kt = key_chars(&vs[j], readable);
                let e: Vec<char> = Vec::new();
                let ghost old_pairs = pairs@;
                proof {
                    assert(raw[j as int] == (kt@, e@));
                }
                let item = (kt, e);
                let ghost iv = item;
                pairs.push(item);
                proof {
                    assert(pairs_view(old_pairs).len() == old_pairs.len());
                    assert(pairs@ == old_pairs.push(iv));
                    assert forall|q: int| 0 <= q < j + 1 implies pairs_view(pairs@)[q] == raw.subrange(0, j + 1)[q] by {
                        if q < j {
                            assert(pairs@[q] == old_pairs[q]);
                            assert(pairs_view(old_pairs)[q] == raw.subrange(0, j as int)[q]);
                        }
                    }
                    assert(pairs_view(pairs@) =~= raw.subrange(0, j + 1));
                }
                j += 1;
            }
            proof {
                assert(raw.subrange(0, vs@.len() as int) =~= raw);
            }
            let sorted = sort_text_pairs(pairs);
            let mut parts: Vec<Vec<char>> = Vec::new();
            let mut t: usize = 0;
            while t < sorted.len()
                invariant
                    t <= sorted@.len(),
                    parts@.len() == t,
                    forall|q: int| 0 <= q < t ==> (#[trigger] parts@[q])@ == sorted@[q].0@,
                decreases sorted.len() - t,
            {
                parts.push(sorted[t].0.clone());
                t += 1;
            }
            push_char(out, '#');
            push_char(out, '{');
            push_joined(out, &parts, " ");
            push_char(out, '}');
            proof {
                let sv = sort_pairs(raw);
                assert(pairs_view(sorted@) == sv);
                assert(parts@.map_values(|p: Vec<char>| p@) =~= sv.map_values(
                    |p: (Seq<char>, Seq<char>)| elem_text(p),
                )) by {
                    assert forall|q: int| 0 <= q < parts@.len() implies parts@[q]@ == sv[q].0 by {
                        assert(pairs_view(sorted@)[q] == (sorted@[q].0@, sorted@[q].1@));
                    }
                }
                assert(" "@ =~= seq![' ']) by {
                    reveal_strlit(" ");
                }
                assert(out@ =~= o + render(*v, readable));
            }
        },
        Value::Identity(t, _) => {
            if readable {
                push_str(out, identity_text_of(*t));
            } else {
                push_char(out, '#');
                push_char(out, '<');
                push_str(out, tag_name_of(*t));
                push_char(out, '>');
                proof {
                    assert(out@ =~= o + render(*v, readable));
                }
            }
        },
        _ => {
            match v.as_key() {
                Some(k) => push_key_text(out, &k, readable),
                None => {},
            }
        },
    }
}

/// The readable text of a value (`pr-str`).
pub fn value_to_pr_string(v: &Value) -> (r: String)
    ensures
        r@ == render(*v, true),
{
    let mut out = String::new();
    push_render(&mut out, v, true);
    proof {
        assert(out@ =~= render(*v, true));
    }
    out
}

/// The display text of a value (`str` of one value).
pub fn value_to_rust_string(v: &Value) -> (r: String)
    ensures
        r@ == render(*v, false),
{
    let mut out = String::new();
    push_render(&mut out, v, false);
    proof {
        assert(out@ =~= render(*v, false));
    }
    out
}

/// `(pr-str v)`: a string value holding the readable text.
pub fn clorus_pr_str(v: &Value) -> (r: Value)
    ensures
        r matches Value::Str(s) && s@ == render(*v, true),
{
    Value::Str(value_to_pr_string(v))
}

/// The display texts of `xs` concatenated.
pub open spec fn concat_display(xs: Seq<Value>) -> Seq<char>
    decreases xs.len(),
{
    if xs.len() == 0 {
        Seq::empty()
    } else {
        concat_display(xs.drop_last()) + render(xs.last(), false)
    }
}

/// `(str a b ...)`, with the arguments given as a vector: their display
/// texts concatenated; empty when not given a vector.
pub fn clorus_str(args: &Value) -> (r: Value)
    ensures
        r matches Value::Str(s) && s@ == match *args {
            Value::Vector(xs) => concat_display(xs@),
            _ => Seq::<char>::empty(),
        },
{
    let mut out = String::new();
    match args {
        Value::Vector(xs) => {
            let mut i: usize = 0;
            proof {
                assert(out@ =~= concat_display(xs@.subrange(0, 0)));
            }
            while i < xs.len()
                invariant
                    i <= xs@.len(),
                    out@ == concat_display(xs@.subrange(0, i as int)),
                decreases xs.len() - i,
            {
                push_render(&mut out, &xs[i], false);
                proof {
                    assert(xs@.subrange(0, i + 1).drop_last() =~= xs@.subrange(0, i as int));
                }
                i += 1;
            }
            proof {
                assert(xs@.subrange(0, xs@.len() as int) =~= xs@);
            }
        },
        _ => {
            proof {
                assert(out@ =~= Seq::<char>::empty());
            }
        },
    }
    Value::Str(out)
}


pub(crate) proof fn lemma_lt_irrefl(a: Seq<char>)
    ensures
        !text_lt(a, a),
    decreases a.len(),
{
    if a.len() > 0 {
        lemma_lt_irrefl(a.drop_first());
    }
}

pub(crate) proof fn lemma_lt_asym(a: Seq<char>, b: Seq<char>)
    ensures
        text_lt(a, b) ==> !text_lt(b, a),
    decreases a.len(),
{
    if a.len() > 0 && b.len() > 0 && a[0] == b[0] {
        lemma_lt_asym(a.drop_first(), b.drop_first());
    }
}

proof fn lemma_lt_trans(a: Seq<char>, b: Seq<char>, c: Seq<char>)
    ensures
        text_lt(a, b) && text_lt(b, c) ==> text_lt(a, c),
    decreases a.len(),
{
    if a.len() > 0 && b.len() > 0 && c.len() > 0 {
        lemma_lt_trans(a.drop_first(), b.drop_first(), c.drop_first());
    }
}

pub(crate) proof fn lemma_lt_total(a: Seq<char>, b: Seq<char>)
    ensures
        a != b ==> text_lt(a, b) || text_lt(b, a),
    decreases a.len(),
{
    if a.len() > 0 && b.len() > 0 && a[0] == b[0] {
        lemma_lt_total(a.drop_first(), b.drop_first());
        if a.drop_first() == b.drop_first() {
            assert(a =~= seq![a[0]] + a.drop_first());
            assert(b =~= seq![b[0]] + b.drop_first());
        }
    } else if a.len() == 0 && b.len() == 0 {
        assert(a =~= b);
    }
}

/// Any two pairs sort one way or the other.
proof fn lemma_pair_total(a: (Seq<char>, Seq<char>), b: (Seq<char>, Seq<char>))
    ensures
        pair_le(a, b) || pair_le(b, a),
{
    lemma_lt_total(a.0, b.0);
    lemma_lt_asym(a.1, b.1);
}

/// Pairs that sort both ways are equal.
proof fn lemma_pair_antisym(a: (Seq<char>, Seq<char>), b: (Seq<char>, Seq<char>))
    ensures
        pair_le(a, b) && pair_le(b, a) ==> a == b,
{
    lemma_lt_asym(a.0, b.0);
    lemma_lt_irrefl(a.0);
    lemma_lt_total(a.1, b.1);
}

/// Sorting no later is transitive.
proof fn lemma_pair_trans(a: (Seq<char>, Seq<char>), b: (Seq<char>, Seq<char>), c: (Seq<char>, Seq<char>))
    ensures
        pair_le(a, b) && pair_le(b, c) ==> pair_le(a, c),
{
    lemma_lt_trans(a.0, b.0, c.0);
    lemma_lt_trans(c.1, b.1, a.1);
    lemma_lt_total(a.1, b.1);
    lemma_lt_total(b.1, c.1);
    lemma_lt_asym(c.1, a.1);
    lemma_lt_trans(a.1, b.1, c.1);
    lemma_lt_asym(a.1, c.1);
    lemma_lt_irrefl(a.1);
    if pair_le(a, b) && pair_le(b, c) && a.0 == b.0 && b.0 == c.0 {
        if text_lt(c.1, a.1) {
            if a.1 == b.1 {
            } else if text_lt(a.1, b.1) {
                if b.1 == c.1 {
                    lemma_lt_asym(a.1, c.1);
                } else {
                    lemma_lt_trans(a.1, b.1, c.1);
                    lemma_lt_asym(a.1, c.1);
                }
            }
        }
    }
}

/// Inserting two pairs gives the same result in either order.
proof fn lemma_insert_commutes(a: (Seq<char>, Seq<char>), b: (Seq<char>, Seq<char>), s: Seq<(Seq<char>, Seq<char>)>)
    ensures
        insert_sorted(a, insert_sorted(b, s)) == insert_sorted(b, insert_sorted(a, s)),
    decreases s.len(),
{
    lemma_pair_total(a, b);
    lemma_pair_antisym(a, b);
    if s.len() == 0 {
        assert(insert_sorted(b, s) =~= seq![b]);
        assert(insert_sorted(a, s) =~= seq![a]);
        assert(seq![b].drop_first() =~= Seq::<(Seq<char>, Seq<char>)>::empty());
        assert(seq![a].drop_first() =~= Seq::<(Seq<char>, Seq<char>)>::empty());
        let e = Seq::<(Seq<char>, Seq<char>)>::empty();
        assert(insert_sorted(a, e) =~= seq![a]);
        assert(insert_sorted(b, e) =~= seq![b]);
        assert(seq![b][0] == b);
        assert(seq![a][0] == a);
        let l = insert_sorted(a, seq![b]);
        let r = insert_sorted(b, seq![a]);
        assert(l == if pair_le(a, b) {
            seq![a] + seq![b]
        } else {
            seq![b] + insert_sorted(a, e)
        });
        assert(r == if pair_le(b, a) {
            seq![b] + seq![a]
        } else {
            seq![a] + insert_sorted(b, e)
        });
        assert(l =~= r);
    } else {
        let s0 = s[0];
        let rest = s.drop_first();
        lemma_pair_trans(a, b, s0);
        lemma_pair_trans(b, a, s0);
        if pair_le(b, s0) && pair_le(a, s0) {
            assert((seq![b] + s)[0] == b);
            assert((seq![b] + s).drop_first() =~= s);
            assert((seq![a] + s)[0] == a);
            assert((seq![a] + s).drop_first() =~= s);
            assert(insert_sorted(a, insert_sorted(b, s)) =~= insert_sorted(b, insert_sorted(a, s)));
        } else if pair_le(a, s0) {
            let ib = seq![s0] + insert_sorted(b, rest);
            assert(ib[0] == s0);
            assert(ib.drop_first() =~= insert_sorted(b, rest));
            assert((seq![a] + s)[0] == a);
            assert((seq![a] + s).drop_first() =~= s);
            assert(insert_sorted(a, insert_sorted(b, s)) =~= insert_sorted(b, insert_sorted(a, s)));
        } else if pair_le(b, s0) {
            let ia = seq![s0] + insert_sorted(a, rest);
            assert(ia[0] == s0);
            assert(ia.drop_first() =~= insert_sorted(a, rest));
            assert((seq![b] + s)[0] == b);
            assert((seq![b] + s).drop_first() =~= s);
            assert(insert_sorted(a, insert_sorted(b, s)) =~= insert_sorted(b, insert_sorted(a, s)));
        } else {
            let ib = seq![s0] + insert_sorted(b, rest);
            let ia = seq![s0] + insert_sorted(a, rest);
            assert(ib[0] == s0);
            assert(ib.drop_first() =~= insert_sorted(b, rest));
            assert(ia[0] == s0);
            assert(ia.drop_first() =~= insert_sorted(a, rest));
            lemma_insert_commutes(a, b, rest);
            assert(insert_sorted(a, insert_sorted(b, s)) =~= insert_sorted(b, insert_sorted(a, s)));
        }
    }
}

/// Sorting gives the same as sorting without one pair and inserting it.
proof fn lemma_sort_remove(s: Seq<(Seq<char>, Seq<char>)>, j: int)
    requires
        0 <= j < s.len(),
    ensures
        sort_pairs(s) == insert_sorted(s[j], sort_pairs(s.remove(j))),
    decreases s.len(),
{
    if j == s.len() - 1 {
        assert(s.remove(j) =~= s.drop_last());
    } else {
        let d = s.drop_last();
        lemma_sort_remove(d, j);
        assert(d[j] == s[j]);
        lemma_insert_commutes(s.last(), s[j], sort_pairs(d.remove(j)));
        assert(s.remove(j).drop_last() =~= d.remove(j));
        assert(s.remove(j).last() == s.last());
    }
}

/// Sorting the pairs of two lists of the same distinct keys, where the
/// keys' pairs agree, gives the same result.
proof fn lemma_sort_permutation(
    s1: Seq<KeyView>,
    s2: Seq<KeyView>,
    f: spec_fn(KeyView) -> (Seq<char>, Seq<char>),
    g: spec_fn(KeyView) -> (Seq<char>, Seq<char>),
)
    requires
        s1.no_duplicates(),
        s2.no_duplicates(),
        forall|k: KeyView| s1.contains(k) <==> s2.contains(k),
        forall|k: KeyView| s1.contains(k) ==> f(k) == g(k),
    ensures
        sort_pairs(s1.map_values(f)) == sort_pairs(s2.map_values(g)),
    decreases s1.len(),
{
    if s1.len() == 0 {
        if s2.len() > 0 {
            assert(s2.contains(s2[0]));
        }
        assert(s2.map_values(g) =~= Seq::<(Seq<char>, Seq<char>)>::empty());
        assert(s1.map_values(f) =~= Seq::<(Seq<char>, Seq<char>)>::empty());
    } else {
        let x = s1.last();
        assert(s1.contains(x));
        let j = choose|j: int| 0 <= j < s2.len() && s2[j] == x;
        let d1 = s1.drop_last();
        let d2 = s2.remove(j);
        assert forall|k: KeyView| d1.contains(k) <==> d2.contains(k) by {
            if d1.contains(k) {
                let a = choose|a: int| 0 <= a < d1.len() && d1[a] == k;
                assert(s1[a] == k);
                assert(k != x);
                assert(s2.contains(k));
                let b = choose|b: int| 0 <= b < s2.len() && s2[b] == k;
                assert(b != j);
                if b < j {
                    assert(d2[b] == k);
                } else {
                    assert(d2[b - 1] == k);
                }
            }
            if d2.contains(k) {
                let b = choose|b: int| 0 <= b < d2.len() && d2[b] == k;
                if b < j {
                    assert(s2[b] == k);
                } else {
                    assert(s2[b + 1] == k);
                }
                assert(k != x);
                assert(s1.contains(k));
                let a = choose|a: int| 0 <= a < s1.len() && s1[a] == k;
                assert(a != s1.len() - 1);
                assert(d1[a] == k);
            }
        }
        assert forall|k: KeyView| d1.contains(k) implies f(k) == g(k) by {
            let a = choose|a: int| 0 <= a < d1.len() && d1[a] == k;
            assert(s1[a] == k);
            assert(s1.contains(k));
        }
        assert(d2.no_duplicates()) by {
            assert forall|a: int, b: int| 0 <= a < d2.len() && 0 <= b < d2.len() && a != b implies d2[a]
                != d2[b] by {
                let a2 = if a < j {
                    a
                } else {
                    a + 1
                };
                let b2 = if b < j {
                    b
                } else {
                    b + 1
                };
                assert(d2[a] == s2[a2]);
                assert(d2[b] == s2[b2]);
            }
        }
        lemma_sort_permutation(d1, d2, f, g);
        assert(s1.map_values(f).drop_last() =~= d1.map_values(f));
        assert(s2.map_values(g).remove(j) =~= d2.map_values(g));
        lemma_sort_remove(s2.map_values(g), j);
    }
}

/// Structurally equal values print alike; in particular maps with equal
/// entries, and sets with equal elements, print alike whatever order their
/// tries hold them in.
pub proof fn law_equal_values_print_alike(a: Value, b: Value, readable: bool)
    requires
        well_formed_value(a),
        well_formed_value(b),
        deep_eq(a, b),
    ensures
        render(a, readable) == render(b, readable),
    decreases value_size(a),
{
    match (a, b) {
        (Value::Vector(x), Value::Vector(y)) => {
            assert forall|i: int| 0 <= i < x@.len() implies #[trigger] seq_parts(a, readable)[i] == seq_parts(
                b,
                readable,
            )[i] by {
                lemma_vector_elem_smaller(&x, i);
                lemma_vector_elem_smaller(&y, i);
                law_equal_values_print_alike(x@[i], y@[i], readable);
            }
            assert(seq_parts(a, readable) =~= seq_parts(b, readable));
        },
        (Value::List(x), Value::List(y)) => {
            assert forall|i: int| 0 <= i < x.view().len() implies #[trigger] seq_parts(a, readable)[i]
                == seq_parts(b, readable)[i] by {
                lemma_list_elem_smaller(&x, i);
                lemma_list_elem_smaller(&y, i);
                law_equal_values_print_alike(x.view()[i], y.view()[i], readable);
            }
            assert(seq_parts(a, readable) =~= seq_parts(b, readable));
        },
        (Value::HashSet(x), Value::HashSet(y)) => {
            lemma_elem_order(x);
            lemma_elem_order(y);
            let f = |k: KeyView| (key_text(k, readable), Seq::<char>::empty());
            lemma_sort_permutation(x.elem_order(), y.elem_order(), f, f);
            assert(entry_pairs(a, readable) =~= x.elem_order().map_values(f));
            assert(entry_pairs(b, readable) =~= y.elem_order().map_values(f));
        },
        (Value::HashMap(x), Value::HashMap(y)) => {
            lemma_key_order(x);
            lemma_key_order(y);
            let f = |k: KeyView| (key_text(k, readable), part_text(x.view()[k], a, readable));
            let g = |k: KeyView| (key_text(k, readable), part_text(y.view()[k], b, readable));
            assert forall|k: KeyView| x.key_order().contains(k) implies f(k) == g(k) by {
                assert(y.view().dom().contains(k));
                lemma_map_value_smaller(x, k);
                lemma_map_value_smaller(y, k);
                law_equal_values_print_alike(x.view()[k], y.view()[k], readable);
            }
            assert forall|k: KeyView| x.key_order().contains(k) <==> y.key_order().contains(k) by {
                assert(x.view().dom().contains(k) == y.view().dom().contains(k));
            }
            lemma_sort_permutation(x.key_order(), y.key_order(), f, g);
            assert(entry_pairs(a, readable) =~= x.key_order().map_values(f));
            assert(entry_pairs(b, readable) =~= y.key_order().map_values(g));
        },
        _ => {},
    }
}


/// The characters that a readable string may not hold unescaped.
pub open spec fn needs_escape(c: char) -> bool {
    c == '\\' || c == '"' || c == '\n' || c == '\t' || c == '\r'
}

/// Reads back the inside of a readable string: a backslash followed by
/// `\\`, `"`, `n`, `t` or `r` stands for a backslash, a quote, a newline, a
/// tab or a carriage return; any other character stands for itself. None
/// when the text holds a raw backslash, quote, newline, tab or carriage
/// return, or an unknown escape.
pub open spec fn read_escaped(e: Seq<char>) -> Option<Seq<char>>
    decreases e.len(),
{
    if e.len() == 0 {
        Some(Seq::empty())
    } else if e[0] == '\\' {
        if e.len() < 2 {
            None
        } else {
            let c = if e[1] == '\\' {
                Some('\\')
            } else if e[1] == '"' {
                Some('"')
            } else if e[1] == 'n' {
                Some('\n')
            } else if e[1] == 't' {
                Some('\t')
            } else if e[1] == 'r' {
                Some('\r')
            } else {
                None
            };
            match (c, read_escaped(e.skip(2))) {
                (Some(c), Some(rest)) => Some(seq![c] + rest),
                _ => None,
            }
        }
    } else if needs_escape(e[0]) {
        None
    } else {
        match read_escaped(e.drop_first()) {
            Some(rest) => Some(seq![e[0]] + rest),
            None => None,
        }
    }
}

proof fn lemma_escape_prepend(c: char, s: Seq<char>)
    ensures
        escape_text(seq![c] + s) == escape_char(c) + escape_text(s),
    decreases s.len(),
{
    if s.len() == 0 {
        assert(seq![c] + s =~= seq![c]);
        assert(seq![c].drop_last() =~= Seq::<char>::empty());
        assert(escape_text(Seq::<char>::empty()) =~= Seq::<char>::empty());
        assert(escape_char(c) + escape_text(s) =~= escape_char(c));
        assert(Seq::<char>::empty() + escape_char(c) =~= escape_char(c));
    } else {
        lemma_escape_prepend(c, s.drop_last());
        assert((seq![c] + s).drop_last() =~= seq![c] + s.drop_last());
        assert((seq![c] + s).last() == s.last());
        assert(escape_char(c) + escape_text(s.drop_last()) + escape_char(s.last()) =~= escape_char(c) + (
        escape_text(s.drop_last()) + escape_char(s.last())));
    }
}

proof fn lemma_read_escape_char(c: char, t: Seq<char>)
    ensures
        read_escaped(escape_char(c) + t) == match read_escaped(t) {
            Some(r) => Some(seq![c] + r),
            None => None::<Seq<char>>,
        },
{
    let e = escape_char(c) + t;
    if needs_escape(c) {
        assert(e[0] == '\\');
        assert(e.skip(2) =~= t);
    } else {
        assert(e[0] == c);
        assert(e.drop_first() =~= t);
    }
}

/// A text that reads back holds no raw tab, newline or carriage return.
proof fn lemma_read_no_controls(e: Seq<char>)
    requires
        read_escaped(e) is Some,
    ensures
        forall|i: int| 0 <= i < e.len() ==> #[trigger] e[i] != '\t' && e[i] != '\n' && e[i] != '\r',
    decreases e.len(),
{
    if e.len() > 0 {
        if e[0] == '\\' {
            lemma_read_no_controls(e.skip(2));
            assert forall|i: int| 0 <= i < e.len() implies #[trigger] e[i] != '\t' && e[i] != '\n' && e[i] != '\r' by {
                if i >= 2 {
                    assert(e[i] == e.skip(2)[i - 2]);
                }
            }
        } else {
            lemma_read_no_controls(e.drop_first());
            assert forall|i: int| 0 <= i < e.len() implies #[trigger] e[i] != '\t' && e[i] != '\n' && e[i] != '\r' by {
                if i >= 1 {
                    assert(e[i] == e.drop_first()[i - 1]);
                }
            }
        }
    }
}

/// Reading back an escaped text gives the text.
proof fn lemma_read_escape_text(s: Seq<char>)
    ensures
        read_escaped(escape_text(s)) == Some(s),
    decreases s.len(),
{
    if s.len() == 0 {
        assert(escape_text(s) =~= Seq::<char>::empty());
        assert(s =~= Seq::<char>::empty());
    } else {
        let rest = s.drop_first();
        assert(s =~= seq![s[0]] + rest);
        lemma_escape_prepend(s[0], rest);
        lemma_read_escape_char(s[0], escape_text(rest));
        lemma_read_escape_text(rest);
    }
}

/// The readable form of a string is the string quoted, with every
/// backslash, quote, newline, tab and carriage return inside written as a
/// two-character backslash escape: the text between the quotes holds none
/// of them raw, and reading it back gives the string.
pub proof fn law_readable_string(s: String)
    ensures
        render(Value::Str(s), true).len() >= 2,
        render(Value::Str(s), true)[0] == '"',
        render(Value::Str(s), true).last() == '"',
        read_escaped(render(Value::Str(s), true).subrange(1, render(Value::Str(s), true).len() - 1)) == Some(s@),
        forall|i: int|
            0 < i < render(Value::Str(s), true).len() - 1 ==> #[trigger] render(Value::Str(s), true)[i] != '\t'
                && render(Value::Str(s), true)[i] != '\n' && render(Value::Str(s), true)[i] != '\r',
{
    let r = render(Value::Str(s), true);
    assert(r == seq!['"'] + escape_text(s@) + seq!['"']);
    assert(r.subrange(1, r.len() - 1) =~= escape_text(s@));
    lemma_read_escape_text(s@);
    lemma_read_no_controls(escape_text(s@));
    assert forall|i: int| 0 < i < r.len() - 1 implies #[trigger] r[i] != '\t' && r[i] != '\n' && r[i] != '\r' by {
        assert(r[i] == escape_text(s@)[i - 1]);
    }
}

} // verus!
