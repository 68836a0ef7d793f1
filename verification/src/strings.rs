//! String operations on values: substrings, splitting and joining, case,
//! trimming, search and replace, predicates and comparison. Arguments that
//! should be strings and are not give an empty string (or nil, 0, an empty
//! vector) as each function says.

use crate::printer::{join_texts, render, text_lt};
use crate::text::{chars_of, first_occurrence, has_infix, has_prefix, has_suffix, occurs_at, push_str, string_from, string_of_vec, trim_end_seq, trim_seq, trim_start_seq};
use crate::value::{spec_tag_index, tag_index, Value, ValueTag};
use std::rc::Rc;
use vstd::prelude::*;
use vstd::string::StringSliceAdditionalSpecFns;
use vstd::utf8::{encode_utf8, is_char_boundary};

verus! {

/// The text of a string value; none for other values.
pub open spec fn str_text(v: Value) -> Option<Seq<char>> {
    match v {
        Value::Str(s) => Some(s@),
        _ => None,
    }
}

/// The UTF-8 bytes of a text.
pub open spec fn bytes_of(s: Seq<char>) -> Seq<u8> {
    encode_utf8(s)
}

/// A string value holding `t`.
pub open spec fn is_str_of(r: Value, t: Seq<char>) -> bool {
    r matches Value::Str(s) && s@ == t
}

/// A string value whose UTF-8 bytes are `b`.
pub open spec fn is_str_bytes(r: Value, b: Seq<u8>) -> bool {
    r matches Value::Str(s) && encode_utf8(s@) == b
}

/// A clamped byte offset: negative offsets count as 0.
pub open spec fn clamp_start(i: i64) -> int {
    if i < 0 {
        0
    } else {
        i as int
    }
}

/// `subs` from `start` cuts the string at a character boundary (Rust
/// panics otherwise).
pub open spec fn subs2_ok(s: Value, start: i64) -> bool {
    match s {
        Value::Str(t) => bytes_of(t@).len() <= usize::MAX && (clamp_start(start) < bytes_of(t@).len()
            ==> is_char_boundary(bytes_of(t@), clamp_start(start))),
        _ => true,
    }
}

/// `subs` from `start` to `end` cuts the string at character boundaries.
pub open spec fn subs3_ok(s: Value, start: i64, end: i64) -> bool {
    match s {
        Value::Str(t) => {
            let n = bytes_of(t@).len() as int;
            n <= usize::MAX && (clamp_to(start, n) < clamp_to(end, n) ==> is_char_boundary(
                bytes_of(t@),
                clamp_to(start, n),
            ) && is_char_boundary(bytes_of(t@), clamp_to(end, n)))
        },
        _ => true,
    }
}

/// `(subs s start)`: the bytes of `s` from `start` (negative: 0) on;
/// empty when `start` is at or past the end, or `s` is not a string.
pub fn clorus_subs2(s: &Value, start: i64) -> (r: Value)
    requires
        subs2_ok(*s, start),
    ensures
        match str_text(*s) {
            Some(t) => if clamp_start(start) >= bytes_of(t).len() {
                is_str_of(r, Seq::empty())
            } else {
                is_str_bytes(r, bytes_of(t).subrange(clamp_start(start), bytes_of(t).len() as int))
            },
            None => is_str_of(r, Seq::empty()),
        },
{
    match s {
        Value::Str(t) => {
            let st: &str = t.as_str();
            let n = st.len();
            let k: usize = if start < 0 {
                0
            } else if (start as u64) < (n as u64) {
                start as usize
            } else {
                n
            };
            if k >= n {
                return Value::Str(String::new());
            }
            let (_, tail) = st.split_at(k);
            Value::Str(string_from(tail))
        },
        _ => Value::Str(String::new()),
    }
}

/// The end offset of `subs`: negative counts as 0, clamped to `len`.
pub open spec fn clamp_to(i: i64, len: int) -> int {
    if clamp_start(i) > len {
        len
    } else {
        clamp_start(i)
    }
}

/// `(subs s start end)`: the bytes of `s` from `start` up to `end`, both
/// clamped into the string; empty when the range is empty or `s` is not a
/// string.
pub fn clorus_subs3(s: &Value, start: i64, end: i64) -> (r: Value)
    requires
        subs3_ok(*s, start, end),
    ensures
        match str_text(*s) {
            Some(t) => {
                let a = clamp_to(start, bytes_of(t).len() as int);
                let b = clamp_to(end, bytes_of(t).len() as int);
                if a >= b {
                    is_str_of(r, Seq::empty())
                } else {
                    is_str_bytes(r, bytes_of(t).subrange(a, b))
                }
            },
            None => is_str_of(r, Seq::empty()),
        },
{
    match s {
        Value::Str(t) => {
            let st: &str = t.as_str();
            let n = st.len();
            let a: usize = if start < 0 {
                0
            } else if (start as u64) < (n as u64) {
                start as usize
            } else {
                n
            };
            let b: usize = if end < 0 {
                0
            } else if (end as u64) < (n as u64) {
                end as usize
            } else {
                n
            };
            if a >= b {
                return Value::Str(String::new());
            }
            let (head, _) = st.split_at(b);
            proof {
                let bytes = st.spec_bytes();
                vstd::utf8::encode_utf8_valid_utf8(st@);
                vstd::utf8::valid_utf8_split(bytes, b as int);
                if a > 0 {
                    vstd::utf8::is_char_boundary_iff_not_is_continuation_byte(bytes, a as int);
                    vstd::utf8::is_char_boundary_iff_not_is_continuation_byte(head.spec_bytes(), a as int);
                    assert(head.spec_bytes()[a as int] == bytes[a as int]);
                }
            }
            let (_, mid) = head.split_at(a);
            proof {
                assert(head.spec_bytes().subrange(a as int, head.spec_bytes().len() as int) =~= st.spec_bytes().subrange(a as int, b as int));
            }
            Value::Str(string_from(mid))
        },
        _ => Value::Str(String::new()),
    }
}

/// A string value's bytes can be counted in a `usize`.
pub open spec fn str_fits(v: Value) -> bool {
    match v {
        Value::Str(t) => bytes_of(t@).len() <= usize::MAX && bytes_of(t@).len() <= i64::MAX,
        _ => true,
    }
}

/// `(char-at s i)`: the `i`-th character as a string, when `i` is a valid
/// byte offset of `s` and `s` has more than `i` characters; nil otherwise.
pub fn clorus_char_at(s: &Value, index: i64) -> (r: Value)
    requires
        str_fits(*s),
    ensures
        match str_text(*s) {
            Some(t) => if 0 <= index < bytes_of(t).len() && index < t.len() {
                is_str_of(r, seq![t[index as int]])
            } else {
                r == Value::Nil
            },
            None => r == Value::Nil,
        },
{
    match s {
        Value::Str(t) => {
            let n = t.as_str().len();
            if index < 0 || (index as u64) >= (n as u64) {
                return Value::Nil;
            }
            let cs = chars_of(t.as_str());
            if (index as u64) < (cs.len() as u64) {
                let mut out = String::new();
                crate::text::push_char(&mut out, cs[index as usize]);
                proof {
                    assert(out@ =~= seq![t@[index as int]]);
                }
                Value::Str(out)
            } else {
                Value::Nil
            }
        },
        _ => Value::Nil,
    }
}

/// `p` occurs in the bytes `s` at `i`.
pub open spec fn bytes_occur_at(s: Seq<u8>, p: Seq<u8>, i: int) -> bool {
    0 <= i && i + p.len() <= s.len() && s.subrange(i, i + p.len()) == p
}

/// The first byte offset where `p` occurs in `s`, if any.
pub open spec fn first_byte_occurrence(s: Seq<u8>, p: Seq<u8>) -> Option<int> {
    if exists|i: int| bytes_occur_at(s, p, i) {
        Some(choose|i: int| bytes_occur_at(s, p, i) && forall|j: int| 0 <= j < i ==> !bytes_occur_at(s, p, j))
    } else {
        None
    }
}

/// Whether `p` occurs in `s` at `i`.
fn bytes_match_at(s: &[u8], p: &[u8], i: usize) -> (r: bool)
    ensures
        r == bytes_occur_at(s@, p@, i as int),
{
    let n = s.len();
    if p.len() > n || i > n - p.len() {
        return false;
    }
    let mut j: usize = 0;
    while j < p.len()
        invariant
            n == s@.len(),
            i + p@.len() <= s@.len(),
            j <= p@.len(),
            forall|t: int| 0 <= t < j ==> s@[i + t] == p@[t],
        decreases p.len() - j,
    {
        if s[i + j] != p[j] {
            proof {
                assert(s@.subrange(i as int, i + p@.len())[j as int] != p@[j as int]);
            }
            return false;
        }
        j += 1;
    }
    proof {
        assert(s@.subrange(i as int, i + p@.len()) =~= p@);
    }
    true
}

/// `(index-of s sub)`: the byte offset of the first occurrence of `sub` in
/// `s`; nil when there is none or an argument is not a string.
pub fn clorus_index_of(s: &Value, sub: &Value) -> (r: Value)
    requires
        str_fits(*s),
    ensures
        match (str_text(*s), str_text(*sub)) {
            (Some(t), Some(p)) => match first_byte_occurrence(bytes_of(t), bytes_of(p)) {
                Some(i) => r == Value::Long(i as i64),
                None => r == Value::Nil,
            },
            _ => r == Value::Nil,
        },
{
    match (s, sub) {
        (Value::Str(t), Value::Str(p)) => {
            let sb = t.as_str().as_bytes();
            let pb = p.as_str().as_bytes();
            let ghost sv = bytes_of(t@);
            let ghost pv = bytes_of(p@);
            let mut i: usize = 0;
            loop
                invariant
                    sb@ == sv,
                    pb@ == pv,
                    str_text(*s) == Some(t@),
                    str_text(*sub) == Some(p@),
                    sv == bytes_of(t@),
                    pv == bytes_of(p@),
                    sv.len() <= usize::MAX,
                    sv.len() <= i64::MAX,
                    i <= sb@.len(),
                    forall|j: int| 0 <= j < i ==> !bytes_occur_at(sv, pv, j),
                ensures
                    forall|j: int| 0 <= j <= sv.len() ==> !bytes_occur_at(sv, pv, j),
                decreases sb.len() - i,
            {
                if bytes_match_at(sb, pb, i) {
                    proof {
                        assert(bytes_occur_at(sv, pv, i as int));
                        let c = choose|c: int| bytes_occur_at(sv, pv, c) && forall|j: int| 0 <= j < c ==> !bytes_occur_at(sv, pv, j);
                        if c < i {
                            assert(!bytes_occur_at(sv, pv, c));
                        } else if c > i {
                            assert(!bytes_occur_at(sv, pv, i as int));
                        }
                        assert(i <= i64::MAX);
                        assert(first_byte_occurrence(sv, pv) == Some(i as int));
                        assert(str_text(*s) == Some(t@));
                        assert(str_text(*sub) == Some(p@));
                    }
                    let r = Value::Long(i as i64);
                    assert(r == Value::Long((i as int) as i64));
                    return r;
                }
                if i == sb.len() {
                    break;
                }
                i += 1;
            }
            proof {
                assert forall|j: int| !bytes_occur_at(sv, pv, j) by {
                    if j > sv.len() {
                        assert(!(j + pv.len() <= sv.len()));
                    }
                }
            }
            Value::Nil
        },
        _ => Value::Nil,
    }
}

/// The pieces of `s` between the occurrences of a non-empty `d`, taken
/// left to right without overlap.
#[verifier::opaque]
pub open spec fn split_text(s: Seq<char>, d: Seq<char>) -> Seq<Seq<char>>
    decreases s.len(),
{
    if d.len() == 0 {
        seq![s]
    } else {
        match first_occurrence(s, d) {
            Some(i) => if 0 <= i && i + d.len() <= s.len() {
                seq![s.take(i)] + split_text(s.skip(i + d.len()), d)
            } else {
                seq![s]
            },
            None => seq![s],
        }
    }
}

/// The result of `split`: an empty delimiter gives one empty string per
/// character; otherwise the pieces between delimiters.
pub open spec fn spec_split(s: Seq<char>, d: Seq<char>) -> Seq<Seq<char>> {
    if d.len() == 0 {
        Seq::new(s.len(), |i: int| Seq::<char>::empty())
    } else {
        split_text(s, d)
    }
}

/// A vector value of strings holding `texts`.
pub open spec fn is_vector_of_texts(r: Value, texts: Seq<Seq<char>>) -> bool {
    r matches Value::Vector(xs) && xs@.len() == texts.len() && forall|i: int|
        0 <= i < texts.len() ==> is_str_of(#[trigger] xs@[i], texts[i])
}

/// Where the next delimiter is found from `pos`, the split from `pos`
/// is the piece before it followed by the split after it.
proof fn lemma_split_step(whole: Seq<char>, d: Seq<char>, pos: int, i: int)
    requires
        d.len() > 0,
        0 <= pos <= i,
        occurs_at(whole, d, i),
        forall|j: int| pos <= j < i ==> !occurs_at(whole, d, j),
    ensures
        split_text(whole.skip(pos), d) == seq![whole.subrange(pos, i)] + split_text(whole.skip(i + d.len()), d),
{
    reveal(split_text);
    let rest = whole.skip(pos);
    assert forall|j: int| 0 <= j < i - pos implies !occurs_at(rest, d, j) by {
        assert(!occurs_at(whole, d, pos + j));
        if occurs_at(rest, d, j) {
            assert(whole.subrange(pos + j, pos + j + d.len()) =~= rest.subrange(j, j + d.len()));
        }
    }
    assert(rest.subrange(i - pos, i - pos + d.len()) =~= whole.subrange(i, i + d.len()));
    crate::text::lemma_first_occurrence(rest, d, i - pos);
    assert(rest.take(i - pos) =~= whole.subrange(pos, i));
    assert(rest.skip(i - pos + d.len()) =~= whole.skip(i + d.len()));
}

/// With no delimiter from `pos` on, the split from `pos` is the rest.
proof fn lemma_split_last(whole: Seq<char>, d: Seq<char>, pos: int)
    requires
        d.len() > 0,
        0 <= pos <= whole.len(),
        forall|j: int| pos <= j ==> !occurs_at(whole, d, j),
    ensures
        split_text(whole.skip(pos), d) == seq![whole.subrange(pos, whole.len() as int)],
{
    reveal(split_text);
    let rest = whole.skip(pos);
    assert forall|j: int| !occurs_at(rest, d, j) by {
        if occurs_at(rest, d, j) {
            assert(whole.subrange(pos + j, pos + j + d.len()) =~= rest.subrange(j, j + d.len()));
            assert(occurs_at(whole, d, pos + j));
        }
    }
    crate::text::lemma_no_occurrence(rest, d);
    assert(rest =~= whole.subrange(pos, whole.len() as int));
}

/// The texts of a list of character vectors.
pub open spec fn texts_view(v: Seq<Vec<char>>) -> Seq<Seq<char>> {
    v.map_values(|c: Vec<char>| c@)
}

/// `cs[from..to]`.
pub(crate) fn chars_range(cs: &Vec<char>, from: usize, to: usize) -> (r: Vec<char>)
    requires
        from <= to <= cs@.len(),
    ensures
        r@ == cs@.subrange(from as int, to as int),
{
    let mut out: Vec<char> = Vec::new();
    let mut i = from;
    while i < to
        invariant
            from <= i <= to <= cs@.len(),
            out@ == cs@.subrange(from as int, i as int),
        decreases to - i,
    {
        out.push(cs[i]);
        proof {
            assert(out@ =~= cs@.subrange(from as int, i + 1));
        }
        i += 1;
    }
    out
}

/// The pieces of `cs` between occurrences of the non-empty `ds`.
pub(crate) fn split_pieces(cs: &Vec<char>, ds: &Vec<char>) -> (r: Vec<Vec<char>>)
    requires
        ds@.len() > 0,
    ensures
        texts_view(r@) == split_text(cs@, ds@),
{
    let mut out: Vec<Vec<char>> = Vec::new();
    let mut pos: usize = 0;
    proof {
        assert(cs@.skip(0) =~= cs@);
        assert(texts_view(out@) =~= Seq::<Seq<char>>::empty());
    }
    loop
        invariant_except_break
            texts_view(out@) + split_text(cs@.skip(pos as int), ds@) == split_text(cs@, ds@),
        invariant
            ds@.len() > 0,
            pos <= cs@.len(),
        ensures
            texts_view(out@) == split_text(cs@, ds@),
        decreases cs.len() - pos,
    {
        let ghost before = texts_view(out@);
        match crate::text::find_from(cs, ds, pos) {
            Some(i) => {
                proof {
                    lemma_split_step(cs@, ds@, pos as int, i as int);
                }
                out.push(chars_range(cs, pos, i));
                proof {
                    assert(texts_view(out@) =~= before.push(cs@.subrange(pos as int, i as int)));
                    assert(texts_view(out@) + split_text(cs@.skip(i + ds@.len()), ds@) =~= before
                        + split_text(cs@.skip(pos as int), ds@));
                }
                pos = i + ds.len();
            },
            None => {
                proof {
                    lemma_split_last(cs@, ds@, pos as int);
                }
                out.push(chars_range(cs, pos, cs.len()));
                proof {
                    assert(texts_view(out@) =~= before.push(cs@.subrange(pos as int, cs@.len() as int)));
                    assert(texts_view(out@) =~= before + split_text(cs@.skip(pos as int), ds@));
                }
                break;
            },
        }
    }
    out
}

/// A vector value of strings holding the given texts.
fn texts_to_vector(parts: &Vec<Vec<char>>) -> (r: Value)
    ensures
        is_vector_of_texts(r, texts_view(parts@)),
{
    let mut out: Vec<Value> = Vec::new();
    let mut i: usize = 0;
    while i < parts.len()
        invariant
            i <= parts@.len(),
            out@.len() == i,
            forall|q: int| 0 <= q < i ==> is_str_of(#[trigger] out@[q], parts@[q]@),
        decreases parts.len() - i,
    {
        out.push(Value::Str(string_of_vec(&parts[i])));
        i += 1;
    }
    Value::Vector(Rc::new(out))
}

/// `(split s d)`: a vector of the pieces of `s` between occurrences of
/// `d`; an empty vector when an argument is not a string.
pub fn clorus_split(s: &Value, delim: &Value) -> (r: Value)
    ensures
        match (str_text(*s), str_text(*delim)) {
            (Some(t), Some(d)) => is_vector_of_texts(r, spec_split(t, d)),
            _ => is_vector_of_texts(r, Seq::empty()),
        },
{
    match (s, delim) {
        (Value::Str(t), Value::Str(d)) => {
            let cs = chars_of(t.as_str());
            let ds = chars_of(d.as_str());
            if ds.len() == 0 {
                let mut out: Vec<Value> = Vec::new();
                let mut i: usize = 0;
                while i < cs.len()
                    invariant
                        i <= cs@.len(),
                        out@.len() == i,
                        forall|q: int| 0 <= q < i ==> is_str_of(#[trigger] out@[q], Seq::<char>::empty()),
                    decreases cs.len() - i,
                {
                    out.push(Value::Str(String::new()));
                    i += 1;
                }
                return Value::Vector(Rc::new(out));
            }
            let pieces = split_pieces(&cs, &ds);
            texts_to_vector(&pieces)
        },
        _ => Value::Vector(Rc::new(Vec::new())),
    }
}

/// The display texts of the elements of a vector or list.
pub open spec fn display_items(coll: Value) -> Seq<Seq<char>> {
    Seq::new(crate::collections::spec_items(coll).len(), |i: int| render(crate::collections::spec_items(coll)[i], false))
}

/// `(join sep coll)`: the display texts of the elements of a vector or
/// list with `sep` between each two (no separator when `sep` is not a
/// string); empty for other collections.
pub fn clorus_join(sep: &Value, coll: &Value) -> (r: Value)
    ensures
        is_str_of(
            r,
            join_texts_of(
                display_items(*coll),
                match str_text(*sep) {
                    Some(t) => t,
                    None => Seq::empty(),
                },
            ),
        ),
{
    let sep_text: String = match sep {
        Value::Str(t) => t.clone(),
        _ => String::new(),
    };
    let items = crate::collections::items_of(coll);
    let mut parts: Vec<Vec<char>> = Vec::new();
    let mut i: usize = 0;
    while i < items.len()
        invariant
            i <= items@.len(),
            items@.len() == crate::collections::spec_items(*coll).len(),
            forall|q: int| 0 <= q < items@.len() ==> *(#[trigger] items@[q]) == crate::collections::spec_items(*coll)[q],
            parts@.len() == i,
            forall|q: int| 0 <= q < i ==> (#[trigger] parts@[q])@ == render(crate::collections::spec_items(*coll)[q], false),
        decreases items.len() - i,
    {
        let text = crate::printer::value_to_rust_string(items[i]);
        parts.push(chars_of(text.as_str()));
        i += 1;
    }
    let mut out = String::new();
    crate::printer::push_joined(&mut out, &parts, sep_text.as_str());
    proof {
        assert(parts@.map_values(|p: Vec<char>| p@) =~= display_items(*coll));
        assert(out@ =~= join_texts_of(display_items(*coll), sep_text@));
    }
    Value::Str(out)
}

/// The texts joined with `sep` between each two.
pub open spec fn join_texts_of(parts: Seq<Seq<char>>, sep: Seq<char>) -> Seq<char> {
    crate::printer::join_texts(parts, sep)
}

/// The upper-case form of a text (`str::to_uppercase`), by Unicode's case
/// mapping.
pub uninterp spec fn upper_text(s: Seq<char>) -> Seq<char>;

/// The lower-case form of a text (`str::to_lowercase`).
pub uninterp spec fn lower_text(s: Seq<char>) -> Seq<char>;

/// `str::to_uppercase`. Claimed: the result is determined by the input's
/// characters alone (it is named `upper_text` of them); the Unicode case
/// mapping itself is not restated.
#[verifier::external_body]
fn to_upper(s: &str) -> (r: String)
    ensures
        r@ == upper_text(s@),
{
    s.to_uppercase()
}

/// `str::to_lowercase`. Claimed: the result is determined by the input's
/// characters alone (it is named `lower_text` of them).
#[verifier::external_body]
fn to_lower(s: &str) -> (r: String)
    ensures
        r@ == lower_text(s@),
{
    s.to_lowercase()
}

/// `(upper-case s)`: empty when `s` is not a string.
pub fn clorus_upper_case(s: &Value) -> (r: Value)
    ensures
        is_str_of(
            r,
            match str_text(*s) {
                Some(t) => upper_text(t),
                None => Seq::empty(),
            },
        ),
{
    match s {
        Value::Str(t) => Value::Str(to_upper(t.as_str())),
        _ => Value::Str(String::new()),
    }
}

/// `(lower-case s)`: empty when `s` is not a string.
pub fn clorus_lower_case(s: &Value) -> (r: Value)
    ensures
        is_str_of(
            r,
            match str_text(*s) {
                Some(t) => lower_text(t),
                None => Seq::empty(),
            },
        ),
{
    match s {
        Value::Str(t) => Value::Str(to_lower(t.as_str())),
        _ => Value::Str(String::new()),
    }
}

/// `(trim s)`: without leading and trailing white space; empty when `s` is
/// not a string.
pub fn clorus_trim(s: &Value) -> (r: Value)
    ensures
        is_str_of(
            r,
            match str_text(*s) {
                Some(t) => trim_seq(t),
                None => Seq::empty(),
            },
        ),
{
    match s {
        Value::Str(t) => Value::Str(crate::text::trim_string(t.as_str())),
        _ => Value::Str(String::new()),
    }
}

/// `(trim-left s)`: without leading white space.
pub fn clorus_trim_left(s: &Value) -> (r: Value)
    ensures
        is_str_of(
            r,
            match str_text(*s) {
                Some(t) => trim_start_seq(t),
                None => Seq::empty(),
            },
        ),
{
    match s {
        Value::Str(t) => Value::Str(string_of_vec(&crate::text::trim_start_chars(t.as_str()))),
        _ => Value::Str(String::new()),
    }
}

/// `(trim-right s)`: without trailing white space.
pub fn clorus_trim_right(s: &Value) -> (r: Value)
    ensures
        is_str_of(
            r,
            match str_text(*s) {
                Some(t) => trim_end_seq(t),
                None => Seq::empty(),
            },
        ),
{
    match s {
        Value::Str(t) => Value::Str(string_of_vec(&crate::text::trim_end_chars(t.as_str()))),
        _ => Value::Str(String::new()),
    }
}

/// `r` before each character of `s` and after the last: what replacing
/// the empty pattern gives.
pub open spec fn insert_everywhere(s: Seq<char>, r: Seq<char>) -> Seq<char>
    decreases s.len(),
{
    if s.len() == 0 {
        r
    } else {
        insert_everywhere(s.drop_last(), r) + seq![s.last()] + r
    }
}

/// Every occurrence of `p` in `s` replaced by `r`, left to right.
pub open spec fn replace_all_text(s: Seq<char>, p: Seq<char>, r: Seq<char>) -> Seq<char> {
    if p.len() == 0 {
        insert_everywhere(s, r)
    } else {
        join_texts_of(split_text(s, p), r)
    }
}

/// The first occurrence of `p` in `s` replaced by `r`.
pub open spec fn replace_first_text(s: Seq<char>, p: Seq<char>, r: Seq<char>) -> Seq<char> {
    if p.len() == 0 {
        r + s
    } else {
        match first_occurrence(s, p) {
            Some(i) => s.take(i) + r + s.skip(i + p.len()),
            None => s,
        }
    }
}

/// `insert_everywhere`, computed.
fn insert_everywhere_exec(cs: &Vec<char>, r: &str) -> (out: String)
    ensures
        out@ == insert_everywhere(cs@, r@),
{
    let mut out = String::new();
    push_str(&mut out, r);
    let mut i: usize = 0;
    proof {
        assert(out@ =~= insert_everywhere(cs@.subrange(0, 0), r@));
    }
    while i < cs.len()
        invariant
            i <= cs@.len(),
            out@ == insert_everywhere(cs@.subrange(0, i as int), r@),
        decreases cs.len() - i,
    {
        crate::text::push_char(&mut out, cs[i]);
        push_str(&mut out, r);
        proof {
            assert(cs@.subrange(0, i + 1).drop_last() =~= cs@.subrange(0, i as int));
        }
        i += 1;
    }
    proof {
        assert(cs@.subrange(0, cs@.len() as int) =~= cs@);
    }
    out
}

/// `(replace s match replacement)`: every occurrence replaced; `s` when
/// `match` is not a string; empty when `s` is not a string; a replacement
/// that is not a string counts as empty.
pub fn clorus_replace(s: &Value, m: &Value, replacement: &Value) -> (r: Value)
    ensures
        match (str_text(*s), str_text(*m)) {
            (Some(t), Some(p)) => is_str_of(
                r,
                replace_all_text(
                    t,
                    p,
                    match str_text(*replacement) {
                        Some(x) => x,
                        None => Seq::empty(),
                    },
                ),
            ),
            (Some(t), None) => is_str_of(r, t),
            _ => is_str_of(r, Seq::empty()),
        },
{
    match (s, m) {
        (Value::Str(t), Value::Str(p)) => {
            let rep: String = match replacement {
                Value::Str(x) => x.clone(),
                _ => String::new(),
            };
            let cs = chars_of(t.as_str());
            let ps = chars_of(p.as_str());
            if ps.len() == 0 {
                return Value::Str(insert_everywhere_exec(&cs, rep.as_str()));
            }
            let pieces = split_pieces(&cs, &ps);
            let mut out = String::new();
            crate::printer::push_joined(&mut out, &pieces, rep.as_str());
            proof {
                assert(out@ =~= replace_all_text(t@, p@, rep@));
            }
            Value::Str(out)
        },
        (Value::Str(t), _) => Value::Str(t.clone()),
        _ => Value::Str(String::new()),
    }
}

/// `(replace-first s match replacement)`: the first occurrence replaced.
pub fn clorus_replace_first(s: &Value, m: &Value, replacement: &Value) -> (r: Value)
    ensures
        match (str_text(*s), str_text(*m)) {
            (Some(t), Some(p)) => is_str_of(
                r,
                replace_first_text(
                    t,
                    p,
                    match str_text(*replacement) {
                        Some(x) => x,
                        None => Seq::empty(),
                    },
                ),
            ),
            (Some(t), None) => is_str_of(r, t),
            _ => is_str_of(r, Seq::empty()),
        },
{
    match (s, m) {
        (Value::Str(t), Value::Str(p)) => {
            let rep: String = match replacement {
                Value::Str(x) => x.clone(),
                _ => String::new(),
            };
            let cs = chars_of(t.as_str());
            let ps = chars_of(p.as_str());
            let mut out = String::new();
            if ps.len() == 0 {
                push_str(&mut out, rep.as_str());
                push_str(&mut out, t.as_str());
                return Value::Str(out);
            }
            match crate::text::find_from(&cs, &ps, 0) {
                Some(i) => {
                    proof {
                        crate::text::lemma_first_occurrence(cs@, ps@, i as int);
                        assert(occurs_at(cs@, ps@, i as int));
                        assert(i + ps@.len() <= cs@.len());
                    }
                    let n = cs.len();
                    let head = chars_range(&cs, 0, i);
                    let tail = chars_range(&cs, i + ps.len(), n);
                    push_str(&mut out, string_of_vec(&head).as_str());
                    push_str(&mut out, rep.as_str());
                    push_str(&mut out, string_of_vec(&tail).as_str());
                    proof {
                        assert(cs@.subrange(0, i as int) =~= cs@.take(i as int));
                        assert(cs@.subrange(i + ps@.len(), cs@.len() as int) =~= cs@.skip(i + ps@.len()));
                    }
                },
                None => {
                    proof {
                        crate::text::lemma_no_occurrence(cs@, ps@);
                    }
                    push_str(&mut out, t.as_str());
                },
            }
            Value::Str(out)
        },
        (Value::Str(t), _) => Value::Str(t.clone()),
        _ => Value::Str(String::new()),
    }
}

/// `(string? v)`.
pub fn clorus_is_string(v: &Value) -> (r: bool)
    ensures
        r == (*v is Str),
{
    match v {
        Value::Str(_) => true,
        _ => false,
    }
}

/// `(string? v)` as 1 or 0.
pub fn clorus_is_string_i32(v: &Value) -> (r: i32)
    ensures
        r == if *v is Str {
            1i32
        } else {
            0i32
        },
{
    if clorus_is_string(v) {
        1
    } else {
        0
    }
}

/// `(starts-with? s prefix)` as 1 or 0; 0 when an argument is not a string.
pub fn clorus_starts_with(s: &Value, prefix: &Value) -> (r: i32)
    ensures
        r == match (str_text(*s), str_text(*prefix)) {
            (Some(t), Some(p)) => if has_prefix(t, p) {
                1i32
            } else {
                0i32
            },
            _ => 0i32,
        },
{
    match (s, prefix) {
        (Value::Str(t), Value::Str(p)) => if crate::text::starts_with_text(t.as_str(), p.as_str()) {
            1
        } else {
            0
        },
        _ => 0,
    }
}

/// `(ends-with? s suffix)` as 1 or 0.
pub fn clorus_ends_with(s: &Value, suffix: &Value) -> (r: i32)
    ensures
        r == match (str_text(*s), str_text(*suffix)) {
            (Some(t), Some(p)) => if has_suffix(t, p) {
                1i32
            } else {
                0i32
            },
            _ => 0i32,
        },
{
    match (s, suffix) {
        (Value::Str(t), Value::Str(p)) => if crate::text::ends_with_text(t.as_str(), p.as_str()) {
            1
        } else {
            0
        },
        _ => 0,
    }
}

/// `(includes? s sub)` as 1 or 0.
pub fn clorus_includes(s: &Value, sub: &Value) -> (r: i32)
    ensures
        r == match (str_text(*s), str_text(*sub)) {
            (Some(t), Some(p)) => if has_infix(t, p) {
                1i32
            } else {
                0i32
            },
            _ => 0i32,
        },
{
    match (s, sub) {
        (Value::Str(t), Value::Str(p)) => if crate::text::contains_text(t.as_str(), p.as_str()) {
            1
        } else {
            0
        },
        _ => 0,
    }
}

/// -1, 0 or 1 as `a` sorts before, with or after `b`.
pub open spec fn text_order(a: Seq<char>, b: Seq<char>) -> i64 {
    if text_lt(a, b) {
        -1i64
    } else if text_lt(b, a) {
        1
    } else {
        0
    }
}

/// Compares two texts.
fn order_texts(a: &str, b: &str) -> (r: i64)
    ensures
        r == text_order(a@, b@),
{
    let ca = chars_of(a);
    let cb = chars_of(b);
    if crate::printer::text_less(&ca, &cb) {
        -1i64
    } else if crate::printer::text_less(&cb, &ca) {
        1
    } else {
        0
    }
}

/// `(compare s1 s2)` on strings: -1, 0 or 1; a value that is not a string
/// counts as the empty string.
pub fn clorus_compare_strings(s1: &Value, s2: &Value) -> (r: i64)
    ensures
        r == text_order(
            match str_text(*s1) {
                Some(t) => t,
                None => Seq::empty(),
            },
            match str_text(*s2) {
                Some(t) => t,
                None => Seq::empty(),
            },
        ),
{
    let a: String = match s1 {
        Value::Str(t) => t.clone(),
        _ => String::new(),
    };
    let b: String = match s2 {
        Value::Str(t) => t.clone(),
        _ => String::new(),
    };
    order_texts(a.as_str(), b.as_str())
}

/// -1, 0 or 1 as `x` is below, equal to or above `y`.
pub open spec fn int_order(x: int, y: int) -> i64 {
    if x < y {
        -1i64
    } else if x > y {
        1
    } else {
        0
    }
}

/// `(compare a b)`: nil before everything; integers by value; strings,
/// keywords and symbols by text; false before true; values of different
/// kinds by their tags.
pub open spec fn spec_compare_values(a: Value, b: Value) -> i64 {
    if a is Nil && b is Nil {
        0
    } else if a is Nil {
        -1i64
    } else if b is Nil {
        1
    } else {
        match (a, b) {
            (Value::Long(x), Value::Long(y)) => int_order(x as int, y as int),
            (Value::Str(x), Value::Str(y)) => text_order(x@, y@),
            (Value::Keyword(x), Value::Keyword(y)) => text_order(x@, y@),
            (Value::Symbol(x), Value::Symbol(y)) => text_order(x@, y@),
            (Value::Bool(x), Value::Bool(y)) => if x == y {
                0
            } else if !x {
                -1i64
            } else {
                1
            },
            _ => int_order(
                spec_tag_index(crate::value::spec_value_tag(a)),
                spec_tag_index(crate::value::spec_value_tag(b)),
            ),
        }
    }
}

/// `(compare a b)`.
pub fn clorus_compare_values(a: &Value, b: &Value) -> (r: i64)
    ensures
        r == spec_compare_values(*a, *b),
{
    match (a, b) {
        (Value::Nil, Value::Nil) => 0,
        (Value::Nil, _) => -1,
        (_, Value::Nil) => 1,
        (Value::Long(x), Value::Long(y)) => if *x < *y {
            -1i64
        } else if *x > *y {
            1
        } else {
            0
        },
        (Value::Str(x), Value::Str(y)) => order_texts(x.as_str(), y.as_str()),
        (Value::Keyword(x), Value::Keyword(y)) => order_texts(x.as_str(), y.as_str()),
        (Value::Symbol(x), Value::Symbol(y)) => order_texts(x.as_str(), y.as_str()),
        (Value::Bool(x), Value::Bool(y)) => if *x == *y {
            0
        } else if !*x {
            -1i64
        } else {
            1
        },
        _ => {
            let ta = tag_index(a.tag());
            let tb = tag_index(b.tag());
            if ta < tb {
                -1i64
            } else if ta > tb {
                1
            } else {
                0
            }
        },
    }
}

/// Joining `a` in front of one or more texts puts it and one separator
/// before their join.
proof fn lemma_join_cons(a: Seq<char>, rest: Seq<Seq<char>>, d: Seq<char>)
    requires
        rest.len() >= 1,
    ensures
        join_texts(seq![a] + rest, d) == a + d + join_texts(rest, d),
    decreases rest.len(),
{
    let all = seq![a] + rest;
    assert(all.len() >= 2);
    assert(join_texts(all, d) == join_texts(all.drop_last(), d) + d + all.last());
    if rest.len() == 1 {
        assert(all.drop_last() =~= seq![a]);
        assert(join_texts(seq![a], d) == a);
        assert(all.last() == rest[0]);
        assert(join_texts(rest, d) == rest[0]);
    } else {
        let r2 = rest.drop_last();
        assert(all.drop_last() =~= seq![a] + r2);
        assert(all.last() == rest.last());
        lemma_join_cons(a, r2, d);
        assert(join_texts(rest, d) == join_texts(r2, d) + d + rest.last());
        assert(a + d + join_texts(r2, d) + d + rest.last() =~= a + d + (join_texts(r2, d) + d + rest.last()));
    }
}

/// Splitting gives at least one piece.
proof fn lemma_split_nonempty(s: Seq<char>, d: Seq<char>)
    ensures
        split_text(s, d).len() >= 1,
{
    reveal(split_text);
}

/// Splitting at a non-empty delimiter and joining the pieces with it gives
/// the text back.
pub proof fn law_split_then_join(s: Seq<char>, d: Seq<char>)
    requires
        d.len() > 0,
    ensures
        join_texts(split_text(s, d), d) == s,
    decreases s.len(),
{
    reveal(split_text);
    crate::text::lemma_first_occurrence_found(s, d);
    match first_occurrence(s, d) {
        Some(i) => {
            let rest = s.skip(i + d.len());
            law_split_then_join(rest, d);
            lemma_split_nonempty(rest, d);
            lemma_join_cons(s.take(i), split_text(rest, d), d);
            assert(s.subrange(i, i + d.len()) == d);
            assert(s.take(i) + d + rest =~= s);
        },
        None => {
            assert(split_text(s, d) == seq![s]);
        },
    }
}

/// Replacing a non-empty pattern by itself changes nothing.
pub proof fn law_replace_with_itself(s: Seq<char>, p: Seq<char>)
    requires
        p.len() > 0,
    ensures
        replace_all_text(s, p, p) == s,
{
    law_split_then_join(s, p);
}


/// `a` sorts before `b` in dictionary order: at the first position where
/// they differ `a` has the smaller character, or `a` is a proper prefix of
/// `b`.
pub open spec fn lex_before(a: Seq<char>, b: Seq<char>) -> bool {
    exists|i: int|
        0 <= i <= a.len() && i <= b.len() && a.take(i) == b.take(i) && ((i == a.len() && i < b.len()) || (i
            < a.len() && i < b.len() && a[i] < b[i]))
}

proof fn lemma_text_lt_is_lex(a: Seq<char>, b: Seq<char>)
    ensures
        text_lt(a, b) <==> lex_before(a, b),
    decreases a.len(),
{
    if a.len() == 0 {
        if b.len() > 0 {
            assert(a.take(0) =~= b.take(0));
        }
    } else if b.len() == 0 {
        if lex_before(a, b) {
            let i = choose|i: int|
                0 <= i <= a.len() && i <= b.len() && a.take(i) == b.take(i) && ((i == a.len() && i < b.len()) || (i
                    < a.len() && i < b.len() && a[i] < b[i]));
        }
    } else if a[0] != b[0] {
        if a[0] < b[0] {
            assert(a.take(0) =~= b.take(0));
        }
        if lex_before(a, b) {
            let i = choose|i: int|
                0 <= i <= a.len() && i <= b.len() && a.take(i) == b.take(i) && ((i == a.len() && i < b.len()) || (i
                    < a.len() && i < b.len() && a[i] < b[i]));
            if i > 0 {
                assert(a.take(i)[0] == b.take(i)[0]);
            }
        }
    } else {
        let a2 = a.drop_first();
        let b2 = b.drop_first();
        lemma_text_lt_is_lex(a2, b2);
        if lex_before(a2, b2) {
            let i = choose|i: int|
                0 <= i <= a2.len() && i <= b2.len() && a2.take(i) == b2.take(i) && ((i == a2.len() && i < b2.len())
                    || (i < a2.len() && i < b2.len() && a2[i] < b2[i]));
            assert(a.take(i + 1) =~= seq![a[0]] + a2.take(i));
            assert(b.take(i + 1) =~= seq![b[0]] + b2.take(i));
            assert(a[i + 1] == a2[i] || i == a2.len());
        }
        if lex_before(a, b) {
            let i = choose|i: int|
                0 <= i <= a.len() && i <= b.len() && a.take(i) == b.take(i) && ((i == a.len() && i < b.len()) || (i
                    < a.len() && i < b.len() && a[i] < b[i]));
            assert(i > 0);
            assert(a2.take(i - 1) =~= a.take(i).drop_first());
            assert(b2.take(i - 1) =~= b.take(i).drop_first());
            if i < a.len() {
                assert(a2[i - 1] == a[i]);
                assert(b2[i - 1] == b[i]);
            }
        }
    }
}

/// The text of a string, keyword or symbol value.
pub open spec fn name_text(v: Value) -> Option<Seq<char>> {
    match v {
        Value::Str(s) => Some(s@),
        Value::Keyword(s) => Some(s@),
        Value::Symbol(s) => Some(s@),
        _ => None,
    }
}

/// Two strings, two keywords or two symbols compare by their text in
/// dictionary order: -1 when the first sorts before the second, 1 when
/// after, and 0 only when the texts are equal.
pub proof fn law_compare_names(a: Value, b: Value)
    requires
        (a is Str && b is Str) || (a is Keyword && b is Keyword) || (a is Symbol && b is Symbol),
    ensures
        spec_compare_values(a, b) == -1 <==> lex_before(name_text(a)->0, name_text(b)->0),
        spec_compare_values(a, b) == 1 <==> lex_before(name_text(b)->0, name_text(a)->0),
        spec_compare_values(a, b) == 0 <==> name_text(a)->0 == name_text(b)->0,
        spec_compare_values(a, b) == -spec_compare_values(b, a),
{
    let x = name_text(a)->0;
    let y = name_text(b)->0;
    lemma_text_lt_is_lex(x, y);
    lemma_text_lt_is_lex(y, x);
    crate::printer::lemma_lt_asym(x, y);
    crate::printer::lemma_lt_irrefl(x);
    crate::printer::lemma_lt_total(x, y);
}

} // verus!
