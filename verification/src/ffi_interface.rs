//! Descriptions of foreign (Rust) libraries for the REPL: read from a
//! `.clorus-ffi` interface file, or from the generated wrapper source of a
//! library when no interface file exists.

use crate::printer::join_texts;
use crate::strings::split_text;
use crate::text::{chars_of, first_occurrence, has_infix, has_prefix, is_ws, replace_char_seq, trim_seq, trim_start_seq, word_prefix};
use vstd::prelude::*;

verus! {

/// A parameter of a foreign function: its name and type.
pub struct RustParam {
    pub name: String,
    pub param_type: String,
}

/// A foreign function: its name, parameters and return type.
pub struct RustFunction {
    pub name: String,
    pub params: Vec<RustParam>,
    pub return_type: String,
}

/// A foreign library: its name and functions.
pub struct RustLibrary {
    pub name: String,
    pub functions: Vec<RustFunction>,
}

/// The white-space separated words of `s`, in order
/// (`str::split_whitespace`).
#[verifier::opaque]
pub open spec fn words(s: Seq<char>) -> Seq<Seq<char>>
    decreases s.len(),
{
    let t = trim_start_seq(s);
    if t.len() == 0 || t.len() > s.len() {
        Seq::empty()
    } else {
        let w = word_prefix(t);
        if w.len() == 0 || w.len() > t.len() {
            Seq::empty()
        } else {
            seq![w] + words(t.skip(w.len() as int))
        }
    }
}

/// The first position of `c` in `s`, if any.
pub open spec fn first_index(s: Seq<char>, c: char) -> Option<int> {
    first_occurrence(s, seq![c])
}

/// A type written in an interface file, normalized: `string` is `String`,
/// `f64`, `i32` and `bool` stay, anything else is a value pointer.
pub open spec fn interface_type(t: Seq<char>) -> Seq<char> {
    if t == "string"@ {
        "String"@
    } else if t == "f64"@ || t == "i32"@ || t == "bool"@ {
        t
    } else {
        "Value*"@
    }
}

/// The end of the word of `cs` that starts at `a`.
fn take_word(cs: &Vec<char>, a: usize) -> (b: usize)
    requires
        a <= cs@.len(),
    ensures
        a <= b <= cs@.len(),
        word_prefix(cs@.skip(a as int)) == cs@.subrange(a as int, b as int),
{
    let mut b = a;
    proof {
        assert(cs@.subrange(a as int, a as int) =~= Seq::<char>::empty());
    }
    while b < cs.len() && !crate::text::is_white_space(cs[b])
        invariant
            a <= b <= cs@.len(),
            word_prefix(cs@.skip(a as int)) == cs@.subrange(a as int, b as int) + word_prefix(cs@.skip(b as int)),
        decreases cs.len() - b,
    {
        proof {
            assert(cs@.skip(b as int).drop_first() =~= cs@.skip(b + 1));
            assert(cs@.skip(b as int)[0] == cs@[b as int]);
            assert(cs@.subrange(a as int, b as int) + (seq![cs@[b as int]] + word_prefix(cs@.skip(b + 1)))
                =~= cs@.subrange(a as int, b + 1) + word_prefix(cs@.skip(b + 1)));
        }
        b += 1;
    }
    proof {
        if b < cs@.len() {
            assert(cs@.skip(b as int)[0] == cs@[b as int]);
        }
        assert(cs@.subrange(a as int, b as int) + word_prefix(cs@.skip(b as int)) =~= cs@.subrange(a as int, b as int));
    }
    b
}

/// A white-space free first character starts a word of at least one
/// character.
proof fn lemma_word_nonempty(t: Seq<char>)
    requires
        t.len() > 0,
        !is_ws(t[0]),
    ensures
        word_prefix(t).len() >= 1,
{
}

/// Trimming the start never lengthens a text.
proof fn lemma_trim_start_len(s: Seq<char>)
    ensures
        trim_start_seq(s).len() <= s.len(),
        trim_start_seq(s).len() > 0 ==> !is_ws(trim_start_seq(s)[0]),
    decreases s.len(),
{
    if s.len() > 0 && is_ws(s[0]) {
        lemma_trim_start_len(s.drop_first());
    }
}

/// The words of `cs` (`split_whitespace`).
pub fn words_of(cs: &Vec<char>) -> (r: Vec<Vec<char>>)
    ensures
        r@.map_values(|w: Vec<char>| w@) == words(cs@),
{
    let mut out: Vec<Vec<char>> = Vec::new();
    let mut pos: usize = 0;
    proof {
        assert(cs@.skip(0) =~= cs@);
        assert(out@.map_values(|w: Vec<char>| w@) =~= Seq::<Seq<char>>::empty());
    }
    loop
        invariant_except_break
            out@.map_values(|w: Vec<char>| w@) + words(cs@.skip(pos as int)) == words(cs@),
        invariant
            pos <= cs@.len(),
        ensures
            out@.map_values(|w: Vec<char>| w@) == words(cs@),
        decreases cs.len() - pos,
    {
        reveal(words);
        let ghost before = out@.map_values(|w: Vec<char>| w@);
        let a = crate::text::skip_ws(cs, pos);
        proof {
            lemma_trim_start_len(cs@.skip(pos as int));
        }
        if a == cs.len() {
            proof {
                assert(trim_start_seq(cs@.skip(pos as int)).len() == 0);
                assert(words(cs@.skip(pos as int)) =~= Seq::<Seq<char>>::empty());
                assert(out@.map_values(|w: Vec<char>| w@) =~= before + words(cs@.skip(pos as int)));
            }
            break;
        }
        let b = take_word(cs, a);
        proof {
            let t = cs@.skip(a as int);
            assert(t[0] == cs@[a as int]);
            lemma_word_nonempty(t);
            assert(t.skip(b - a) =~= cs@.skip(b as int));
        }
        let mut w: Vec<char> = Vec::new();
        let mut k = a;
        while k < b
            invariant
                a <= k <= b <= cs@.len(),
                w@ == cs@.subrange(a as int, k as int),
            decreases b - k,
        {
            w.push(cs[k]);
            proof {
                assert(w@ =~= cs@.subrange(a as int, k + 1));
            }
            k += 1;
        }
        let ghost wv = w@;
        out.push(w);
        proof {
            assert(out@.map_values(|w: Vec<char>| w@) =~= before.push(wv));
            assert(words(cs@.skip(pos as int)) =~= seq![wv] + words(cs@.skip(b as int)));
            assert(out@.map_values(|w: Vec<char>| w@) + words(cs@.skip(b as int)) =~= before + words(cs@.skip(pos as int)));
        }
        pos = b;
    }
    out
}

/// A parameter as plain texts: name and type.
pub open spec fn param_view(p: RustParam) -> (Seq<char>, Seq<char>) {
    (p.name@, p.param_type@)
}

/// A function as plain texts: name, parameters and return type.
pub open spec fn fn_view(f: RustFunction) -> (Seq<char>, Seq<(Seq<char>, Seq<char>)>, Seq<char>) {
    (f.name@, f.params@.map_values(|p: RustParam| param_view(p)), f.return_type@)
}

/// The parameters written inside the brackets of an interface form: each
/// name may be followed by a `:type` word.
#[verifier::opaque]
pub open spec fn interface_params(toks: Seq<Seq<char>>) -> Seq<(Seq<char>, Seq<char>)>
    decreases toks.len(),
{
    if toks.len() == 0 {
        Seq::empty()
    } else if toks.len() >= 2 && has_prefix(toks[1], seq![':']) {
        seq![(toks[0], interface_type(toks[1].skip(1)))] + interface_params(toks.skip(2))
    } else {
        seq![(toks[0], "Value*"@)] + interface_params(toks.skip(1))
    }
}

/// The return type of an interface form: the first `:type` word (but not
/// `::`) after the parameters; a value pointer when there is none.
#[verifier::opaque]
pub open spec fn interface_return(toks: Seq<Seq<char>>) -> Seq<char>
    decreases toks.len(),
{
    if toks.len() == 0 {
        "Value*"@
    } else if has_prefix(toks[0], seq![':']) && !has_prefix(toks[0], seq![':', ':']) {
        interface_type(toks[0].skip(1))
    } else {
        interface_return(toks.skip(1))
    }
}

/// The text of an `(fn ...)` form without its opening `(fn ` and closing
/// parenthesis; the whole trimmed form when it does not end with one.
pub open spec fn fn_form_body(s1: Seq<char>) -> Seq<char> {
    let rest = s1.skip(4);
    if rest.len() > 0 && rest.last() == ')' {
        rest.drop_last()
    } else {
        s1
    }
}

/// The form's brackets are in order: a first `]` never comes before the
/// first `[` (the slice between them would panic).
pub open spec fn fn_form_ok(s: Seq<char>) -> bool {
    let s1 = trim_seq(s);
    has_prefix(s1, "(fn "@) ==> match (first_index(fn_form_body(s1), '['), first_index(fn_form_body(s1), ']')) {
        (Some(a), Some(b)) => a < b,
        _ => true,
    }
}

/// An interface form `(fn name [param :type ...] :return "doc")` read as a
/// function: dashes in the name become underscores; none when the text is
/// not such a form.
pub open spec fn spec_parse_fn_form(s: Seq<char>) -> Option<(Seq<char>, Seq<(Seq<char>, Seq<char>)>, Seq<char>)> {
    let s1 = trim_seq(s);
    if !has_prefix(s1, "(fn "@) {
        None
    } else {
        let b = fn_form_body(s1);
        if words(b).len() == 0 {
            None
        } else {
            Some(function_of_body(b))
        }
    }
}

/// The function an interface form's body describes (its first word is the
/// name).
pub open spec fn function_of_body(b: Seq<char>) -> (Seq<char>, Seq<(Seq<char>, Seq<char>)>, Seq<char>) {
    let name = replace_char_seq(words(b)[0], '-', '_');
    match (first_index(b, '['), first_index(b, ']')) {
        (Some(st), Some(en)) => (
            name,
            interface_params(words(b.subrange(st + 1, en))),
            interface_return(words(b.skip(en + 1))),
        ),
        _ => (name, Seq::empty(), "Value*"@),
    }
}

/// The first position of `c` in `cs`, if any.
fn find_char(cs: &Vec<char>, c: char) -> (r: Option<usize>)
    ensures
        match r {
            Some(i) => first_index(cs@, c) == Some(i as int) && i < cs@.len() && cs@[i as int] == c,
            None => first_index(cs@, c) is None,
        },
{
    let p: Vec<char> = vec![c];
    proof {
        assert(p@ =~= seq![c]);
    }
    match crate::text::find_from(cs, &p, 0) {
        Some(i) => {
            proof {
                crate::text::lemma_first_occurrence(cs@, p@, i as int);
                assert(cs@.subrange(i as int, i + 1)[0] == cs@[i as int]);
            }
            Some(i)
        },
        None => {
            proof {
                crate::text::lemma_no_occurrence(cs@, p@);
            }
            None
        },
    }
}

/// `cs[from..to]`.
fn slice_chars(cs: &Vec<char>, from: usize, to: usize) -> (r: Vec<char>)
    requires
        from <= to <= cs@.len(),
    ensures
        r@ == cs@.subrange(from as int, to as int),
{
    let mut out: Vec<char> = Vec::new();
    let mut i = from;
    while i < to
        invariant
            from <= i <= to <= cs@.len(),
            out@ == cs@.subrange(from as int, i as int),
        decreases to - i,
    {
        out.push(cs[i]);
        proof {
            assert(out@ =~= cs@.subrange(from as int, i + 1));
        }
        i += 1;
    }
    out
}

/// Whether two character vectors are equal.
fn chars_eq(a: &Vec<char>, b: &str) -> (r: bool)
    ensures
        r == (a@ == b@),
{
    let s = crate::text::string_of_vec(a);
    crate::text::same_text(s.as_str(), b)
}

/// A normalized interface type.
fn interface_type_of(t: &Vec<char>) -> (r: String)
    ensures
        r@ == interface_type(t@),
{
    if chars_eq(t, "string") {
        crate::text::string_from("String")
    } else if chars_eq(t, "f64") || chars_eq(t, "i32") || chars_eq(t, "bool") {
        crate::text::string_of_vec(t)
    } else {
        crate::text::string_from("Value*")
    }
}

/// Whether a word starts with `:` (and, when `double` is asked, `::`).
fn starts_with_colons(w: &Vec<char>, double: bool) -> (r: bool)
    ensures
        r == if double {
            has_prefix(w@, seq![':', ':'])
        } else {
            has_prefix(w@, seq![':'])
        },
{
    if double {
        let r = w.len() >= 2 && w[0] == ':' && w[1] == ':';
        proof {
            if w@.len() >= 2 {
                if r {
                    assert(w@.subrange(0, 2) =~= seq![':', ':']);
                } else if w@[0] != ':' {
                    assert(w@.subrange(0, 2)[0] != seq![':', ':'][0]);
                } else {
                    assert(w@.subrange(0, 2)[1] != seq![':', ':'][1]);
                }
            }
        }
        r
    } else {
        let r = w.len() >= 1 && w[0] == ':';
        proof {
            if w@.len() >= 1 {
                if r {
                    assert(w@.subrange(0, 1) =~= seq![':']);
                } else {
                    assert(w@.subrange(0, 1)[0] != seq![':'][0]);
                }
            }
        }
        r
    }
}

/// The parameters of an interface form's bracket words.
fn interface_params_of(toks: &Vec<Vec<char>>) -> (r: Vec<RustParam>)
    ensures
        r@.map_values(|p: RustParam| param_view(p)) == interface_params(toks@.map_values(|w: Vec<char>| w@)),
{
    reveal(interface_params);
    let ghost tv = toks@.map_values(|w: Vec<char>| w@);
    let mut out: Vec<RustParam> = Vec::new();
    let mut i: usize = 0;
    proof {
        assert(tv.skip(0) =~= tv);
        assert(out@.map_values(|p: RustParam| param_view(p)) =~= Seq::<(Seq<char>, Seq<char>)>::empty());
    }
    while i < toks.len()
        invariant
            i <= toks@.len(),
            tv == toks@.map_values(|w: Vec<char>| w@),
            out@.map_values(|p: RustParam| param_view(p)) + interface_params(tv.skip(i as int)) == interface_params(tv),
        decreases toks.len() - i,
    {
        reveal(interface_params);
        let ghost before = out@.map_values(|p: RustParam| param_view(p));
        let name = crate::text::string_of_vec(&toks[i]);
        if i + 1 < toks.len() && starts_with_colons(&toks[i + 1], false) {
            let raw = slice_chars(&toks[i + 1], 1, toks[i + 1].len());
            let ty = interface_type_of(&raw);
            let ghost pv = (name@, ty@);
            out.push(RustParam { name, param_type: ty });
            proof {
                let rest = tv.skip(i as int);
                assert(rest[0] == tv[i as int]);
                assert(rest[1] == tv[i + 1]);
                assert(raw@ =~= tv[i + 1].skip(1));
                assert(rest.skip(2) =~= tv.skip(i + 2));
                assert(out@.map_values(|p: RustParam| param_view(p)) =~= before.push(pv));
                assert(out@.map_values(|p: RustParam| param_view(p)) + interface_params(tv.skip(i + 2)) =~= before + interface_params(rest));
            }
            i += 2;
        } else {
            let ghost pv = (name@, "Value*"@);
            out.push(RustParam { name, param_type: crate::text::string_from("Value*") });
            proof {
                let rest = tv.skip(i as int);
                assert(rest[0] == tv[i as int]);
                if i + 1 < toks@.len() {
                    assert(rest[1] == tv[i + 1]);
                }
                assert(rest.skip(1) =~= tv.skip(i + 1));
                assert(out@.map_values(|p: RustParam| param_view(p)) =~= before.push(pv));
                assert(out@.map_values(|p: RustParam| param_view(p)) + interface_params(tv.skip(i + 1)) =~= before + interface_params(rest));
            }
            i += 1;
        }
    }
    proof {
        assert(tv.skip(toks@.len() as int) =~= Seq::<Seq<char>>::empty());
        assert(out@.map_values(|p: RustParam| param_view(p)) + interface_params(tv.skip(toks@.len() as int)) =~= out@.map_values(|p: RustParam| param_view(p)));
    }
    out
}

/// The return type given by the words after an interface form's brackets.
fn interface_return_of(toks: &Vec<Vec<char>>) -> (r: String)
    ensures
        r@ == interface_return(toks@.map_values(|w: Vec<char>| w@)),
{
    reveal(interface_return);
    let ghost tv = toks@.map_values(|w: Vec<char>| w@);
    let mut i: usize = 0;
    proof {
        assert(tv.skip(0) =~= tv);
    }
    while i < toks.len()
        invariant
            i <= toks@.len(),
            tv == toks@.map_values(|w: Vec<char>| w@),
            interface_return(tv.skip(i as int)) == interface_return(tv),
        decreases toks.len() - i,
    {
        reveal(interface_return);
        proof {
            assert(tv.skip(i as int)[0] == tv[i as int]);
            assert(tv.skip(i as int).skip(1) =~= tv.skip(i + 1));
        }
        if starts_with_colons(&toks[i], false) && !starts_with_colons(&toks[i], true) {
            let raw = slice_chars(&toks[i], 1, toks[i].len());
            proof {
                assert(raw@ =~= tv[i as int].skip(1));
            }
            return interface_type_of(&raw);
        }
        i += 1;
    }
    proof {
        assert(tv.skip(i as int) =~= Seq::<Seq<char>>::empty());
    }
    crate::text::string_from("Value*")
}

/// The body of an `(fn ...)` form (see [`fn_form_body`]).
fn form_body(s1: &Vec<char>) -> (r: Vec<char>)
    requires
        s1@.len() >= 4,
    ensures
        r@ == fn_form_body(s1@),
{
    let rest = slice_chars(s1, 4, s1.len());
    proof {
        assert(rest@ =~= s1@.skip(4));
    }
    if rest.len() > 0 && rest[rest.len() - 1] == ')' {
        let r = slice_chars(&rest, 0, rest.len() - 1);
        proof {
            assert(r@ =~= rest@.drop_last());
        }
        r
    } else {
        let r = slice_chars(s1, 0, s1.len());
        proof {
            assert(r@ =~= s1@);
        }
        r
    }
}

/// The function a form body with at least one word describes.
fn function_from_body(body: &Vec<char>, toks: &Vec<Vec<char>>) -> (r: RustFunction)
    requires
        toks@.map_values(|w: Vec<char>| w@) == words(body@),
        toks@.len() > 0,
        match (first_index(body@, '['), first_index(body@, ']')) {
            (Some(a), Some(b)) => a < b,
            _ => true,
        },
    ensures
        fn_view(r) == function_of_body(body@),
{
    let name_text = crate::text::string_of_vec(&toks[0]);
    proof {
        assert(toks@.map_values(|w: Vec<char>| w@)[0] == toks@[0]@);
    }
    let name = crate::text::replace_char(name_text.as_str(), '-', '_');
    match (find_char(body, '['), find_char(body, ']')) {
        (Some(st), Some(en)) => {
            let n = body.len();
            let inner = slice_chars(body, st + 1, en);
            let after = slice_chars(body, en + 1, n);
            proof {
                assert(after@ =~= body@.skip(en + 1));
            }
            let params = interface_params_of(&words_of(&inner));
            let ret = interface_return_of(&words_of(&after));
            RustFunction { name, params, return_type: ret }
        },
        _ => {
            let f = RustFunction { name, params: Vec::new(), return_type: crate::text::string_from("Value*") };
            proof {
                assert(f.params@.map_values(|p: RustParam| param_view(p)) =~= Seq::<(Seq<char>, Seq<char>)>::empty());
            }
            f
        },
    }
}

/// Reads one interface form `(fn name [params] :return "doc")`; none when
/// the text is not such a form. Never fails.
pub fn parse_fn_form(s: &str) -> (r: Result<Option<RustFunction>, String>)
    requires
        fn_form_ok(s@),
    ensures
        r matches Ok(f) && match f {
            Some(func) => spec_parse_fn_form(s@) == Some(fn_view(func)),
            None => spec_parse_fn_form(s@) is None,
        },
{
    let s1 = crate::text::trim_chars(s);
    let s1_text = crate::text::string_of_vec(&s1);
    if !crate::text::starts_with_text(s1_text.as_str(), "(fn ") {
        return Ok(None);
    }
    proof {
        reveal_strlit("(fn ");
    }
    let body = form_body(&s1);
    let toks = words_of(&body);
    if toks.len() == 0 {
        return Ok(None);
    }
    Ok(Some(function_from_body(&body, &toks)))
}

/// The lines an interface file is read from: neither blank nor `;;`
/// comments.
pub open spec fn kept_lines(ls: Seq<Seq<char>>) -> Seq<Seq<char>>
    decreases ls.len(),
{
    if ls.len() == 0 {
        Seq::empty()
    } else {
        let before = kept_lines(ls.drop_last());
        let t = trim_seq(ls.last());
        if has_prefix(t, seq![';', ';']) || t.len() == 0 {
            before
        } else {
            before.push(ls.last())
        }
    }
}

/// The interface scanner's state: depth, inside the interface form, the
/// `fn` form being gathered, whether one is being gathered, and the forms
/// gathered.
pub type IfaceState = (int, bool, Seq<char>, bool, Seq<Seq<char>>);

/// One character of an interface file: a second-level opening parenthesis
/// inside the interface form starts an `fn` form, and its matching closing
/// parenthesis ends it.
pub open spec fn iface_step(st: IfaceState, ch: char, has_iface: bool) -> IfaceState {
    let (d, ii, cur, inf, forms) = st;
    let d1 = if ch == '(' {
        d + 1
    } else {
        d
    };
    let starts = ch == '(' && d1 == 2 && ii;
    let cur1 = if starts {
        Seq::empty()
    } else {
        cur
    };
    let inf1 = if starts {
        true
    } else {
        inf
    };
    let cur2 = if inf1 {
        cur1.push(ch)
    } else {
        cur1
    };
    let d2 = if ch == ')' {
        d1 - 1
    } else {
        d1
    };
    let ends = ch == ')' && d2 == 1 && ii && inf1;
    let inf2 = if ends {
        false
    } else {
        inf1
    };
    let forms2 = if ends {
        forms.push(cur2)
    } else {
        forms
    };
    let ii2 = if ch == ')' && d2 == 0 {
        false
    } else {
        ii
    };
    let ii3 = if d2 == 1 && !ii2 && has_iface {
        true
    } else {
        ii2
    };
    (d2, ii3, cur2, inf2, forms2)
}

/// The interface scanner's state after reading `s`.
pub open spec fn iface_scan(s: Seq<char>, has_iface: bool) -> IfaceState
    decreases s.len(),
{
    if s.len() == 0 {
        (0, false, Seq::empty(), false, Seq::empty())
    } else {
        iface_step(iface_scan(s.drop_last(), has_iface), s.last(), has_iface)
    }
}

/// The text an interface file is scanned in: its kept lines joined by
/// spaces.
pub open spec fn interface_text(content: Seq<char>) -> Seq<char> {
    join_texts(kept_lines(crate::forms::source_lines(content)), seq![' '])
}

/// The `(fn ...)` forms of an interface file.
pub open spec fn interface_forms(content: Seq<char>) -> Seq<Seq<char>> {
    let full = interface_text(content);
    iface_scan(full, has_infix(full, "interface"@)).4
}

/// The functions the forms describe, in order (forms that are not `fn`
/// forms give none).
pub open spec fn functions_of_forms(forms: Seq<Seq<char>>) -> Seq<(Seq<char>, Seq<(Seq<char>, Seq<char>)>, Seq<char>)>
    decreases forms.len(),
{
    if forms.len() == 0 {
        Seq::empty()
    } else {
        let before = functions_of_forms(forms.drop_last());
        match spec_parse_fn_form(forms.last()) {
            Some(f) => before.push(f),
            None => before,
        }
    }
}

/// Every form of the interface file has its brackets in order.
pub open spec fn interface_ok(content: Seq<char>) -> bool {
    forall|i: int| 0 <= i < interface_forms(content).len() ==> fn_form_ok(#[trigger] interface_forms(content)[i])
}

/// The kept lines of an interface file, joined by spaces.
fn interface_text_of(content: &str) -> (r: Vec<char>)
    ensures
        r@ == interface_text(content@),
{
    let lines = crate::forms::lines_of(content);
    let ghost lv = lines@.map_values(|l: Vec<char>| l@);
    let mut kept: Vec<Vec<char>> = Vec::new();
    let mut i: usize = 0;
    proof {
        assert(lv.subrange(0, 0) =~= Seq::<Seq<char>>::empty());
        assert(kept@.map_values(|l: Vec<char>| l@) =~= Seq::<Seq<char>>::empty());
    }
    while i < lines.len()
        invariant
            i <= lines@.len(),
            lv == lines@.map_values(|l: Vec<char>| l@),
            kept@.map_values(|l: Vec<char>| l@) == kept_lines(lv.subrange(0, i as int)),
        decreases lines.len() - i,
    {
        let ghost before = kept@.map_values(|l: Vec<char>| l@);
        proof {
            assert(lv.subrange(0, i + 1).drop_last() =~= lv.subrange(0, i as int));
            assert(lv.subrange(0, i + 1).last() == lines@[i as int]@);
        }
        let text = crate::text::string_of_vec(&lines[i]);
        let t = crate::text::trim_chars(text.as_str());
        let comment = t.len() >= 2 && t[0] == ';' && t[1] == ';';
        proof {
            if t@.len() >= 2 {
                if comment {
                    assert(t@.subrange(0, 2) =~= seq![';', ';']);
                } else if t@[0] != ';' {
                    assert(t@.subrange(0, 2)[0] != seq![';', ';'][0]);
                } else {
                    assert(t@.subrange(0, 2)[1] != seq![';', ';'][1]);
                }
            }
        }
        if !(comment || t.len() == 0) {
            let ghost lv_i = lines@[i as int]@;
            kept.push(slice_chars(&lines[i], 0, lines[i].len()));
            proof {
                assert(lines@[i as int]@.subrange(0, lines@[i as int]@.len() as int) =~= lines@[i as int]@);
                assert(kept@.map_values(|l: Vec<char>| l@) =~= before.push(lv_i));
            }
        }
        i += 1;
    }
    proof {
        assert(lv.subrange(0, lv.len() as int) =~= lv);
    }
    let mut out = String::new();
    crate::printer::push_joined(&mut out, &kept, " ");
    proof {
        reveal_strlit(" ");
        assert(" "@ =~= seq![' ']);
        assert(out@ =~= interface_text(content@));
    }
    chars_of(out.as_str())
}

/// The `(fn ...)` forms of an interface file.
fn interface_forms_of(content: &str) -> (r: Vec<Vec<char>>)
    ensures
        r@.map_values(|f: Vec<char>| f@) == interface_forms(content@),
{
    let full = interface_text_of(content);
    let full_text = crate::text::string_of_vec(&full);
    let has_iface = crate::text::contains_text(full_text.as_str(), "interface");
    let mut depth: i128 = 0;
    let mut in_iface = false;
    let mut cur: Vec<char> = Vec::new();
    let mut in_fn = false;
    let mut forms: Vec<Vec<char>> = Vec::new();
    let mut i: usize = 0;
    proof {
        assert(full@.subrange(0, 0) =~= Seq::<char>::empty());
        assert(forms@.map_values(|f: Vec<char>| f@) =~= Seq::<Seq<char>>::empty());
    }
    while i < full.len()
        invariant
            i <= full@.len(),
            -(i as int) <= depth <= i,
            (depth as int, in_iface, cur@, in_fn, forms@.map_values(|f: Vec<char>| f@)) == iface_scan(
                full@.subrange(0, i as int),
                has_iface,
            ),
        decreases full.len() - i,
    {
        let ch = full[i];
        let ghost fb = forms@.map_values(|f: Vec<char>| f@);
        proof {
            assert(full@.subrange(0, i + 1).drop_last() =~= full@.subrange(0, i as int));
            assert(full@.subrange(0, i + 1).last() == ch);
        }
        if ch == '(' {
            depth = depth + 1;
            if depth == 2 && in_iface {
                cur = Vec::new();
                in_fn = true;
            }
        }
        if in_fn {
            cur.push(ch);
        }
        if ch == ')' {
            depth = depth - 1;
            if depth == 1 && in_iface && in_fn {
                let ghost cv = cur@;
                forms.push(slice_chars(&cur, 0, cur.len()));
                proof {
                    assert(cur@.subrange(0, cur@.len() as int) =~= cur@);
                    assert(forms@.map_values(|f: Vec<char>| f@) =~= fb.push(cv));
                }
                in_fn = false;
            }
            if depth == 0 {
                in_iface = false;
            }
        }
        if depth == 1 && !in_iface && has_iface {
            in_iface = true;
        }
        i += 1;
    }
    proof {
        assert(full@.subrange(0, full@.len() as int) =~= full@);
    }
    forms
}

/// Reads a `.clorus-ffi` interface file `(interface lib (fn ...) ...)`:
/// the library named `lib_name` with the function of each `fn` form, in
/// order. Never fails.
pub fn parse_interface_file(content: &str, lib_name: &str) -> (r: Result<RustLibrary, String>)
    requires
        interface_ok(content@),
    ensures
        r matches Ok(lib) && lib.name@ == lib_name@ && lib.functions@.map_values(|f: RustFunction| fn_view(f))
            == functions_of_forms(interface_forms(content@)),
{
    let forms = interface_forms_of(content);
    let ghost fv = forms@.map_values(|f: Vec<char>| f@);
    let mut functions: Vec<RustFunction> = Vec::new();
    let mut i: usize = 0;
    proof {
        assert(fv.subrange(0, 0) =~= Seq::<Seq<char>>::empty());
        assert(functions@.map_values(|f: RustFunction| fn_view(f)) =~= Seq::<(Seq<char>, Seq<(Seq<char>, Seq<char>)>, Seq<char>)>::empty());
    }
    while i < forms.len()
        invariant
            i <= forms@.len(),
            fv == forms@.map_values(|f: Vec<char>| f@),
            fv == interface_forms(content@),
            interface_ok(content@),
            functions@.map_values(|f: RustFunction| fn_view(f)) == functions_of_forms(fv.subrange(0, i as int)),
        decreases forms.len() - i,
    {
        let ghost before = functions@.map_values(|f: RustFunction| fn_view(f));
        proof {
            assert(fv.subrange(0, i + 1).drop_last() =~= fv.subrange(0, i as int));
            assert(fv.subrange(0, i + 1).last() == forms@[i as int]@);
            assert(fn_form_ok(interface_forms(content@)[i as int]));
        }
        let text = crate::text::string_of_vec(&forms[i]);
        match parse_fn_form(text.as_str()) {
            Ok(Some(f)) => {
                let ghost v = fn_view(f);
                functions.push(f);
                proof {
                    assert(functions@.map_values(|f: RustFunction| fn_view(f)) =~= before.push(v));
                }
            },
            _ => {},
        }
        i += 1;
    }
    proof {
        assert(fv.subrange(0, fv.len() as int) =~= fv);
    }
    Ok(RustLibrary { name: crate::text::string_from(lib_name), functions })
}

/// How a wrapper's Rust type reads in the REPL: a C string pointer is a
/// `String`; every other type stays as written.
pub open spec fn wrapper_type(t: Seq<char>) -> Seq<char> {
    if t == "*mut c_char"@ {
        "String"@
    } else {
        t
    }
}

/// The parameters of a wrapper declaration, from its comma-separated
/// pieces: each non-empty piece with a colon gives a name and a type.
pub open spec fn wrapper_params(pieces: Seq<Seq<char>>) -> Seq<(Seq<char>, Seq<char>)>
    decreases pieces.len(),
{
    if pieces.len() == 0 {
        Seq::empty()
    } else {
        let before = wrapper_params(pieces.drop_last());
        let p = trim_seq(pieces.last());
        if p.len() == 0 {
            before
        } else {
            match first_index(p, ':') {
                Some(c) => if 0 <= c < p.len() {
                    before.push((trim_seq(p.take(c)), wrapper_type(trim_seq(p.skip(c + 1)))))
                } else {
                    before
                },
                None => before,
            }
        }
    }
}

/// The return type of a wrapper declaration: the text after `-> ` (up to
/// a `{`), or `()`.
pub open spec fn wrapper_return(decl: Seq<char>) -> Seq<char> {
    match first_occurrence(decl, "-> "@) {
        Some(a) => if 0 <= a && a + 3 <= decl.len() {
            let r = trim_seq(decl.skip(a + 3));
            wrapper_type(
                match first_index(r, '{') {
                    Some(b) => if 0 <= b <= r.len() {
                        trim_seq(r.take(b))
                    } else {
                        r
                    },
                    None => r,
                },
            )
        } else {
            "()"@
        },
        None => "()"@,
    }
}

/// The start of a wrapper declaration line.
pub open spec fn decl_prefix() -> Seq<char> {
    "pub extern \"C\" fn "@
}

/// A wrapper declaration's parentheses are in order (Rust would panic on
/// the slices otherwise): the name ends at the first `(`, and a first `)`
/// comes after it.
pub open spec fn decl_ok(decl: Seq<char>) -> bool {
    match (first_occurrence(decl, " fn "@), first_index(decl, '(')) {
        (Some(f), Some(p)) => f + 4 <= p && match first_index(decl, ')') {
            Some(e) => p < e,
            None => true,
        },
        _ => true,
    }
}

/// The function a wrapper declaration `pub extern "C" fn clorus_name(a:
/// T, ...) -> R` declares: `clorus_` dropped and underscores made dashes;
/// none without a parameter list.
pub open spec fn parse_decl(decl: Seq<char>) -> Option<(Seq<char>, Seq<(Seq<char>, Seq<char>)>, Seq<char>)> {
    match (first_occurrence(decl, " fn "@), first_index(decl, '(')) {
        (Some(f), Some(p)) => if 0 <= f && f + 4 <= p < decl.len() {
            let full_name = trim_seq(decl.subrange(f + 4, p));
            let name = if has_prefix(full_name, "clorus_"@) {
                replace_char_seq(full_name.skip(7), '_', '-')
            } else {
                replace_char_seq(full_name, '_', '-')
            };
            let params_end = match first_index(decl, ')') {
                Some(e) => e,
                None => decl.len() as int,
            };
            let params_str = if p + 1 <= params_end <= decl.len() {
                decl.subrange(p + 1, params_end)
            } else {
                Seq::empty()
            };
            let params = if trim_seq(params_str).len() == 0 {
                Seq::empty()
            } else {
                wrapper_params(split_text(params_str, seq![',']))
            };
            Some((name, params, wrapper_return(decl)))
        } else {
            None
        },
        _ => None,
    }
}

/// The functions declared in wrapper source lines from line `i` on: each
/// `#[no_mangle]` line followed by a declaration line gives one; both
/// lines are then passed over.
pub open spec fn wrapper_functions(lines: Seq<Seq<char>>, i: int) -> Seq<(Seq<char>, Seq<(Seq<char>, Seq<char>)>, Seq<char>)>
    decreases lines.len() - i,
{
    if i < 0 || i >= lines.len() {
        Seq::empty()
    } else if trim_seq(lines[i]) == "#[no_mangle]"@ && i + 1 < lines.len() {
        let next = trim_seq(lines[i + 1]);
        let here = if has_prefix(next, decl_prefix()) {
            match parse_decl(next) {
                Some(f) => seq![f],
                None => Seq::empty(),
            }
        } else {
            Seq::empty()
        };
        here + wrapper_functions(lines, i + 2)
    } else {
        wrapper_functions(lines, i + 1)
    }
}

/// Every declaration line that the wrapper reader looks at, from line
/// `i` on, has its parentheses in order.
pub open spec fn wrapper_ok_from(lines: Seq<Seq<char>>, i: int) -> bool
    decreases lines.len() - i,
{
    if i < 0 || i >= lines.len() {
        true
    } else if trim_seq(lines[i]) == "#[no_mangle]"@ && i + 1 < lines.len() {
        (has_prefix(trim_seq(lines[i + 1]), decl_prefix()) ==> decl_ok(trim_seq(lines[i + 1])))
            && wrapper_ok_from(lines, i + 2)
    } else {
        wrapper_ok_from(lines, i + 1)
    }
}

/// Every declaration line that the wrapper reader looks at has its
/// parentheses in order.
pub open spec fn wrapper_ok(content: Seq<char>) -> bool {
    wrapper_ok_from(crate::forms::source_lines(content), 0)
}

/// The first occurrence of `p` in `cs`, if any.
fn find_text(cs: &Vec<char>, p: &str) -> (r: Option<usize>)
    ensures
        match r {
            Some(i) => first_occurrence(cs@, p@) == Some(i as int) && i + p@.len() <= cs@.len(),
            None => first_occurrence(cs@, p@) is None,
        },
{
    let ps = chars_of(p);
    match crate::text::find_from(cs, &ps, 0) {
        Some(i) => {
            proof {
                crate::text::lemma_first_occurrence(cs@, ps@, i as int);
            }
            Some(i)
        },
        None => {
            proof {
                crate::text::lemma_no_occurrence(cs@, ps@);
            }
            None
        },
    }
}

/// The trimmed characters of `cs`.
fn trimmed(cs: &Vec<char>) -> (r: Vec<char>)
    ensures
        r@ == trim_seq(cs@),
{
    let t = crate::text::string_of_vec(cs);
    crate::text::trim_chars(t.as_str())
}

/// A wrapper type as the REPL reads it.
fn wrapper_type_of(t: &Vec<char>) -> (r: String)
    ensures
        r@ == wrapper_type(t@),
{
    if chars_eq(t, "*mut c_char") {
        crate::text::string_from("String")
    } else {
        crate::text::string_of_vec(t)
    }
}

/// The parameters of the comma-separated pieces of a parameter list.
fn wrapper_params_of(pieces: &Vec<Vec<char>>) -> (r: Vec<RustParam>)
    ensures
        r@.map_values(|p: RustParam| param_view(p)) == wrapper_params(pieces@.map_values(|w: Vec<char>| w@)),
{
    let ghost pv = pieces@.map_values(|w: Vec<char>| w@);
    let mut out: Vec<RustParam> = Vec::new();
    let mut i: usize = 0;
    proof {
        assert(pv.subrange(0, 0) =~= Seq::<Seq<char>>::empty());
        assert(out@.map_values(|p: RustParam| param_view(p)) =~= Seq::<(Seq<char>, Seq<char>)>::empty());
    }
    while i < pieces.len()
        invariant
            i <= pieces@.len(),
            pv == pieces@.map_values(|w: Vec<char>| w@),
            out@.map_values(|p: RustParam| param_view(p)) == wrapper_params(pv.subrange(0, i as int)),
        decreases pieces.len() - i,
    {
        let ghost before = out@.map_values(|p: RustParam| param_view(p));
        proof {
            assert(pv.subrange(0, i + 1).drop_last() =~= pv.subrange(0, i as int));
            assert(pv.subrange(0, i + 1).last() == pieces@[i as int]@);
        }
        let p = trimmed(&pieces[i]);
        if p.len() > 0 {
            match find_char(&p, ':') {
                Some(c) => {
                    let n = p.len();
                    let name = trimmed(&slice_chars(&p, 0, c));
                    let ty = trimmed(&slice_chars(&p, c + 1, n));
                    proof {
                        assert(p@.subrange(0, c as int) =~= p@.take(c as int));
                        assert(p@.subrange(c + 1, n as int) =~= p@.skip(c + 1));
                    }
                    let param = RustParam { name: crate::text::string_of_vec(&name), param_type: wrapper_type_of(&ty) };
                    let ghost v = param_view(param);
                    out.push(param);
                    proof {
                        assert(out@.map_values(|p: RustParam| param_view(p)) =~= before.push(v));
                    }
                },
                None => {},
            }
        }
        i += 1;
    }
    proof {
        assert(pv.subrange(0, pv.len() as int) =~= pv);
    }
    out
}

/// The return type of a wrapper declaration.
fn wrapper_return_of(decl: &Vec<char>) -> (r: String)
    ensures
        r@ == wrapper_return(decl@),
{
    match find_text(decl, "-> ") {
        Some(a) => {
            proof {
                reveal_strlit("-> ");
            }
            let n = decl.len();
            let rest = slice_chars(decl, a + 3, n);
            proof {
                assert(rest@ =~= decl@.skip(a + 3));
            }
            let r = trimmed(&rest);
            match find_char(&r, '{') {
                Some(b) => {
                    let head = slice_chars(&r, 0, b);
                    proof {
                        assert(head@ =~= r@.take(b as int));
                    }
                    wrapper_type_of(&trimmed(&head))
                },
                None => wrapper_type_of(&r),
            }
        },
        None => crate::text::string_from("()"),
    }
}

/// The function a wrapper declaration line declares (see [`parse_decl`]).
fn parse_decl_of(decl: &Vec<char>) -> (r: Option<RustFunction>)
    requires
        decl_ok(decl@),
    ensures
        match r {
            Some(f) => parse_decl(decl@) == Some(fn_view(f)),
            None => parse_decl(decl@) is None,
        },
{
    let f = match find_text(decl, " fn ") {
        Some(f) => f,
        None => {
            return None;
        },
    };
    let p = match find_char(decl, '(') {
        Some(p) => p,
        None => {
            return None;
        },
    };
    proof {
        reveal_strlit(" fn ");
    }
    let n = decl.len();
    let full_name = trimmed(&slice_chars(decl, f + 4, p));
    let full_text = crate::text::string_of_vec(&full_name);
    let name = if crate::text::starts_with_text(full_text.as_str(), "clorus_") {
        proof {
            reveal_strlit("clorus_");
        }
        let short = slice_chars(&full_name, 7, full_name.len());
        proof {
            assert(short@ =~= full_name@.skip(7));
        }
        let short_text = crate::text::string_of_vec(&short);
        crate::text::replace_char(short_text.as_str(), '_', '-')
    } else {
        crate::text::replace_char(full_text.as_str(), '_', '-')
    };
    let params_end: usize = match find_char(decl, ')') {
        Some(e) => e,
        None => n,
    };
    let params_str = slice_chars(decl, p + 1, params_end);
    let params: Vec<RustParam> = if trimmed(&params_str).len() == 0 {
        Vec::new()
    } else {
        let comma: Vec<char> = vec![','];
        proof {
            assert(comma@ =~= seq![',']);
        }
        let pieces = crate::strings::split_pieces(&params_str, &comma);
        wrapper_params_of(&pieces)
    };
    let ret = wrapper_return_of(decl);
    let func = RustFunction { name, params, return_type: ret };
    proof {
        if trim_seq(params_str@).len() == 0 {
            assert(func.params@.map_values(|p: RustParam| param_view(p)) =~= Seq::<(Seq<char>, Seq<char>)>::empty());
        }
    }
    Some(func)
}

/// Reads the generated wrapper source of a library: each `#[no_mangle]`
/// line followed by a `pub extern "C" fn` declaration gives a function.
/// Never fails.
pub fn parse_wrapper_source(content: &str, lib_name: &str) -> (r: Result<RustLibrary, String>)
    requires
        wrapper_ok(content@),
    ensures
        r matches Ok(lib) && lib.name@ == lib_name@ && lib.functions@.map_values(|f: RustFunction| fn_view(f))
            == wrapper_functions(crate::forms::source_lines(content@), 0),
{
    let lines = crate::forms::lines_of(content);
    let ghost lv = lines@.map_values(|l: Vec<char>| l@);
    let mut functions: Vec<RustFunction> = Vec::new();
    let mut i: usize = 0;
    proof {
        assert(functions@.map_values(|f: RustFunction| fn_view(f)) =~= Seq::<(Seq<char>, Seq<(Seq<char>, Seq<char>)>, Seq<char>)>::empty());
    }
    while i < lines.len()
        invariant
            lv == lines@.map_values(|l: Vec<char>| l@),
            lv == crate::forms::source_lines(content@),
            wrapper_ok_from(lv, i as int),
            functions@.map_values(|f: RustFunction| fn_view(f)) + wrapper_functions(lv, i as int)
                == wrapper_functions(lv, 0),
        decreases lines.len() - i,
    {
        let ghost before = functions@.map_values(|f: RustFunction| fn_view(f));
        let line = trimmed(&lines[i]);
        proof {
            assert(lv[i as int] == lines@[i as int]@);
        }
        if chars_eq(&line, "#[no_mangle]") && i + 1 < lines.len() {
            let next = trimmed(&lines[i + 1]);
            let next_text = crate::text::string_of_vec(&next);
            proof {
                assert(lv[i + 1] == lines@[i + 1]@);
                reveal_strlit("pub extern \"C\" fn ");
            }
            if crate::text::starts_with_text(next_text.as_str(), "pub extern \"C\" fn ") {
                match parse_decl_of(&next) {
                    Some(f) => {
                        let ghost v = fn_view(f);
                        functions.push(f);
                        proof {
                            assert(functions@.map_values(|f: RustFunction| fn_view(f)) =~= before.push(v));
                            assert(seq![v] + wrapper_functions(lv, i + 2) =~= wrapper_functions(lv, i as int));
                            assert(functions@.map_values(|f: RustFunction| fn_view(f)) + wrapper_functions(lv, i + 2)
                                =~= before + wrapper_functions(lv, i as int));
                        }
                    },
                    None => {
                        proof {
                            assert(Seq::<(Seq<char>, Seq<(Seq<char>, Seq<char>)>, Seq<char>)>::empty() + wrapper_functions(lv, i + 2)
                                =~= wrapper_functions(lv, i as int));
                        }
                    },
                }
            } else {
                proof {
                    assert(Seq::<(Seq<char>, Seq<(Seq<char>, Seq<char>)>, Seq<char>)>::empty() + wrapper_functions(lv, i + 2)
                        =~= wrapper_functions(lv, i as int));
                }
            }
            i += 2;
        } else {
            i += 1;
        }
    }
    proof {
        assert(wrapper_functions(lv, i as int) =~= Seq::<(Seq<char>, Seq<(Seq<char>, Seq<char>)>, Seq<char>)>::empty());
        assert(functions@.map_values(|f: RustFunction| fn_view(f)) =~= functions@.map_values(|f: RustFunction| fn_view(f)) + wrapper_functions(lv, i as int));
    }
    Ok(RustLibrary { name: crate::text::string_from(lib_name), functions })
}

/// Whether an `(fn ...)` form has its brackets in order (see
/// [`fn_form_ok`]).
pub fn check_fn_form(s: &str) -> (r: bool)
    ensures
        r == fn_form_ok(s@),
{
    let s1 = crate::text::trim_chars(s);
    let s1_text = crate::text::string_of_vec(&s1);
    if !crate::text::starts_with_text(s1_text.as_str(), "(fn ") {
        return true;
    }
    proof {
        reveal_strlit("(fn ");
    }
    let body = form_body(&s1);
    match (find_char(&body, '['), find_char(&body, ']')) {
        (Some(a), Some(b)) => a < b,
        _ => true,
    }
}

/// Whether every form of an interface file has its brackets in order, so
/// that [`parse_interface_file`] may read it.
pub fn check_interface(content: &str) -> (r: bool)
    ensures
        r == interface_ok(content@),
{
    let forms = interface_forms_of(content);
    let ghost fv = forms@.map_values(|f: Vec<char>| f@);
    let mut i: usize = 0;
    while i < forms.len()
        invariant
            i <= forms@.len(),
            fv == forms@.map_values(|f: Vec<char>| f@),
            fv == interface_forms(content@),
            forall|j: int| 0 <= j < i ==> fn_form_ok(#[trigger] fv[j]),
        decreases forms.len() - i,
    {
        let text = crate::text::string_of_vec(&forms[i]);
        if !check_fn_form(text.as_str()) {
            proof {
                assert(fv[i as int] == forms@[i as int]@);
            }
            return false;
        }
        i += 1;
    }
    true
}

/// Whether a wrapper declaration line has its parentheses in order (see
/// [`decl_ok`]).
fn check_decl(decl: &Vec<char>) -> (r: bool)
    ensures
        r == decl_ok(decl@),
{
    let _n = decl.len();
    match (find_text(decl, " fn "), find_char(decl, '(')) {
        (Some(f), Some(p)) => {
            proof {
                reveal_strlit(" fn ");
            }
            f + 4 <= p && match find_char(decl, ')') {
                Some(e) => p < e,
                None => true,
            }
        },
        _ => true,
    }
}

/// Whether every declaration line that [`parse_wrapper_source`] reads has
/// its parentheses in order.
pub fn check_wrapper_source(content: &str) -> (r: bool)
    ensures
        r == wrapper_ok(content@),
{
    let lines = crate::forms::lines_of(content);
    let ghost lv = lines@.map_values(|l: Vec<char>| l@);
    let mut i: usize = 0;
    while i < lines.len()
        invariant
            lv == lines@.map_values(|l: Vec<char>| l@),
            lv == crate::forms::source_lines(content@),
            wrapper_ok_from(lv, 0) == wrapper_ok_from(lv, i as int),
        decreases lines.len() - i,
    {
        let line = trimmed(&lines[i]);
        proof {
            assert(lv[i as int] == lines@[i as int]@);
        }
        if chars_eq(&line, "#[no_mangle]") && i + 1 < lines.len() {
            let next = trimmed(&lines[i + 1]);
            let next_text = crate::text::string_of_vec(&next);
            proof {
                assert(lv[i + 1] == lines@[i + 1]@);
                reveal_strlit("pub extern \"C\" fn ");
            }
            if crate::text::starts_with_text(next_text.as_str(), "pub extern \"C\" fn ") && !check_decl(&next) {
                return false;
            }
            i += 2;
        } else {
            i += 1;
        }
    }
    true
}

} // verus!
