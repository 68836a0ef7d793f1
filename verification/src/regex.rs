//! Regular expressions on string values (`re-find`, `re-matches`,
//! `re-seq`, `re-replace`, `re-replace-first`), matched by `regex_lite`.
//!
//! What a regular expression matches is `regex_lite`'s to decide; the
//! results of its calls are named below as functions of the pattern's
//! source and the haystack, and the library's own logic (how matches
//! become values, when a whole-input match counts) is verified over them.

use crate::strings::{bytes_of, is_str_of, str_fits, str_text};
use crate::value::Value;
use std::rc::Rc;
use vstd::prelude::*;

verus! {

/// `regex_lite::Regex`, a compiled regular expression.
#[verifier::external_type_specification]
#[verifier::external_body]
pub struct ExRegex(regex_lite::Regex);

/// A compiled regular expression with the source it was compiled from.
pub struct Pattern {
    pub(crate) source: String,
    pub(crate) re: regex_lite::Regex,
}

impl Pattern {
    /// The source the expression was compiled from.
    pub closed spec fn source_view(&self) -> Seq<char> {
        self.source@
    }
}

/// One capture group's match: its byte span and the text it matched.
pub struct GroupMatch {
    pub start: usize,
    pub end: usize,
    pub text: String,
}

/// The view of a group match.
pub open spec fn group_view(g: Option<GroupMatch>) -> Option<(usize, usize, Seq<char>)> {
    match g {
        Some(m) => Some((m.start, m.end, m.text@)),
        None => None,
    }
}

/// The view of the groups of one match.
pub open spec fn groups_view(v: Seq<Option<GroupMatch>>) -> Seq<Option<(usize, usize, Seq<char>)>> {
    v.map_values(|g: Option<GroupMatch>| group_view(g))
}

/// Whether `regex_lite` accepts `p` as a regular expression.
pub uninterp spec fn regex_valid(p: Seq<char>) -> bool;

/// The groups of the leftmost match of `p` in `hay` (group 0 is the whole
/// match), or none when it does not match.
pub uninterp spec fn regex_first_match(p: Seq<char>, hay: Seq<char>) -> Option<
    Seq<Option<(usize, usize, Seq<char>)>>,
>;

/// The groups of each successive non-overlapping match of `p` in `hay`.
pub uninterp spec fn regex_all_matches(p: Seq<char>, hay: Seq<char>) -> Seq<
    Seq<Option<(usize, usize, Seq<char>)>>,
>;

/// `hay` with every match of `p` replaced by `rep` (with `$` group
/// references expanded).
pub uninterp spec fn regex_replace_all(p: Seq<char>, hay: Seq<char>, rep: Seq<char>) -> Seq<char>;

/// `hay` with the first match of `p` replaced by `rep`.
pub uninterp spec fn regex_replace_first(p: Seq<char>, hay: Seq<char>, rep: Seq<char>) -> Seq<char>;

/// `regex_lite::Regex::new`. Claimed: it succeeds exactly on the patterns
/// named valid, and the compiled expression keeps its source.
#[verifier::external_body]
fn compile_regex(p: &str) -> (r: Option<Pattern>)
    ensures
        r is Some == regex_valid(p@),
        r matches Some(pt) ==> pt.source_view() == p@,
{
    match regex_lite::Regex::new(p) {
        Ok(re) => Some(Pattern { source: p.to_string(), re }),
        Err(_) => None,
    }
}

/// `regex_lite::Regex::captures`, each group converted to its span and
/// text. Claimed: the result is the named leftmost match of the
/// expression's source in `hay`; a match has at least one group and group
/// 0 (the whole match) is present, as the crate's documentation says.
#[verifier::external_body]
fn first_captures(pt: &Pattern, hay: &str) -> (r: Option<Vec<Option<GroupMatch>>>)
    ensures
        match r {
            Some(v) => regex_first_match(pt.source_view(), hay@) == Some(groups_view(v@)) && v@.len()
                >= 1 && v@[0] is Some,
            None => regex_first_match(pt.source_view(), hay@) is None,
        },
{
    pt.re.captures(hay).map(
        |caps| {
            (0..caps.len()).map(
                |i| caps.get(i).map(|m| GroupMatch { start: m.start(), end: m.end(), text: m.as_str().to_string() }),
            ).collect()
        },
    )
}

/// `regex_lite::Regex::captures_iter`, collected. Claimed: the result is
/// the named sequence of successive matches; each has at least one group
/// and group 0 present.
#[verifier::external_body]
fn all_captures(pt: &Pattern, hay: &str) -> (r: Vec<Vec<Option<GroupMatch>>>)
    ensures
        r@.len() == regex_all_matches(pt.source_view(), hay@).len(),
        forall|i: int|
            0 <= i < r@.len() ==> groups_view((#[trigger] r@[i])@) == regex_all_matches(pt.source_view(), hay@)[i]
                && r@[i]@.len() >= 1 && r@[i]@[0] is Some,
{
    pt.re.captures_iter(hay).map(
        |caps| {
            (0..caps.len()).map(
                |i| caps.get(i).map(|m| GroupMatch { start: m.start(), end: m.end(), text: m.as_str().to_string() }),
            ).collect()
        },
    ).collect()
}

/// `regex_lite::Regex::replace_all` with a string replacement. Claimed:
/// the result is the named replacement of every match.
#[verifier::external_body]
fn replace_all_matches(pt: &Pattern, hay: &str, rep: &str) -> (r: String)
    ensures
        r@ == regex_replace_all(pt.source_view(), hay@, rep@),
{
    pt.re.replace_all(hay, rep).to_string()
}

/// `regex_lite::Regex::replace` with a string replacement. Claimed: the
/// result is the named replacement of the first match.
#[verifier::external_body]
fn replace_first_match(pt: &Pattern, hay: &str, rep: &str) -> (r: String)
    ensures
        r@ == regex_replace_first(pt.source_view(), hay@, rep@),
{
    pt.re.replace(hay, rep).to_string()
}

/// The value of one match: the whole match's text when the expression
/// has no groups; otherwise a vector of each group's text (nil for a group
/// that did not take part).
pub open spec fn match_value(r: Value, groups: Seq<Option<(usize, usize, Seq<char>)>>) -> bool {
    if groups.len() <= 1 {
        match groups[0] {
            Some(g) => is_str_of(r, g.2),
            None => r == Value::Nil,
        }
    } else {
        r matches Value::Vector(xs) && xs@.len() == groups.len() && forall|i: int|
            0 <= i < groups.len() ==> match groups[i] {
                Some(g) => is_str_of(#[trigger] xs@[i], g.2),
                None => xs@[i] == Value::Nil,
            }
    }
}

/// The value of one match (see [`match_value`]).
pub fn captures_to_value(groups: &Vec<Option<GroupMatch>>) -> (r: Value)
    requires
        groups@.len() >= 1,
    ensures
        match_value(r, groups_view(groups@)),
{
    if groups.len() <= 1 {
        return match &groups[0] {
            Some(g) => Value::Str(g.text.clone()),
            None => Value::Nil,
        };
    }
    let mut out: Vec<Value> = Vec::new();
    let mut i: usize = 0;
    while i < groups.len()
        invariant
            i <= groups@.len(),
            out@.len() == i,
            forall|q: int| 0 <= q < i ==> match groups_view(groups@)[q] {
                Some(g) => is_str_of(#[trigger] out@[q], g.2),
                None => out@[q] == Value::Nil,
            },
        decreases groups.len() - i,
    {
        let v = match &groups[i] {
            Some(g) => Value::Str(g.text.clone()),
            None => Value::Nil,
        };
        out.push(v);
        i += 1;
    }
    Value::Vector(Rc::new(out))
}

/// `(re-find pattern s)`: the value of the leftmost match (see
/// [`match_value`]); nil when nothing matches, the pattern is invalid, or
/// an argument is not a string.
pub fn clorus_re_find(pattern: &Value, s: &Value) -> (r: Value)
    ensures
        match (str_text(*pattern), str_text(*s)) {
            (Some(p), Some(t)) => if !regex_valid(p) {
                r == Value::Nil
            } else {
                match regex_first_match(p, t) {
                    Some(gs) => match_value(r, gs),
                    None => r == Value::Nil,
                }
            },
            _ => r == Value::Nil,
        },
{
    match (pattern, s) {
        (Value::Str(p), Value::Str(t)) => match compile_regex(p.as_str()) {
            None => Value::Nil,
            Some(pt) => match first_captures(&pt, t.as_str()) {
                Some(gs) => captures_to_value(&gs),
                None => Value::Nil,
            },
        },
        _ => Value::Nil,
    }
}

/// The whole match spans all `n` bytes of the input.
pub open spec fn covers_input(gs: Seq<Option<(usize, usize, Seq<char>)>>, n: nat) -> bool {
    gs.len() >= 1 && match gs[0] {
        Some(g) => g.0 == 0 && g.1 == n,
        None => false,
    }
}

/// `(re-matches pattern s)`: like `re-find`, but only when the leftmost
/// match covers the whole input.
pub fn clorus_re_matches(pattern: &Value, s: &Value) -> (r: Value)
    requires
        str_fits(*s),
    ensures
        match (str_text(*pattern), str_text(*s)) {
            (Some(p), Some(t)) => if !regex_valid(p) {
                r == Value::Nil
            } else {
                match regex_first_match(p, t) {
                    Some(gs) => if covers_input(gs, bytes_of(t).len()) {
                        match_value(r, gs)
                    } else {
                        r == Value::Nil
                    },
                    None => r == Value::Nil,
                }
            },
            _ => r == Value::Nil,
        },
        r != Value::Nil <==> (str_text(*pattern) is Some && str_text(*s) is Some && regex_valid(str_text(*pattern)->0)
            && (regex_first_match(str_text(*pattern)->0, str_text(*s)->0) matches Some(gs) && gs.len() >= 1 && (
        gs[0] matches Some(g) && g.0 == 0 && g.1 == bytes_of(str_text(*s)->0).len()))),
{
    match (pattern, s) {
        (Value::Str(p), Value::Str(t)) => match compile_regex(p.as_str()) {
            None => Value::Nil,
            Some(pt) => match first_captures(&pt, t.as_str()) {
                Some(gs) => {
                    let n = t.as_str().len();
                    let whole = match &gs[0] {
                        Some(g) => g.start == 0 && g.end == n,
                        None => false,
                    };
                    if whole {
                        captures_to_value(&gs)
                    } else {
                        Value::Nil
                    }
                },
                None => Value::Nil,
            },
        },
        _ => Value::Nil,
    }
}

/// `(re-seq pattern s)`: a vector of the values of all successive
/// matches; nil when there is none, the pattern is invalid, or an argument
/// is not a string.
pub fn clorus_re_seq(pattern: &Value, s: &Value) -> (r: Value)
    ensures
        match (str_text(*pattern), str_text(*s)) {
            (Some(p), Some(t)) => if !regex_valid(p) || regex_all_matches(p, t).len() == 0 {
                r == Value::Nil
            } else {
                r matches Value::Vector(xs) && xs@.len() == regex_all_matches(p, t).len() && forall|i: int|
                    0 <= i < xs@.len() ==> match_value(#[trigger] xs@[i], regex_all_matches(p, t)[i])
            },
            _ => r == Value::Nil,
        },
{
    match (pattern, s) {
        (Value::Str(p), Value::Str(t)) => match compile_regex(p.as_str()) {
            None => Value::Nil,
            Some(pt) => {
                let all = all_captures(&pt, t.as_str());
                if all.len() == 0 {
                    return Value::Nil;
                }
                let mut out: Vec<Value> = Vec::new();
                let mut i: usize = 0;
                while i < all.len()
                    invariant
                        i <= all@.len(),
                        out@.len() == i,
                        forall|q: int|
                            0 <= q < all@.len() ==> groups_view((#[trigger] all@[q])@) == regex_all_matches(pt.source_view(), t@)[q]
                                && all@[q]@.len() >= 1,
                        forall|q: int| 0 <= q < i ==> match_value(#[trigger] out@[q], regex_all_matches(pt.source_view(), t@)[q]),
                    decreases all.len() - i,
                {
                    out.push(captures_to_value(&all[i]));
                    i += 1;
                }
                Value::Vector(Rc::new(out))
            },
        },
        _ => Value::Nil,
    }
}

/// `(re-replace s pattern replacement)` with a string replacement (or
/// none: empty): every match replaced; `s` when the pattern is not a
/// string or invalid; empty when `s` is not a string.
pub fn clorus_re_replace(s: &Value, pattern: &Value, replacement: &Value) -> (r: Value)
    ensures
        match (str_text(*s), str_text(*pattern)) {
            (Some(t), Some(p)) => if regex_valid(p) {
                is_str_of(
                    r,
                    regex_replace_all(
                        p,
                        t,
                        match str_text(*replacement) {
                            Some(x) => x,
                            None => Seq::empty(),
                        },
                    ),
                )
            } else {
                is_str_of(r, t)
            },
            (Some(t), None) => is_str_of(r, t),
            _ => is_str_of(r, Seq::empty()),
        },
{
    match (s, pattern) {
        (Value::Str(t), Value::Str(p)) => match compile_regex(p.as_str()) {
            None => Value::Str(t.clone()),
            Some(pt) => {
                let rep: String = match replacement {
                    Value::Str(x) => x.clone(),
                    _ => String::new(),
                };
                Value::Str(replace_all_matches(&pt, t.as_str(), rep.as_str()))
            },
        },
        (Value::Str(t), _) => Value::Str(t.clone()),
        _ => Value::Str(String::new()),
    }
}

/// `(re-replace-first s pattern replacement)` with a string replacement:
/// the first match replaced; otherwise as `re-replace`.
pub fn clorus_re_replace_first(s: &Value, pattern: &Value, replacement: &Value) -> (r: Value)
    ensures
        match (str_text(*s), str_text(*pattern)) {
            (Some(t), Some(p)) => if regex_valid(p) {
                is_str_of(
                    r,
                    regex_replace_first(
                        p,
                        t,
                        match str_text(*replacement) {
                            Some(x) => x,
                            None => Seq::empty(),
                        },
                    ),
                )
            } else {
                is_str_of(r, t)
            },
            (Some(t), None) => is_str_of(r, t),
            _ => is_str_of(r, Seq::empty()),
        },
{
    match (s, pattern) {
        (Value::Str(t), Value::Str(p)) => match compile_regex(p.as_str()) {
            None => Value::Str(t.clone()),
            Some(pt) => {
                let rep: String = match replacement {
                    Value::Str(x) => x.clone(),
                    _ => String::new(),
                };
                Value::Str(replace_first_match(&pt, t.as_str(), rep.as_str()))
            },
        },
        (Value::Str(t), _) => Value::Str(t.clone()),
        _ => Value::Str(String::new()),
    }
}

/// `(re-pattern? p)` as 1 or 0: whether `p` is a string that compiles.
pub fn clorus_regex_valid_i32(pattern: &Value) -> (r: i32)
    ensures
        r == match str_text(*pattern) {
            Some(p) => if regex_valid(p) {
                1i32
            } else {
                0i32
            },
            None => 0i32,
        },
{
    match pattern {
        Value::Str(p) => match compile_regex(p.as_str()) {
            Some(_) => 1,
            None => 0,
        },
        _ => 0,
    }
}

} // verus!
