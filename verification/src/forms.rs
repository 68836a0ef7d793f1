//! Splitting a source file into its top-level forms, as the REPL does when
//! it loads a project's entry file: lines are gathered until the brackets
//! opened outside string literals are closed again.

use crate::text::{chars_of, has_prefix, trim_seq};
use vstd::prelude::*;

verus! {

/// A line without the carriage return that ended it.
pub open spec fn strip_cr(cur: Seq<char>) -> Seq<char> {
    if cur.len() > 0 && cur.last() == '\r' {
        cur.drop_last()
    } else {
        cur
    }
}

/// The lines finished so far and the line being read, after reading `s`.
pub open spec fn lines_state(s: Seq<char>) -> (Seq<Seq<char>>, Seq<char>)
    decreases s.len(),
{
    if s.len() == 0 {
        (Seq::empty(), Seq::empty())
    } else {
        let (ls, cur) = lines_state(s.drop_last());
        if s.last() == '\n' {
            (ls.push(strip_cr(cur)), Seq::empty())
        } else {
            (ls, cur.push(s.last()))
        }
    }
}

/// The lines of `s` as `str::lines` gives them: split at each newline
/// (with a carriage return before it), the last line kept when not empty.
pub open spec fn source_lines(s: Seq<char>) -> Seq<Seq<char>> {
    let (ls, cur) = lines_state(s);
    if cur.len() == 0 {
        ls
    } else {
        ls.push(cur)
    }
}

/// The lines of a text.
pub fn lines_of(s: &str) -> (r: Vec<Vec<char>>)
    ensures
        r@.map_values(|l: Vec<char>| l@) == source_lines(s@),
{
    let cs = chars_of(s);
    let mut done: Vec<Vec<char>> = Vec::new();
    let mut cur: Vec<char> = Vec::new();
    let mut i: usize = 0;
    proof {
        assert(cs@.subrange(0, 0) =~= Seq::<char>::empty());
        assert(done@.map_values(|l: Vec<char>| l@) =~= Seq::<Seq<char>>::empty());
    }
    while i < cs.len()
        invariant
            cs@ == s@,
            i <= cs@.len(),
            (done@.map_values(|l: Vec<char>| l@), cur@) == lines_state(cs@.subrange(0, i as int)),
        decreases cs.len() - i,
    {
        let c = cs[i];
        let ghost before = done@.map_values(|l: Vec<char>| l@);
        proof {
            assert(cs@.subrange(0, i + 1).drop_last() =~= cs@.subrange(0, i as int));
            assert(cs@.subrange(0, i + 1).last() == c);
        }
        if c == '\n' {
            let n = cur.len();
            if n > 0 && cur[n - 1] == '\r' {
                cur.pop();
            }
            let ghost line = cur@;
            done.push(cur);
            cur = Vec::new();
            proof {
                assert(done@.map_values(|l: Vec<char>| l@) =~= before.push(line));
            }
        } else {
            cur.push(c);
        }
        i += 1;
    }
    proof {
        assert(cs@.subrange(0, cs@.len() as int) =~= cs@);
    }
    if cur.len() > 0 {
        let ghost before = done@.map_values(|l: Vec<char>| l@);
        let ghost line = cur@;
        done.push(cur);
        proof {
            assert(done@.map_values(|l: Vec<char>| l@) =~= before.push(line));
        }
    }
    done
}

/// The bracket scanner's state: nesting depth, inside a string literal,
/// and whether the next character is escaped.
pub struct ScanState {
    pub depth: i64,
    pub in_string: bool,
    pub escape_next: bool,
}

/// One character read by the bracket scanner: a backslash escapes the next
/// character; a quote toggles the string literal; outside literals opening
/// brackets deepen and closing ones lift the nesting.
pub open spec fn scan_char(st: (int, bool, bool), c: char) -> (int, bool, bool) {
    let (depth, in_string, escape) = st;
    if escape {
        (depth, in_string, false)
    } else if c == '\\' {
        (depth, in_string, true)
    } else {
        let in2 = if c == '"' {
            !in_string
        } else {
            in_string
        };
        if !in2 && (c == '(' || c == '[' || c == '{') {
            (depth + 1, in2, false)
        } else if !in2 && (c == ')' || c == ']' || c == '}') {
            (depth - 1, in2, false)
        } else {
            (depth, in2, false)
        }
    }
}

/// The scanner's state after reading `line`.
pub open spec fn scan_text(st: (int, bool, bool), line: Seq<char>) -> (int, bool, bool)
    decreases line.len(),
{
    if line.len() == 0 {
        st
    } else {
        scan_char(scan_text(st, line.drop_last()), line.last())
    }
}

/// Reading a line moves the depth by at most its length.
proof fn lemma_scan_bound(st: (int, bool, bool), line: Seq<char>)
    ensures
        st.0 - line.len() <= scan_text(st, line).0 <= st.0 + line.len(),
    decreases line.len(),
{
    if line.len() > 0 {
        lemma_scan_bound(st, line.drop_last());
    }
}

/// A line skipped while no form is open: blank or a comment.
pub open spec fn is_skipped(line: Seq<char>) -> bool {
    trim_seq(line).len() == 0 || has_prefix(trim_seq(line), seq![';'])
}

/// After reading `lines`: the complete forms, the form being gathered, and
/// the scanner state.
pub open spec fn forms_state(lines: Seq<Seq<char>>) -> (Seq<Seq<char>>, Seq<char>, (int, bool, bool))
    decreases lines.len(),
{
    if lines.len() == 0 {
        (Seq::empty(), Seq::empty(), (0, false, false))
    } else {
        let (forms, form, st) = forms_state(lines.drop_last());
        let line = lines.last();
        if form.len() == 0 && is_skipped(line) {
            (forms, form, st)
        } else {
            let form2 = form + line + seq!['\n'];
            let st2 = scan_text(st, line);
            if st2.0 == 0 && trim_seq(form2).len() > 0 {
                (forms.push(form2), Seq::empty(), st2)
            } else {
                (forms, form2, st2)
            }
        }
    }
}

/// The top-level forms of a source text, each with the lines it spans
/// (every line followed by a newline); an unfinished last form is dropped.
pub open spec fn spec_split_forms(source: Seq<char>) -> Seq<Seq<char>> {
    forms_state(source_lines(source)).0
}

/// The total length of some lines.
pub open spec fn lines_total(ls: Seq<Seq<char>>) -> nat
    decreases ls.len(),
{
    if ls.len() == 0 {
        0
    } else {
        lines_total(ls.drop_last()) + ls.last().len()
    }
}

/// The lines of a text are no longer, together, than the text.
proof fn lemma_lines_state_total(s: Seq<char>)
    ensures
        lines_total(lines_state(s).0) + lines_state(s).1.len() <= s.len(),
    decreases s.len(),
{
    if s.len() > 0 {
        lemma_lines_state_total(s.drop_last());
        let (ls, cur) = lines_state(s.drop_last());
        if s.last() == '\n' {
            assert(ls.push(strip_cr(cur)).drop_last() =~= ls);
        }
    }
}

/// The lines of a text are no longer, together, than the text.
proof fn lemma_source_lines_total(s: Seq<char>)
    ensures
        lines_total(source_lines(s)) <= s.len(),
{
    lemma_lines_state_total(s);
    let (ls, cur) = lines_state(s);
    if cur.len() > 0 {
        assert(ls.push(cur).drop_last() =~= ls);
    }
}

/// The scanner state after one more line.
fn scan_line(st: &mut ScanState, line: &Vec<char>)
    requires
        i64::MIN + line@.len() <= old(st).depth <= i64::MAX - line@.len(),
    ensures
        (final(st).depth as int, final(st).in_string, final(st).escape_next) == scan_text(
            (old(st).depth as int, old(st).in_string, old(st).escape_next),
            line@,
        ),
{
    let ghost st0 = (st.depth as int, st.in_string, st.escape_next);
    let mut i: usize = 0;
    proof {
        assert(line@.subrange(0, 0) =~= Seq::<char>::empty());
    }
    while i < line.len()
        invariant
            i <= line@.len(),
            (st.depth as int, st.in_string, st.escape_next) == scan_text(st0, line@.subrange(0, i as int)),
            st0.0 - i <= st.depth <= st0.0 + i,
            i64::MIN + line@.len() <= st0.0 <= i64::MAX - line@.len(),
        decreases line.len() - i,
    {
        let c = line[i];
        proof {
            assert(line@.subrange(0, i + 1).drop_last() =~= line@.subrange(0, i as int));
            assert(line@.subrange(0, i + 1).last() == c);
        }
        if st.escape_next {
            st.escape_next = false;
        } else if c == '\\' {
            st.escape_next = true;
        } else {
            if c == '"' {
                st.in_string = !st.in_string;
            }
            if !st.in_string && (c == '(' || c == '[' || c == '{') {
                st.depth = st.depth + 1;
            } else if !st.in_string && (c == ')' || c == ']' || c == '}') {
                st.depth = st.depth - 1;
            }
        }
        i += 1;
    }
    proof {
        assert(line@.subrange(0, line@.len() as int) =~= line@);
    }
}

/// Whether a line is blank or a comment.
fn skipped(line: &Vec<char>) -> (r: bool)
    ensures
        r == is_skipped(line@),
{
    let text = crate::text::string_of_vec(line);
    let t = crate::text::trim_chars(text.as_str());
    if t.len() == 0 {
        return true;
    }
    proof {
        assert(has_prefix(trim_seq(line@), seq![';']) == (t@[0] == ';')) by {
            if t@[0] == ';' {
                assert(t@.subrange(0, 1) =~= seq![';']);
            } else {
                assert(t@.subrange(0, 1)[0] != seq![';'][0]);
            }
        }
    }
    t[0] == ';'
}

/// Whether a text has something besides white space.
fn has_content(cs: &Vec<char>) -> (r: bool)
    ensures
        r == (trim_seq(cs@).len() > 0),
{
    let text = crate::text::string_of_vec(cs);
    let t = crate::text::trim_chars(text.as_str());
    t.len() > 0
}

/// The top-level forms of a source text (see [`spec_split_forms`]).
pub fn split_forms(source: &str) -> (r: Vec<String>)
    requires
        source@.len() < i64::MAX,
    ensures
        r@.map_values(|f: String| f@) == spec_split_forms(source@),
{
    let lines = lines_of(source);
    let ghost lv = lines@.map_values(|l: Vec<char>| l@);
    proof {
        lemma_source_lines_total(source@);
        assert(lv.subrange(0, 0) =~= Seq::<Seq<char>>::empty());
    }
    let mut forms: Vec<String> = Vec::new();
    let mut form: Vec<char> = Vec::new();
    let mut st = ScanState { depth: 0, in_string: false, escape_next: false };
    let mut i: usize = 0;
    proof {
        assert(forms@.map_values(|f: String| f@) =~= Seq::<Seq<char>>::empty());
    }
    while i < lines.len()
        invariant
            i <= lines@.len(),
            lv == lines@.map_values(|l: Vec<char>| l@),
            lv == source_lines(source@),
            lines_total(lv) < i64::MAX,
            (forms@.map_values(|f: String| f@), form@, (st.depth as int, st.in_string, st.escape_next))
                == forms_state(lv.subrange(0, i as int)),
            -lines_total(lv.subrange(0, i as int)) <= st.depth <= lines_total(lv.subrange(0, i as int)),
        decreases lines.len() - i,
    {
        let line = &lines[i];
        let ghost fb = forms@.map_values(|f: String| f@);
        proof {
            assert(lv.subrange(0, i + 1).drop_last() =~= lv.subrange(0, i as int));
            assert(lv.subrange(0, i + 1).last() == line@);
            lemma_total_prefix(lv, i + 1);
        }
        if form.len() == 0 && skipped(line) {
            i += 1;
            continue;
        }
        let mut k: usize = 0;
        let ghost f0 = form@;
        while k < line.len()
            invariant
                k <= line@.len(),
                form@ == f0 + line@.subrange(0, k as int),
            decreases line.len() - k,
        {
            form.push(line[k]);
            proof {
                assert(form@ =~= f0 + line@.subrange(0, k + 1));
            }
            k += 1;
        }
        form.push('\n');
        proof {
            assert(line@.subrange(0, line@.len() as int) =~= line@);
            assert(form@ =~= f0 + line@ + seq!['\n']);
        }
        let ghost sb = (st.depth as int, st.in_string, st.escape_next);
        proof {
            lemma_scan_bound(sb, line@);
        }
        scan_line(&mut st, line);
        if st.depth == 0 && has_content(&form) {
            let ghost fv = form@;
            forms.push(crate::text::string_of_vec(&form));
            form = Vec::new();
            proof {
                assert(forms@.map_values(|f: String| f@) =~= fb.push(fv));
            }
        }
        i += 1;
    }
    proof {
        assert(lv.subrange(0, lv.len() as int) =~= lv);
    }
    forms
}

/// The lines of a prefix are no longer than all the lines.
proof fn lemma_total_prefix(ls: Seq<Seq<char>>, n: int)
    requires
        0 <= n <= ls.len(),
    ensures
        lines_total(ls.subrange(0, n)) <= lines_total(ls),
    decreases ls.len() - n,
{
    if n < ls.len() {
        lemma_total_prefix(ls, n + 1);
        assert(ls.subrange(0, n + 1).drop_last() =~= ls.subrange(0, n));
    } else {
        assert(ls.subrange(0, n) =~= ls);
    }
}

/// A load error that comes from a missing foreign function.
pub open spec fn spec_is_ffi_error(e: Seq<char>) -> bool {
    crate::text::has_infix(e, "Unknown function"@) || crate::text::has_infix(e, "rust."@)
}

/// Whether a load error comes from a missing foreign function.
pub fn is_ffi_error(e: &str) -> (r: bool)
    ensures
        r == spec_is_ffi_error(e@),
{
    crate::text::contains_text(e, "Unknown function") || crate::text::contains_text(e, "rust.")
}

} // verus!
