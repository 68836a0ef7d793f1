//! Heuristics that classify a REPL expression by the name of the function
//! it calls: whether it blocks, needs the main thread, is pure, and what
//! execution pattern it follows.

use crate::text::{contains_text, first_word, first_word_seq, has_infix, has_prefix, starts_with_text, string_from, trim_seq, trim_string};
use vstd::prelude::*;

verus! {

/// Detects function characteristics and execution patterns.
pub struct FunctionDetector {}

/// Detected execution pattern.
#[derive(Debug, Clone, Copy, PartialEq, Eq, Structural)]
pub enum ExecutionPattern {
    GUI,
    Server,
    Compute,
    IO,
    Unknown,
}

/// What the detector found out about an expression.
#[derive(Debug, Clone)]
pub struct FunctionMetadata {
    pub name: String,
    pub blocks: bool,
    pub needs_main_thread: bool,
    pub pure: bool,
    pub pattern: ExecutionPattern,
    pub estimated_duration_ms: u64,
}

/// The function name of an expression: for a call form `(f args...)`
/// (after trimming), what follows the opening parentheses up to the first
/// white space or `)`; for anything else, the expression itself.
pub open spec fn spec_function_name(expr: Seq<char>) -> Seq<char> {
    let t = trim_seq(expr);
    if has_prefix(t, seq!['(']) {
        before_close(first_word_seq(drop_open_parens(t)))
    } else {
        expr
    }
}

/// `s` up to its first `)`.
pub open spec fn before_close(s: Seq<char>) -> Seq<char>
    decreases s.len(),
{
    if s.len() == 0 {
        s
    } else if s[0] == ')' {
        Seq::empty()
    } else {
        seq![s[0]] + before_close(s.drop_first())
    }
}

/// `s` up to its first `)` (see [`before_close`]).
fn cut_at_close(s: &str) -> (r: String)
    ensures
        r@ == before_close(s@),
{
    let cs = crate::text::chars_of(s);
    let mut out = String::new();
    let mut i: usize = 0;
    proof {
        assert(cs@.skip(0) =~= cs@);
        assert(out@ + before_close(cs@.skip(0)) =~= before_close(cs@));
    }
    while i < cs.len()
        invariant
            i <= cs@.len(),
            cs@ == s@,
            before_close(s@) == out@ + before_close(cs@.skip(i as int)),
        decreases cs.len() - i,
    {
        proof {
            assert(cs@.skip(i as int)[0] == cs@[i as int]);
            assert(cs@.skip(i as int).drop_first() =~= cs@.skip(i + 1));
        }
        if cs[i] == ')' {
            proof {
                assert(out@ + Seq::<char>::empty() =~= out@);
            }
            return out;
        }
        let ghost before = out@;
        crate::text::push_char(&mut out, cs[i]);
        proof {
            assert(before + before_close(cs@.skip(i as int)) =~= out@ + before_close(cs@.skip(i + 1)));
        }
        i += 1;
    }
    proof {
        assert(cs@.skip(i as int).len() == 0);
        assert(out@ + before_close(cs@.skip(i as int)) =~= out@);
    }
    out
}

/// `s` without its leading `(` characters.
pub open spec fn drop_open_parens(s: Seq<char>) -> Seq<char>
    decreases s.len(),
{
    if s.len() > 0 && s[0] == '(' {
        drop_open_parens(s.drop_first())
    } else {
        s
    }
}

/// The name mentions one of the display words: blocking functions.
pub open spec fn spec_is_blocking(n: Seq<char>) -> bool {
    has_infix(n, "show"@) || has_infix(n, "gui"@) || has_infix(n, "window"@) || has_infix(
        n,
        "display"@,
    ) || has_infix(n, "render"@) || has_infix(n, "server"@) || has_infix(n, "listen"@)
        || has_infix(n, "serve"@)
}

/// Functions that must run on the main thread (GUI on macOS).
pub open spec fn spec_needs_main_thread(n: Seq<char>) -> bool {
    has_infix(n, "gui"@) || has_infix(n, "show"@) || has_infix(n, "window"@) || has_infix(
        n,
        "display"@,
    )
}

/// Functions that are taken to be free of side effects.
pub open spec fn spec_is_pure(n: Seq<char>) -> bool {
    has_infix(n, "calc"@) || has_infix(n, "compute"@) || has_infix(n, "sum"@) || has_infix(
        n,
        "factorial"@,
    ) || has_infix(n, "fib"@) || (!spec_is_blocking(n) && !has_infix(n, "set"@) && !has_infix(
        n,
        "reset"@,
    ))
}

/// The execution pattern suggested by the name: GUI for show, gui and
/// window operations, Server for serve and listen operations, then
/// computations, then I/O.
pub open spec fn spec_detect_pattern(n: Seq<char>) -> ExecutionPattern {
    if has_infix(n, "gui"@) || has_infix(n, "window"@) || has_infix(n, "show"@) {
        ExecutionPattern::GUI
    } else if has_infix(n, "serve"@) || has_infix(n, "listen"@) {
        ExecutionPattern::Server
    } else if has_infix(n, "compute"@) || has_infix(n, "calc"@) {
        ExecutionPattern::Compute
    } else if has_infix(n, "fetch"@) || has_infix(n, "download"@) || has_infix(n, "read"@) {
        ExecutionPattern::IO
    } else {
        ExecutionPattern::Unknown
    }
}

/// Rough duration guess in milliseconds per pattern (0: runs indefinitely).
pub open spec fn spec_pattern_duration(p: ExecutionPattern) -> u64 {
    match p {
        ExecutionPattern::GUI => 0,
        ExecutionPattern::Server => 0,
        ExecutionPattern::Compute => 1000,
        ExecutionPattern::IO => 500,
        ExecutionPattern::Unknown => 100,
    }
}

/// The metadata of an expression, field by field.
pub open spec fn metadata_matches(m: FunctionMetadata, expr: Seq<char>) -> bool {
    let n = spec_function_name(expr);
    &&& m.name@ == n
    &&& m.blocks == spec_is_blocking(n)
    &&& m.needs_main_thread == spec_needs_main_thread(n)
    &&& m.pure == spec_is_pure(n)
    &&& m.pattern == spec_detect_pattern(n)
    &&& m.estimated_duration_ms == spec_pattern_duration(spec_detect_pattern(n))
}

/// `s` without its leading `(` characters.
fn strip_open_parens(s: &Vec<char>) -> (r: Vec<char>)
    ensures
        r@ == drop_open_parens(s@),
{
    let mut i: usize = 0;
    proof {
        assert(s@.skip(0) =~= s@);
    }
    while i < s.len() && s[i] == '('
        invariant
            i <= s.len(),
            drop_open_parens(s@) == drop_open_parens(s@.skip(i as int)),
        decreases s.len() - i,
    {
        proof {
            assert(s@.skip(i as int).drop_first() =~= s@.skip(i + 1));
        }
        i += 1;
    }
    let mut out: Vec<char> = Vec::new();
    let mut k = i;
    while k < s.len()
        invariant
            i <= k <= s.len(),
            out@ == s@.subrange(i as int, k as int),
        decreases s.len() - k,
    {
        out.push(s[k]);
        proof {
            assert(out@ =~= s@.subrange(i as int, k + 1));
        }
        k += 1;
    }
    proof {
        assert(out@ =~= s@.skip(i as int));
    }
    out
}

impl FunctionDetector {
    /// A detector.
    pub fn new() -> (r: Self) {
        FunctionDetector {  }
    }

    /// Analyzes an expression: its function name and what the name
    /// suggests about how it runs.
    pub fn analyze(&self, expr: &str) -> (r: FunctionMetadata)
        ensures
            metadata_matches(r, expr@),
    {
        let name = self.extract_function_name(expr);
        let blocks = self.is_blocking(name.as_str());
        let needs_main_thread = self.needs_main_thread(name.as_str());
        let pure = self.is_pure(name.as_str());
        let pattern = self.detect_pattern(name.as_str());
        let estimated_duration_ms = self.estimate_duration(name.as_str());
        FunctionMetadata { name, blocks, needs_main_thread, pure, pattern, estimated_duration_ms }
    }

    /// The name of the function that an expression calls.
    pub fn extract_function_name(&self, expr: &str) -> (r: String)
        ensures
            r@ == spec_function_name(expr@),
    {
        let trimmed = trim_string(expr);
        proof {
            reveal_strlit("(");
            assert("("@ =~= seq!['(']);
        }
        if starts_with_text(trimmed.as_str(), "(") {
            let cs = crate::text::chars_of(trimmed.as_str());
            let inner_chars = strip_open_parens(&cs);
            let inner = crate::text::string_of(inner_chars.as_slice());
            let word = first_word(inner.as_str());
            cut_at_close(word.as_str())
        } else {
            string_from(expr)
        }
    }

    /// Whether the function is expected to block indefinitely.
    pub fn is_blocking(&self, func_name: &str) -> (r: bool)
        ensures
            r == spec_is_blocking(func_name@),
    {
        contains_text(func_name, "show") || contains_text(func_name, "gui") || contains_text(
            func_name,
            "window",
        ) || contains_text(func_name, "display") || contains_text(func_name, "render")
            || contains_text(func_name, "server") || contains_text(func_name, "listen")
            || contains_text(func_name, "serve")
    }

    /// Whether the function must run on the main thread.
    pub fn needs_main_thread(&self, func_name: &str) -> (r: bool)
        ensures
            r == spec_needs_main_thread(func_name@),
    {
        contains_text(func_name, "gui") || contains_text(func_name, "show") || contains_text(
            func_name,
            "window",
        ) || contains_text(func_name, "display")
    }

    /// Whether the function is taken to be free of side effects.
    pub fn is_pure(&self, func_name: &str) -> (r: bool)
        ensures
            r == spec_is_pure(func_name@),
    {
        contains_text(func_name, "calc") || contains_text(func_name, "compute") || contains_text(
            func_name,
            "sum",
        ) || contains_text(func_name, "factorial") || contains_text(func_name, "fib") || (
        !self.is_blocking(func_name) && !contains_text(func_name, "set") && !contains_text(
            func_name,
            "reset",
        ))
    }

    /// The execution pattern that the name suggests.
    pub fn detect_pattern(&self, func_name: &str) -> (r: ExecutionPattern)
        ensures
            r == spec_detect_pattern(func_name@),
    {
        if contains_text(func_name, "gui") || contains_text(func_name, "window") || contains_text(func_name, "show") {
            ExecutionPattern::GUI
        } else if contains_text(func_name, "serve") || contains_text(func_name, "listen") {
            ExecutionPattern::Server
        } else if contains_text(func_name, "compute") || contains_text(func_name, "calc") {
            ExecutionPattern::Compute
        } else if contains_text(func_name, "fetch") || contains_text(func_name, "download")
            || contains_text(func_name, "read") {
            ExecutionPattern::IO
        } else {
            ExecutionPattern::Unknown
        }
    }

    /// A rough duration guess in milliseconds (0 for functions that run
    /// indefinitely).
    pub fn estimate_duration(&self, func_name: &str) -> (r: u64)
        ensures
            r == spec_pattern_duration(spec_detect_pattern(func_name@)),
    {
        match self.detect_pattern(func_name) {
            ExecutionPattern::GUI => 0,
            ExecutionPattern::Server => 0,
            ExecutionPattern::Compute => 1000,
            ExecutionPattern::IO => 500,
            ExecutionPattern::Unknown => 100,
        }
    }
}

/// A function that needs the main thread is taken to block, and a GUI
/// pattern needs the main thread.
pub proof fn law_main_thread_blocks(n: Seq<char>)
    ensures
        spec_needs_main_thread(n) ==> spec_is_blocking(n),
        spec_detect_pattern(n) == ExecutionPattern::GUI ==> spec_needs_main_thread(n),
        spec_pattern_duration(spec_detect_pattern(n)) == 0 <==> (spec_detect_pattern(n)
            == ExecutionPattern::GUI || spec_detect_pattern(n) == ExecutionPattern::Server),
{
}

/// How a function's name decides its pattern: a name that mentions show,
/// gui or window is a GUI function; otherwise one that mentions serve or
/// listen is a server; otherwise one that mentions compute or calc is a
/// computation; otherwise one that mentions fetch, download or read is
/// I/O, expected to take half a second; a name that mentions none of these
/// is of no known pattern.
pub proof fn law_pattern_of_name(n: Seq<char>)
    ensures
        has_infix(n, "show"@) || has_infix(n, "gui"@) || has_infix(n, "window"@) ==> spec_detect_pattern(n)
            == ExecutionPattern::GUI,
        !(has_infix(n, "show"@) || has_infix(n, "gui"@) || has_infix(n, "window"@)) && (has_infix(n, "serve"@)
            || has_infix(n, "listen"@)) ==> spec_detect_pattern(n) == ExecutionPattern::Server,
        !(has_infix(n, "show"@) || has_infix(n, "gui"@) || has_infix(n, "window"@) || has_infix(n, "serve"@)
            || has_infix(n, "listen"@)) && (has_infix(n, "compute"@) || has_infix(n, "calc"@))
            ==> spec_detect_pattern(n) == ExecutionPattern::Compute,
        !(has_infix(n, "show"@) || has_infix(n, "gui"@) || has_infix(n, "window"@) || has_infix(n, "serve"@)
            || has_infix(n, "listen"@) || has_infix(n, "compute"@) || has_infix(n, "calc"@)) && (has_infix(
            n,
            "fetch"@,
        ) || has_infix(n, "download"@) || has_infix(n, "read"@)) ==> spec_detect_pattern(n)
            == ExecutionPattern::IO && spec_pattern_duration(spec_detect_pattern(n)) == 500,
        !(has_infix(n, "show"@) || has_infix(n, "gui"@) || has_infix(n, "window"@) || has_infix(n, "serve"@)
            || has_infix(n, "listen"@) || has_infix(n, "compute"@) || has_infix(n, "calc"@) || has_infix(
            n,
            "fetch"@,
        ) || has_infix(n, "download"@) || has_infix(n, "read"@)) ==> spec_detect_pattern(n)
            == ExecutionPattern::Unknown,
{
}

/// What the detector finds for an expression follows the law above on its
/// function name: in particular a call whose name mentions only I/O words
/// (fetch, download, read) is I/O with an estimate of 500 ms.
pub proof fn law_analyze_io(m: FunctionMetadata, expr: Seq<char>)
    requires
        metadata_matches(m, expr),
        !(has_infix(m.name@, "show"@) || has_infix(m.name@, "gui"@) || has_infix(m.name@, "window"@)
            || has_infix(m.name@, "serve"@) || has_infix(m.name@, "listen"@) || has_infix(m.name@, "compute"@)
            || has_infix(m.name@, "calc"@)),
        has_infix(m.name@, "fetch"@) || has_infix(m.name@, "download"@) || has_infix(m.name@, "read"@),
    ensures
        m.pattern == ExecutionPattern::IO,
        m.estimated_duration_ms == 500,
{
    law_pattern_of_name(m.name@);
}

} // verus!
