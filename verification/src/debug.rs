//! Memory-tracking instrumentation: a debug-mode switch and the log of
//! allocation, retain and release events recorded while it is on.
//!
//! Times are given by the caller, in microseconds since debug mode was
//! switched on.

use vstd::prelude::*;

verus! {

/// A recorded memory event.
pub enum DebugEvent {
    Alloc {
        timestamp_us: u64,
        address: usize,
        kind_name: String,
        size: usize,
        refcount: u64,
        file: String,
        line: u32,
        expression: String,
    },
    Retain {
        timestamp_us: u64,
        address: usize,
        refcount_before: u64,
        refcount_after: u64,
        file: String,
        line: u32,
    },
    Release {
        timestamp_us: u64,
        address: usize,
        refcount_before: u64,
        refcount_after: u64,
        freed: bool,
        file: String,
        line: u32,
    },
}

impl DebugEvent {
    /// A copy of the event.
    pub fn copy(&self) -> (r: Self)
        ensures
            r == *self,
    {
        match self {
            DebugEvent::Alloc {
                timestamp_us,
                address,
                kind_name,
                size,
                refcount,
                file,
                line,
                expression,
            } => DebugEvent::Alloc {
                timestamp_us: *timestamp_us,
                address: *address,
                kind_name: kind_name.clone(),
                size: *size,
                refcount: *refcount,
                file: file.clone(),
                line: *line,
                expression: expression.clone(),
            },
            DebugEvent::Retain { timestamp_us, address, refcount_before, refcount_after, file, line } =>
            DebugEvent::Retain {
                timestamp_us: *timestamp_us,
                address: *address,
                refcount_before: *refcount_before,
                refcount_after: *refcount_after,
                file: file.clone(),
                line: *line,
            },
            DebugEvent::Release {
                timestamp_us,
                address,
                refcount_before,
                refcount_after,
                freed,
                file,
                line,
            } => DebugEvent::Release {
                timestamp_us: *timestamp_us,
                address: *address,
                refcount_before: *refcount_before,
                refcount_after: *refcount_after,
                freed: *freed,
                file: file.clone(),
                line: *line,
            },
        }
    }
}

/// The debug switch and the events recorded while it was on.
pub struct DebugLog {
    pub(crate) mode: bool,
    pub(crate) events: Vec<DebugEvent>,
}

/// How many events are allocations.
pub open spec fn alloc_count(s: Seq<DebugEvent>) -> nat
    decreases s.len(),
{
    if s.len() == 0 {
        0
    } else {
        alloc_count(s.drop_last()) + if s.last() is Alloc {
            1nat
        } else {
            0nat
        }
    }
}

/// How many events are releases that freed their object.
pub open spec fn free_count(s: Seq<DebugEvent>) -> nat
    decreases s.len(),
{
    if s.len() == 0 {
        0
    } else {
        free_count(s.drop_last()) + if s.last() matches DebugEvent::Release { freed: true, .. } {
            1nat
        } else {
            0nat
        }
    }
}

impl DebugLog {
    /// Whether debug mode is on.
    pub closed spec fn mode_view(&self) -> bool {
        self.mode
    }

    /// The recorded events, oldest first.
    pub closed spec fn events_view(&self) -> Seq<DebugEvent> {
        self.events@
    }

    /// Debug mode off, no events.
    pub fn new() -> (r: Self)
        ensures
            !r.mode_view(),
            r.events_view().len() == 0,
    {
        DebugLog { mode: false, events: Vec::new() }
    }

    /// Switches debug mode on.
    pub fn enable_debug_mode(&mut self)
        ensures
            final(self).mode_view(),
            final(self).events_view() == old(self).events_view(),
    {
        self.mode = true;
    }

    /// Whether debug mode is on.
    pub fn is_debug_mode(&self) -> (r: bool)
        ensures
            r == self.mode_view(),
    {
        self.mode
    }

    /// Records an event when debug mode is on; otherwise does nothing.
    pub fn record_event(&mut self, event: DebugEvent)
        ensures
            final(self).mode_view() == old(self).mode_view(),
            final(self).events_view() == if old(self).mode_view() {
                old(self).events_view().push(event)
            } else {
                old(self).events_view()
            },
    {
        if self.mode {
            self.events.push(event);
        }
    }

    /// A copy of the recorded events.
    pub fn get_debug_events(&self) -> (r: Vec<DebugEvent>)
        ensures
            r@ == self.events_view(),
    {
        let mut out: Vec<DebugEvent> = Vec::new();
        let mut i: usize = 0;
        while i < self.events.len()
            invariant
                i <= self.events@.len(),
                out@ == self.events@.subrange(0, i as int),
            decreases self.events.len() - i,
        {
            out.push(self.events[i].copy());
            proof {
                assert(out@ =~= self.events@.subrange(0, i + 1));
            }
            i += 1;
        }
        proof {
            assert(out@ =~= self.events@);
        }
        out
    }

    /// Forgets every recorded event.
    pub fn clear_debug_events(&mut self)
        ensures
            final(self).mode_view() == old(self).mode_view(),
            final(self).events_view().len() == 0,
    {
        self.events.clear();
    }

    /// The number of allocations and of frees among the recorded events.
    pub fn summary_counts(&self) -> (r: (u64, u64))
        requires
            self.events_view().len() <= u64::MAX,
        ensures
            r.0 == alloc_count(self.events_view()),
            r.1 == free_count(self.events_view()),
    {
        let mut allocs: u64 = 0;
        let mut frees: u64 = 0;
        let mut i: usize = 0;
        while i < self.events.len()
            invariant
                i <= self.events@.len() <= u64::MAX,
                allocs == alloc_count(self.events@.subrange(0, i as int)),
                frees == free_count(self.events@.subrange(0, i as int)),
                allocs <= i,
                frees <= i,
            decreases self.events.len() - i,
        {
            proof {
                assert(self.events@.subrange(0, i + 1).drop_last() =~= self.events@.subrange(
                    0,
                    i as int,
                ));
            }
            match &self.events[i] {
                DebugEvent::Alloc { .. } => {
                    allocs = allocs + 1;
                },
                DebugEvent::Release { freed, .. } => {
                    if *freed {
                        frees = frees + 1;
                    }
                },
                _ => {},
            }
            i += 1;
        }
        proof {
            assert(self.events@.subrange(0, self.events@.len() as int) =~= self.events@);
        }
        (allocs, frees)
    }
}

/// The value of a digit in the given radix (10 or 16), if it is one.
pub open spec fn digit_value(c: char, radix: nat) -> Option<nat> {
    let u = c as u32;
    if 0x30 <= u <= 0x39 && u - 0x30 < radix {
        Some((u - 0x30) as nat)
    } else if radix == 16 && 0x61 <= u <= 0x66 {
        Some((u - 0x61 + 10) as nat)
    } else if radix == 16 && 0x41 <= u <= 0x46 {
        Some((u - 0x41 + 10) as nat)
    } else {
        None
    }
}

/// The number written by the digits `s` in the radix, if they all are
/// digits.
pub open spec fn digits_value(s: Seq<char>, radix: nat) -> Option<nat>
    decreases s.len(),
{
    if s.len() == 0 {
        Some(0)
    } else {
        match (digits_value(s.drop_last(), radix), digit_value(s.last(), radix)) {
            (Some(a), Some(d)) => Some(a * radix + d),
            _ => None,
        }
    }
}

/// An unsigned number as `usize::from_str_radix` reads it: an optional
/// `+`, then at least one digit; none when malformed or too large.
pub open spec fn parse_unsigned(s: Seq<char>, radix: nat) -> Option<usize> {
    let d = if s.len() > 0 && s[0] == '+' {
        s.drop_first()
    } else {
        s
    };
    if d.len() == 0 {
        None
    } else {
        match digits_value(d, radix) {
            Some(v) => if v <= usize::MAX {
                Some(v as usize)
            } else {
                None
            },
            None => None,
        }
    }
}

/// A pointer given in an environment variable: trimmed, hexadecimal after
/// `0x` or `0X`, decimal otherwise; none when empty or malformed.
pub open spec fn spec_parse_ptr(s: Seq<char>) -> Option<usize> {
    let t = crate::text::trim_seq(s);
    if t.len() == 0 {
        None
    } else if crate::text::has_prefix(t, seq!['0', 'x']) || crate::text::has_prefix(t, seq!['0', 'X']) {
        parse_unsigned(t.skip(2), 16)
    } else {
        parse_unsigned(t, 10)
    }
}

fn digit_of(c: char, radix: u32) -> (r: Option<u32>)
    requires
        radix == 10 || radix == 16,
    ensures
        match r {
            Some(d) => digit_value(c, radix as nat) == Some(d as nat) && d < radix,
            None => digit_value(c, radix as nat) is None,
        },
{
    let u = c as u32;
    if 0x30 <= u && u <= 0x39 && u - 0x30 < radix {
        Some(u - 0x30)
    } else if radix == 16 && 0x61 <= u && u <= 0x66 {
        Some(u - 0x61 + 10)
    } else if radix == 16 && 0x41 <= u && u <= 0x46 {
        Some(u - 0x41 + 10)
    } else {
        None
    }
}

/// Once the value passes the largest usize, appending digits keeps it
/// there.
proof fn lemma_digits_grow(s: Seq<char>, radix: nat, k: int)
    requires
        radix >= 2,
        0 <= k <= s.len(),
        digits_value(s, radix) is Some,
    ensures
        digits_value(s.subrange(0, k), radix) is Some,
        digits_value(s.subrange(0, k), radix)->0 <= digits_value(s, radix)->0,
    decreases s.len() - k,
{
    if k < s.len() {
        lemma_digits_grow(s, radix, k + 1);
        assert(s.subrange(0, k + 1).drop_last() =~= s.subrange(0, k));
        let a = digits_value(s.subrange(0, k), radix)->0;
        let b = digits_value(s.subrange(0, k + 1), radix)->0;
        assert(a <= a * radix) by (nonlinear_arith)
            requires radix >= 2;
    } else {
        assert(s.subrange(0, k) =~= s);
    }
}

/// Reads the digits `d` in the radix (see [`parse_unsigned`]).
fn parse_digits(d: &Vec<char>, radix: u32) -> (r: Option<usize>)
    requires
        radix == 10 || radix == 16,
        d@.len() > 0,
    ensures
        r == match digits_value(d@, radix as nat) {
            Some(v) => if v <= usize::MAX {
                Some(v as usize)
            } else {
                None::<usize>
            },
            None => None::<usize>,
        },
{
    let mut acc: u128 = 0;
    let mut i: usize = 0;
    proof {
        assert(d@.subrange(0, 0) =~= Seq::<char>::empty());
    }
    while i < d.len()
        invariant
            radix == 10 || radix == 16,
            i <= d@.len(),
            digits_value(d@.subrange(0, i as int), radix as nat) == Some(acc as nat),
            acc <= usize::MAX,
        decreases d.len() - i,
    {
        proof {
            assert(d@.subrange(0, i + 1).drop_last() =~= d@.subrange(0, i as int));
        }
        match digit_of(d[i], radix) {
            None => {
                proof {
                    if digits_value(d@, radix as nat) is Some {
                        lemma_digits_grow(d@, radix as nat, i + 1);
                    }
                }
                return None;
            },
            Some(x) => {
                let next: u128 = acc * (radix as u128) + (x as u128);
                if next > (usize::MAX as u128) {
                    proof {
                        if digits_value(d@, radix as nat) is Some {
                            lemma_digits_grow(d@, radix as nat, i + 1);
                        }
                    }
                    return None;
                }
                acc = next;
            },
        }
        i += 1;
    }
    proof {
        assert(d@.subrange(0, d@.len() as int) =~= d@);
    }
    Some(acc as usize)
}

/// Reads an unsigned number with an optional `+` (see [`parse_unsigned`]).
fn parse_unsigned_chars(s: &Vec<char>, radix: u32) -> (r: Option<usize>)
    requires
        radix == 10 || radix == 16,
    ensures
        r == parse_unsigned(s@, radix as nat),
{
    let start: usize = if s.len() > 0 && s[0] == '+' {
        1
    } else {
        0
    };
    let d = crate::strings::chars_range(s, start, s.len());
    proof {
        if start == 1 {
            assert(d@ =~= s@.drop_first());
        } else {
            assert(d@ =~= s@);
        }
    }
    if d.len() == 0 {
        return None;
    }
    parse_digits(&d, radix)
}

/// Reads a pointer given in an environment variable (see
/// [`spec_parse_ptr`]).
pub fn parse_ptr(s: &str) -> (r: Option<usize>)
    ensures
        r == spec_parse_ptr(s@),
{
    let t = crate::text::trim_chars(s);
    if t.len() == 0 {
        return None;
    }
    let hex = t.len() >= 2 && t[0] == '0' && (t[1] == 'x' || t[1] == 'X');
    proof {
        if t@.len() >= 2 {
            if t@[0] == '0' && t@[1] == 'x' {
                assert(t@.subrange(0, 2) =~= seq!['0', 'x']);
            } else {
                assert(t@.subrange(0, 2) != seq!['0', 'x']) by {
                    if t@[0] != '0' {
                        assert(t@.subrange(0, 2)[0] != seq!['0', 'x'][0]);
                    } else {
                        assert(t@.subrange(0, 2)[1] != seq!['0', 'x'][1]);
                    }
                }
            }
            if t@[0] == '0' && t@[1] == 'X' {
                assert(t@.subrange(0, 2) =~= seq!['0', 'X']);
            } else {
                assert(t@.subrange(0, 2) != seq!['0', 'X']) by {
                    if t@[0] != '0' {
                        assert(t@.subrange(0, 2)[0] != seq!['0', 'X'][0]);
                    } else {
                        assert(t@.subrange(0, 2)[1] != seq!['0', 'X'][1]);
                    }
                }
            }
        }
    }
    if hex {
        let rest = crate::strings::chars_range(&t, 2, t.len());
        proof {
            assert(rest@ =~= t@.skip(2));
        }
        parse_unsigned_chars(&rest, 16)
    } else {
        parse_unsigned_chars(&t, 10)
    }
}

/// The ASCII lower-case form of a character.
pub open spec fn ascii_lower(c: char) -> char {
    if 'A' <= c <= 'Z' {
        ((c as u8) + 32u8) as char
    } else {
        c
    }
}

/// Two texts equal when ASCII letters are compared without case.
pub open spec fn eq_ignore_ascii_case(a: Seq<char>, b: Seq<char>) -> bool {
    a.len() == b.len() && forall|i: int| 0 <= i < a.len() ==> ascii_lower(#[trigger] a[i]) == ascii_lower(b[i])
}

/// A debug filter for a tag: empty (after trimming) matches every tag;
/// otherwise the tag's name, exactly or ignoring ASCII case.
pub open spec fn spec_tag_matches(s: Seq<char>, tag: crate::value::ValueTag) -> bool {
    let t = crate::text::trim_seq(s);
    t.len() == 0 || crate::printer::tag_name(tag) == t || eq_ignore_ascii_case(crate::printer::tag_name(tag), t)
}

fn lower_of(c: char) -> (r: char)
    ensures
        r == ascii_lower(c),
{
    if 'A' <= c && c <= 'Z' {
        ((c as u8) + 32u8) as char
    } else {
        c
    }
}

/// Whether a debug filter names the tag (see [`spec_tag_matches`]).
pub fn tag_matches(s: &str, tag: crate::value::ValueTag) -> (r: bool)
    ensures
        r == spec_tag_matches(s@, tag),
{
    let t = crate::text::trim_chars(s);
    if t.len() == 0 {
        return true;
    }
    let name = crate::text::chars_of(crate::printer::tag_name_of(tag));
    if name.len() != t.len() {
        return false;
    }
    let mut i: usize = 0;
    let mut exact = true;
    let mut folded = true;
    while i < name.len()
        invariant
            i <= name@.len(),
            name@.len() == t@.len(),
            name@ == crate::printer::tag_name(tag),
            exact == forall|j: int| 0 <= j < i ==> name@[j] == t@[j],
            folded == forall|j: int| 0 <= j < i ==> ascii_lower(#[trigger] name@[j]) == ascii_lower(t@[j]),
        decreases name.len() - i,
    {
        if name[i] != t[i] {
            exact = false;
        }
        if lower_of(name[i]) != lower_of(t[i]) {
            folded = false;
        }
        i += 1;
    }
    proof {
        if exact {
            assert(name@ =~= t@);
        }
    }
    exact || folded
}

} // verus!
