//! Conversions between strings and their characters.

use vstd::prelude::*;
use vstd::std_specs::iter::IteratorSpec;

verus! {

/// Appends one character to a string (`String::push`).
/// Claimed: the string's characters afterwards are the old ones followed
/// by `c`.
#[verifier::external_body]
pub(crate) fn push_char(s: &mut String, c: char)
    ensures
        final(s)@ == old(s)@.push(c),
{
    s.push(c);
}

/// Appends a string to a string.
pub fn push_str(s: &mut String, other: &str)
    ensures
        final(s)@ == old(s)@ + other@,
{
    s.append(other);
}

/// The characters of a string, in order.
pub fn chars_of(s: &str) -> (r: Vec<char>)
    ensures
        r@ == s@,
{
    broadcast use vstd::string::axiom_spec_iter, vstd::string::next_postcondition;

    let mut out: Vec<char> = Vec::new();
    let mut it = s.chars();
    loop
        invariant
            out@ + it.remaining() == s@,
            it.obeys_prophetic_iter_laws(),
            it.decrease() is Some,
        ensures
            out@ == s@,
        decreases it.decrease()->0,
    {
        let ghost before = it.remaining();
        match it.next() {
            Some(c) => {
                proof {
                    assert(out@.push(c) + it.remaining() =~= out@ + before);
                }
                out.push(c);
            },
            None => {
                proof {
                    assert(out@ + it.remaining() =~= out@);
                }
                break;
            },
        }
    }
    out
}

/// The string made of the given characters.
pub fn string_of(cs: &[char]) -> (r: String)
    ensures
        r@ == cs@,
{
    let mut out = String::new();
    let mut i: usize = 0;
    while i < cs.len()
        invariant
            i <= cs.len(),
            out@ == cs@.subrange(0, i as int),
        decreases cs.len() - i,
    {
        push_char(&mut out, cs[i]);
        proof {
            assert(cs@.subrange(0, i + 1) =~= cs@.subrange(0, i as int).push(cs@[i as int]));
        }
        i += 1;
    }
    proof {
        assert(cs@.subrange(0, cs.len() as int) =~= cs@);
    }
    out
}

/// A copy of a string.
pub fn copy_string(s: &String) -> (r: String)
    ensures
        r@ == s@,
{
    s.clone()
}

/// A string holding the given characters of a literal.
pub fn string_from(s: &str) -> (r: String)
    ensures
        r@ == s@,
{
    String::from_str(s)
}

/// Whether two strings hold the same characters.
pub fn same_text(a: &str, b: &str) -> (r: bool)
    ensures
        r == (a@ == b@),
{
    let ca = chars_of(a);
    let cb = chars_of(b);
    if ca.len() != cb.len() {
        return false;
    }
    let mut i: usize = 0;
    while i < ca.len()
        invariant
            ca@ == a@,
            cb@ == b@,
            ca.len() == cb.len(),
            i <= ca.len(),
            forall|j: int| 0 <= j < i ==> ca@[j] == cb@[j],
        decreases ca.len() - i,
    {
        if ca[i] != cb[i] {
            return false;
        }
        i += 1;
    }
    proof {
        assert(a@ =~= b@);
    }
    true
}

/// Unicode `White_Space`: the characters that `char::is_whitespace`
/// accepts.
pub open spec fn is_ws(c: char) -> bool {
    let u = c as u32;
    (0x9 <= u <= 0xD) || u == 0x20 || u == 0x85 || u == 0xA0 || u == 0x1680 || (0x2000 <= u
        <= 0x200A) || u == 0x2028 || u == 0x2029 || u == 0x202F || u == 0x205F || u == 0x3000
}

/// Whether `c` is a Unicode white-space character.
pub fn is_white_space(c: char) -> (r: bool)
    ensures
        r == is_ws(c),
{
    let u = c as u32;
    (0x9 <= u && u <= 0xD) || u == 0x20 || u == 0x85 || u == 0xA0 || u == 0x1680 || (0x2000 <= u
        && u <= 0x200A) || u == 0x2028 || u == 0x2029 || u == 0x202F || u == 0x205F || u == 0x3000
}

/// `s` without its leading white space.
pub open spec fn trim_start_seq(s: Seq<char>) -> Seq<char>
    decreases s.len(),
{
    if s.len() > 0 && is_ws(s[0]) {
        trim_start_seq(s.drop_first())
    } else {
        s
    }
}

/// `s` without its trailing white space.
pub open spec fn trim_end_seq(s: Seq<char>) -> Seq<char>
    decreases s.len(),
{
    if s.len() > 0 && is_ws(s.last()) {
        trim_end_seq(s.drop_last())
    } else {
        s
    }
}

/// `s` without leading and trailing white space.
pub open spec fn trim_seq(s: Seq<char>) -> Seq<char> {
    trim_end_seq(trim_start_seq(s))
}

/// The longest prefix of `s` without white space.
pub open spec fn word_prefix(s: Seq<char>) -> Seq<char>
    decreases s.len(),
{
    if s.len() > 0 && !is_ws(s[0]) {
        seq![s[0]] + word_prefix(s.drop_first())
    } else {
        Seq::empty()
    }
}

/// The first white-space separated word of `s`; empty when there is none.
pub open spec fn first_word_seq(s: Seq<char>) -> Seq<char> {
    word_prefix(trim_start_seq(s))
}

/// `p` is a prefix of `s`.
pub open spec fn has_prefix(s: Seq<char>, p: Seq<char>) -> bool {
    p.len() <= s.len() && s.subrange(0, p.len() as int) == p
}

/// `p` is a suffix of `s`.
pub open spec fn has_suffix(s: Seq<char>, p: Seq<char>) -> bool {
    p.len() <= s.len() && s.subrange(s.len() - p.len(), s.len() as int) == p
}

/// `p` occurs in `s` starting at `i`.
pub open spec fn occurs_at(s: Seq<char>, p: Seq<char>, i: int) -> bool {
    0 <= i && i + p.len() <= s.len() && s.subrange(i, i + p.len()) == p
}

/// `p` occurs somewhere in `s`.
pub open spec fn has_infix(s: Seq<char>, p: Seq<char>) -> bool {
    exists|i: int| occurs_at(s, p, i)
}

/// Index of the first character of `cs` from `i` on that is not white
/// space.
pub(crate) fn skip_ws(cs: &Vec<char>, i: usize) -> (r: usize)
    requires
        i <= cs.len(),
    ensures
        i <= r <= cs.len(),
        trim_start_seq(cs@.skip(i as int)) == cs@.skip(r as int),
{
    let mut k = i;
    while k < cs.len() && is_white_space(cs[k])
        invariant
            i <= k <= cs.len(),
            trim_start_seq(cs@.skip(i as int)) == trim_start_seq(cs@.skip(k as int)),
        decreases cs.len() - k,
    {
        proof {
            assert(cs@.skip(k as int).drop_first() =~= cs@.skip(k + 1));
        }
        k += 1;
    }
    k
}

/// The characters of `s` without leading white space.
pub fn trim_start_chars(s: &str) -> (r: Vec<char>)
    ensures
        r@ == trim_start_seq(s@),
{
    let cs = chars_of(s);
    proof {
        assert(cs@.skip(0) =~= cs@);
    }
    let a = skip_ws(&cs, 0);
    let mut out: Vec<char> = Vec::new();
    let mut k = a;
    while k < cs.len()
        invariant
            a <= k <= cs.len(),
            out@ == cs@.subrange(a as int, k as int),
        decreases cs.len() - k,
    {
        out.push(cs[k]);
        proof {
            assert(out@ =~= cs@.subrange(a as int, k + 1));
        }
        k += 1;
    }
    proof {
        assert(out@ =~= cs@.skip(a as int));
    }
    out
}

/// `trim_end_seq` of a prefix of `s` that ends in a non-white-space
/// character, or is empty, is that prefix.
proof fn lemma_trim_end_stops(s: Seq<char>)
    requires
        s.len() == 0 || !is_ws(s.last()),
    ensures
        trim_end_seq(s) == s,
{
}

/// The characters of `s` without leading and trailing white space.
pub fn trim_chars(s: &str) -> (r: Vec<char>)
    ensures
        r@ == trim_seq(s@),
{
    let t = trim_start_chars(s);
    let mut e: usize = t.len();
    proof {
        assert(t@.subrange(0, e as int) =~= t@);
    }
    while e > 0 && is_white_space(t[e - 1])
        invariant
            e <= t.len(),
            trim_end_seq(t@) == trim_end_seq(t@.subrange(0, e as int)),
        decreases e,
    {
        proof {
            assert(t@.subrange(0, e as int).drop_last() =~= t@.subrange(0, e - 1));
        }
        e -= 1;
    }
    proof {
        lemma_trim_end_stops(t@.subrange(0, e as int));
    }
    let mut out: Vec<char> = Vec::new();
    let mut k: usize = 0;
    while k < e
        invariant
            k <= e <= t.len(),
            out@ == t@.subrange(0, k as int),
        decreases e - k,
    {
        out.push(t[k]);
        proof {
            assert(out@ =~= t@.subrange(0, k + 1));
        }
        k += 1;
    }
    out
}

/// `s` without leading and trailing white space (`str::trim`).
pub fn trim_string(s: &str) -> (r: String)
    ensures
        r@ == trim_seq(s@),
{
    let cs = trim_chars(s);
    string_of(cs.as_slice())
}

/// The first white-space separated word of `s`, empty when it has none
/// (`split_whitespace().next()`).
pub fn first_word(s: &str) -> (r: String)
    ensures
        r@ == first_word_seq(s@),
{
    let cs = chars_of(s);
    proof {
        assert(cs@.skip(0) =~= cs@);
    }
    let a = skip_ws(&cs, 0);
    let mut out: Vec<char> = Vec::new();
    let mut k = a;
    while k < cs.len() && !is_white_space(cs[k])
        invariant
            a <= k <= cs.len(),
            word_prefix(cs@.skip(a as int)) == out@ + word_prefix(cs@.skip(k as int)),
        decreases cs.len() - k,
    {
        proof {
            assert(cs@.skip(k as int).drop_first() =~= cs@.skip(k + 1));
            assert(out@ + (seq![cs@[k as int]] + word_prefix(cs@.skip(k + 1))) =~= out@.push(
                cs@[k as int],
            ) + word_prefix(cs@.skip(k + 1)));
        }
        out.push(cs[k]);
        k += 1;
    }
    proof {
        assert(out@ + word_prefix(cs@.skip(k as int)) =~= out@);
    }
    string_of(out.as_slice())
}

/// Whether `p` occurs in `cs` at `i`.
pub(crate) fn matches_at(cs: &Vec<char>, p: &Vec<char>, i: usize) -> (r: bool)
    ensures
        r == occurs_at(cs@, p@, i as int),
{
    if p.len() > cs.len() || i > cs.len() - p.len() {
        return false;
    }
    let mut j: usize = 0;
    while j < p.len()
        invariant
            i + p.len() <= cs.len(),
            j <= p.len(),
            forall|t: int| 0 <= t < j ==> cs@[i + t] == p@[t],
        decreases p.len() - j,
    {
        if cs[i + j] != p[j] {
            proof {
                assert(cs@.subrange(i as int, i + p.len())[j as int] != p@[j as int]);
            }
            return false;
        }
        j += 1;
    }
    proof {
        assert(cs@.subrange(i as int, i + p.len()) =~= p@);
    }
    true
}

/// Whether `p` occurs in `s` (`str::contains`).
pub fn contains_text(s: &str, p: &str) -> (r: bool)
    ensures
        r == has_infix(s@, p@),
{
    let cs = chars_of(s);
    let ps = chars_of(p);
    let mut i: usize = 0;
    loop
        invariant
            cs@ == s@,
            ps@ == p@,
            i <= cs.len(),
            forall|t: int| 0 <= t < i ==> !occurs_at(s@, p@, t),
        ensures
            forall|t: int| 0 <= t <= cs.len() ==> !occurs_at(s@, p@, t),
        decreases cs.len() - i,
    {
        if matches_at(&cs, &ps, i) {
            return true;
        }
        if i == cs.len() {
            break;
        }
        i += 1;
    }
    proof {
        assert forall|t: int| !occurs_at(s@, p@, t) by {
            if 0 <= t && t + p@.len() <= s@.len() {
                assert(t <= cs.len());
            }
        }
    }
    false
}

/// Whether `s` begins with `p` (`str::starts_with`).
pub fn starts_with_text(s: &str, p: &str) -> (r: bool)
    ensures
        r == has_prefix(s@, p@),
{
    let cs = chars_of(s);
    let ps = chars_of(p);
    matches_at(&cs, &ps, 0)
}

/// Whether `s` ends with `p` (`str::ends_with`).
pub fn ends_with_text(s: &str, p: &str) -> (r: bool)
    ensures
        r == has_suffix(s@, p@),
{
    let cs = chars_of(s);
    let ps = chars_of(p);
    if ps.len() > cs.len() {
        return false;
    }
    matches_at(&cs, &ps, cs.len() - ps.len())
}

/// `s` with every `from` replaced by `to`.
pub open spec fn replace_char_seq(s: Seq<char>, from: char, to: char) -> Seq<char> {
    s.map_values(|c: char| if c == from { to } else { c })
}

/// `s` with every `from` replaced by `to` (`str::replace` with one-char
/// patterns).
pub fn replace_char(s: &str, from: char, to: char) -> (r: String)
    ensures
        r@ == replace_char_seq(s@, from, to),
{
    let cs = chars_of(s);
    let mut out = String::new();
    let mut i: usize = 0;
    while i < cs.len()
        invariant
            cs@ == s@,
            i <= cs.len(),
            out@ == replace_char_seq(s@.subrange(0, i as int), from, to),
        decreases cs.len() - i,
    {
        let c = cs[i];
        push_char(&mut out, if c == from { to } else { c });
        proof {
            assert(replace_char_seq(s@.subrange(0, i + 1), from, to) =~= replace_char_seq(
                s@.subrange(0, i as int),
                from,
                to,
            ).push(if c == from { to } else { c }));
        }
        i += 1;
    }
    proof {
        assert(s@.subrange(0, cs.len() as int) =~= s@);
    }
    out
}

/// The decimal digit character for `d` in `0..10`.
pub open spec fn digit_char(d: int) -> char {
    if d == 0 {
        '0'
    } else if d == 1 {
        '1'
    } else if d == 2 {
        '2'
    } else if d == 3 {
        '3'
    } else if d == 4 {
        '4'
    } else if d == 5 {
        '5'
    } else if d == 6 {
        '6'
    } else if d == 7 {
        '7'
    } else if d == 8 {
        '8'
    } else {
        '9'
    }
}

/// The decimal digits of `n`, most significant first, without leading
/// zeros ("0" for zero).
pub open spec fn nat_digits(n: nat) -> Seq<char>
    decreases n,
{
    if n < 10 {
        seq![digit_char(n as int)]
    } else {
        nat_digits(n / 10).push(digit_char((n % 10) as int))
    }
}

/// The decimal form of `n`, with a leading `-` when negative.
pub open spec fn decimal(n: int) -> Seq<char> {
    if n < 0 {
        seq!['-'] + nat_digits((-n) as nat)
    } else {
        nat_digits(n as nat)
    }
}

fn digit_of(d: u64) -> (r: char)
    requires
        d < 10,
    ensures
        r == digit_char(d as int),
{
    if d == 0 {
        '0'
    } else if d == 1 {
        '1'
    } else if d == 2 {
        '2'
    } else if d == 3 {
        '3'
    } else if d == 4 {
        '4'
    } else if d == 5 {
        '5'
    } else if d == 6 {
        '6'
    } else if d == 7 {
        '7'
    } else if d == 8 {
        '8'
    } else {
        '9'
    }
}

fn push_digits(out: &mut String, m: u64)
    ensures
        final(out)@ == old(out)@ + nat_digits(m as nat),
    decreases m,
{
    if m >= 10 {
        push_digits(out, m / 10);
    }
    push_char(out, digit_of(m % 10));
    proof {
        if m >= 10 {
            assert(old(out)@ + nat_digits(m as nat) =~= old(out)@ + nat_digits((m / 10) as nat)
                + seq![digit_char((m % 10) as int)]);
        } else {
            assert(old(out)@ + nat_digits(m as nat) =~= old(out)@.push(digit_char((m % 10) as int)));
        }
    }
}

/// Appends the decimal form of `n` to `out`.
pub fn push_decimal(out: &mut String, n: i64)
    ensures
        final(out)@ == old(out)@ + decimal(n as int),
{
    if n < 0 {
        push_char(out, '-');
        let m: u64 = (-(n as i128)) as u64;
        push_digits(out, m);
        proof {
            assert(old(out)@.push('-') + nat_digits(m as nat) =~= old(out)@ + decimal(n as int));
        }
    } else {
        push_digits(out, n as u64);
    }
}

/// The decimal form of `n` (`i64::to_string`).
pub fn long_to_string(n: i64) -> (r: String)
    ensures
        r@ == decimal(n as int),
{
    let mut out = String::new();
    push_decimal(&mut out, n);
    proof {
        assert(out@ =~= decimal(n as int));
    }
    out
}

/// The characters of `s` without trailing white space.
pub fn trim_end_chars(s: &str) -> (r: Vec<char>)
    ensures
        r@ == trim_end_seq(s@),
{
    let t = chars_of(s);
    let mut e: usize = t.len();
    proof {
        assert(t@.subrange(0, e as int) =~= t@);
    }
    while e > 0 && is_white_space(t[e - 1])
        invariant
            e <= t.len(),
            trim_end_seq(t@) == trim_end_seq(t@.subrange(0, e as int)),
        decreases e,
    {
        proof {
            assert(t@.subrange(0, e as int).drop_last() =~= t@.subrange(0, e - 1));
        }
        e -= 1;
    }
    proof {
        lemma_trim_end_stops(t@.subrange(0, e as int));
    }
    let mut out: Vec<char> = Vec::new();
    let mut k: usize = 0;
    while k < e
        invariant
            k <= e <= t.len(),
            out@ == t@.subrange(0, k as int),
        decreases e - k,
    {
        out.push(t[k]);
        proof {
            assert(out@ =~= t@.subrange(0, k + 1));
        }
        k += 1;
    }
    out
}

/// The first place where `p` occurs in `s`, if any.
#[verifier::opaque]
pub open spec fn first_occurrence(s: Seq<char>, p: Seq<char>) -> Option<int> {
    if exists|i: int| occurs_at(s, p, i) {
        Some(choose|i: int| occurs_at(s, p, i) && forall|j: int| 0 <= j < i ==> !occurs_at(s, p, j))
    } else {
        None
    }
}

/// The first place where `p` occurs in `cs` at or after `from`, if any.
pub(crate) fn find_from(cs: &Vec<char>, p: &Vec<char>, from: usize) -> (r: Option<usize>)
    requires
        from <= cs@.len(),
    ensures
        match r {
            Some(i) => from <= i && occurs_at(cs@, p@, i as int) && forall|j: int|
                from <= j < i ==> !occurs_at(cs@, p@, j),
            None => forall|j: int| from <= j ==> !occurs_at(cs@, p@, j),
        },
{
    let mut i: usize = from;
    loop
        invariant
            from <= i <= cs@.len(),
            forall|j: int| from <= j < i ==> !occurs_at(cs@, p@, j),
        ensures
            forall|j: int| from <= j <= cs@.len() ==> !occurs_at(cs@, p@, j),
        decreases cs.len() - i,
    {
        if matches_at(cs, p, i) {
            return Some(i);
        }
        if i == cs.len() {
            break;
        }
        i += 1;
    }
    proof {
        assert forall|j: int| from <= j implies !occurs_at(cs@, p@, j) by {
            if j > cs@.len() {
                assert(!(j + p@.len() <= cs@.len()));
            }
        }
    }
    None
}

/// The first occurrence found from the start is the first occurrence.
pub(crate) proof fn lemma_first_occurrence(s: Seq<char>, p: Seq<char>, i: int)
    requires
        occurs_at(s, p, i),
        forall|j: int| 0 <= j < i ==> !occurs_at(s, p, j),
    ensures
        first_occurrence(s, p) == Some(i),
{
    reveal(first_occurrence);
    let c = choose|c: int| occurs_at(s, p, c) && forall|j: int| 0 <= j < c ==> !occurs_at(s, p, j);
    assert(0 <= c);
    if c < i {
        assert(!occurs_at(s, p, c));
    } else if c > i {
        assert(!occurs_at(s, p, i));
    }
}

/// An occurrence at `i` means there is a first one, at or before `i`.
proof fn lemma_least_occurrence(s: Seq<char>, p: Seq<char>, i: int)
    requires
        occurs_at(s, p, i),
    ensures
        exists|k: int| occurs_at(s, p, k) && forall|j: int| 0 <= j < k ==> !occurs_at(s, p, j),
    decreases i,
{
    if exists|j: int| 0 <= j < i && occurs_at(s, p, j) {
        let j = choose|j: int| 0 <= j < i && occurs_at(s, p, j);
        lemma_least_occurrence(s, p, j);
    }
}

/// The first occurrence is an occurrence, with none before it.
pub(crate) proof fn lemma_first_occurrence_found(s: Seq<char>, p: Seq<char>)
    ensures
        first_occurrence(s, p) matches Some(i) ==> occurs_at(s, p, i) && forall|j: int| 0 <= j < i ==> !occurs_at(s, p, j),
        first_occurrence(s, p) is None ==> forall|j: int| !occurs_at(s, p, j),
{
    reveal(first_occurrence);
    if exists|i: int| occurs_at(s, p, i) {
        let i = choose|i: int| occurs_at(s, p, i);
        lemma_least_occurrence(s, p, i);
    }
}

/// Where `p` occurs nowhere in `s`, there is no first occurrence.
pub(crate) proof fn lemma_no_occurrence(s: Seq<char>, p: Seq<char>)
    requires
        forall|j: int| !occurs_at(s, p, j),
    ensures
        first_occurrence(s, p) is None,
{
    reveal(first_occurrence);
}

/// The characters of a vector as a string value's text.
pub fn string_of_vec(cs: &Vec<char>) -> (r: String)
    ensures
        r@ == cs@,
{
    string_of(cs.as_slice())
}

} // verus!
