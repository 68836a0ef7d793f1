//! Structural hashing: the combinator used for ordered collections, the
//! binary64 encoding that numbers are hashed through, and std's default
//! hasher for the leaves.

use std::collections::hash_map::DefaultHasher;
use std::hash::Hash;
use std::hash::Hasher;
use vstd::arithmetic::power2::pow2;
use vstd::prelude::*;

verus! {

broadcast use vstd::arithmetic::power2::lemma_pow2_pos;

/// The golden-ratio constant mixed into every combination step.
pub const HASH_MIX: u64 = 0x9e3779b97f4a7c15u64;

/// Combine a running hash `seed` with the hash `value` of the next element.
pub open spec fn spec_hash_combine(seed: u64, value: u64) -> u64 {
    seed ^ vstd::wrapping::u64_specs::wrapping_add(
        vstd::wrapping::u64_specs::wrapping_add(
            vstd::wrapping::u64_specs::wrapping_add(value, HASH_MIX),
            seed << 6u64,
        ),
        seed >> 2u64,
    )
}

/// Order-dependent combination of two hashes.
pub fn hash_combine(seed: u64, value: u64) -> (r: u64)
    ensures
        r == spec_hash_combine(seed, value),
{
    let mut hash = seed;
    hash ^= value.wrapping_add(HASH_MIX).wrapping_add(hash << 6).wrapping_add(hash >> 2);
    hash
}

/// Ordered hash of a sequence of element hashes: a left fold of
/// `spec_hash_combine` starting from zero.
pub open spec fn spec_hash_ordered(hs: Seq<u64>) -> u64
    decreases hs.len(),
{
    if hs.len() == 0 {
        0
    } else {
        spec_hash_combine(spec_hash_ordered(hs.drop_last()), hs.last())
    }
}

/// Ordered hash of a sequence of element hashes.
pub fn hash_ordered(hs: &Vec<u64>) -> (r: u64)
    ensures
        r == spec_hash_ordered(hs@),
{
    let mut state: u64 = 0;
    let mut i: usize = 0;
    while i < hs.len()
        invariant
            i <= hs.len(),
            state == spec_hash_ordered(hs@.subrange(0, i as int)),
        decreases hs.len() - i,
    {
        proof {
            assert(hs@.subrange(0, i + 1).drop_last() =~= hs@.subrange(0, i as int));
        }
        state = hash_combine(state, hs[i]);
        i += 1;
    }
    proof {
        assert(hs@.subrange(0, hs.len() as int) =~= hs@);
    }
    state
}

/// Unordered hash of a collection of element hashes: their exclusive or.
pub open spec fn spec_hash_unordered(hs: Seq<u64>) -> u64
    decreases hs.len(),
{
    if hs.len() == 0 {
        0
    } else {
        spec_hash_unordered(hs.drop_last()) ^ hs.last()
    }
}

/// Unordered hash of a collection of element hashes.
pub fn hash_unordered(hs: &Vec<u64>) -> (r: u64)
    ensures
        r == spec_hash_unordered(hs@),
{
    let mut state: u64 = 0;
    let mut i: usize = 0;
    while i < hs.len()
        invariant
            i <= hs.len(),
            state == spec_hash_unordered(hs@.subrange(0, i as int)),
        decreases hs.len() - i,
    {
        proof {
            assert(hs@.subrange(0, i + 1).drop_last() =~= hs@.subrange(0, i as int));
        }
        state = state ^ hs[i];
        i += 1;
    }
    proof {
        assert(hs@.subrange(0, hs.len() as int) =~= hs@);
    }
    state
}

/// The hash of one map entry, from the hashes of its key and value.
pub open spec fn spec_entry_hash(key_hash: u64, val_hash: u64) -> u64 {
    key_hash ^ ((val_hash << 1u64) | (val_hash >> 63u64))
}

/// Hash of one map entry: the key's hash xor the value's hash rotated
/// left by one bit.
pub fn entry_hash(key_hash: u64, val_hash: u64) -> (r: u64)
    ensures
        r == spec_entry_hash(key_hash, val_hash),
{
    key_hash ^ ((val_hash << 1) | (val_hash >> 63))
}

/// Position of the highest set bit of a positive number.
pub open spec fn top_bit(m: nat) -> nat
    decreases m,
{
    if m < 2 {
        0
    } else {
        1 + top_bit(m / 2)
    }
}

/// The significand (with its hidden bit) and the unbiased exponent of the
/// binary64 value nearest to `m` (ties to even), for `0 < m`.
pub open spec fn spec_round_to_double(m: nat) -> (nat, nat) {
    let e = top_bit(m);
    if e <= 52 {
        (m * pow2((52 - e) as nat), e)
    } else {
        let s = (e - 52) as nat;
        let q = m / pow2(s);
        let r = m % pow2(s);
        let half = pow2((s - 1) as nat);
        let up = r > half || (r == half && q % 2 == 1);
        let q2: nat = if up {
            q + 1
        } else {
            q
        };
        if q2 == pow2(53) {
            (pow2(52), e + 1)
        } else {
            (q2, e)
        }
    }
}

/// The IEEE-754 binary64 encoding of the double nearest to `n`, which is
/// what a 64-bit integer converts to when numbers are hashed.
pub open spec fn spec_long_double_bits(n: i64) -> u64 {
    if n == 0 {
        0
    } else {
        let sign: nat = if n < 0 {
            1
        } else {
            0
        };
        let m: nat = if n < 0 {
            (-n) as nat
        } else {
            n as nat
        };
        let (sig, exp) = spec_round_to_double(m);
        (sign * pow2(63) + (exp + 1023) * pow2(52) + (sig - pow2(52))) as u64
    }
}

proof fn lemma_top_bit_bounds(m: nat)
    requires
        m > 0,
    ensures
        pow2(top_bit(m)) <= m < pow2(top_bit(m) + 1),
    decreases m,
{
    vstd::arithmetic::power2::lemma_pow2_unfold(top_bit(m) + 1);
    if m >= 2 {
        lemma_top_bit_bounds(m / 2);
        vstd::arithmetic::power2::lemma_pow2_unfold(top_bit(m));
    } else {
        vstd::arithmetic::power2::lemma2_to64();
    }
}

/// Encode a 64-bit integer as the binary64 bits of the nearest double.
pub fn long_double_bits(n: i64) -> (r: u64)
    ensures
        r == spec_long_double_bits(n),
{
    if n == 0 {
        return 0;
    }
    let sign: u64 = if n < 0 { 1 } else { 0 };
    let m: u64 = if n < 0 {
        if n == i64::MIN {
            0x8000_0000_0000_0000u64
        } else {
            (-n) as u64
        }
    } else {
        n as u64
    };
    let ghost mn: nat = if n < 0 {
        (-n) as nat
    } else {
        n as nat
    };
    assert(m == mn);
    proof {
        lemma_top_bit_bounds(m as nat);
        vstd::arithmetic::power2::lemma2_to64_rest();
        if top_bit(m as nat) >= 64 {
            vstd::arithmetic::power2::lemma_pow2_strictly_increases(64, top_bit(m as nat));
        }
    }
    // find the highest set bit
    let mut t: u64 = m;
    let mut e: u64 = 0;
    while t >= 2
        invariant
            t >= 1,
            top_bit(m as nat) == e + top_bit(t as nat),
            e < 64,
            e + top_bit(t as nat) < 64,
            m >= 1,
        decreases t,
    {
        proof {
            lemma_top_bit_bounds(m as nat);
            vstd::arithmetic::power2::lemma2_to64_rest();
        }
        t = t / 2;
        e = e + 1;
    }
    proof {
        lemma_top_bit_bounds(m as nat);
        vstd::arithmetic::power2::lemma2_to64();
        vstd::arithmetic::power2::lemma2_to64_rest();
    }
    assert(top_bit(m as nat) == e);
    let sig: u64;
    let exp: u64;
    if e <= 52 {
        let k: u64 = 52 - e;
        proof {
            vstd::arithmetic::power2::lemma_pow2_adds(e as nat, k as nat);
            vstd::arithmetic::power2::lemma_pow2_strictly_increases(e as nat, e as nat + 1);
            assert(m * pow2(k as nat) < pow2(e as nat + 1) * pow2(k as nat)) by (nonlinear_arith)
                requires
                    m < pow2(e as nat + 1),
                    pow2(k as nat) > 0,
            ;
            vstd::arithmetic::power2::lemma_pow2_adds(e as nat + 1, k as nat);
            vstd::arithmetic::power2::lemma2_to64_rest();
            assert(pow2(53) == 0x20_0000_0000_0000);
            vstd::bits::lemma_u64_shl_is_mul(m, k);
        }
        sig = m << k;
        exp = e;
        proof {
            assert(pow2(e as nat) * pow2(k as nat) <= m * pow2(k as nat)) by (nonlinear_arith)
                requires
                    pow2(e as nat) <= m,
                    pow2(k as nat) > 0,
            ;
            assert(e as nat + k as nat == 52);
            vstd::arithmetic::power2::lemma2_to64_rest();
            assert(0x10_0000_0000_0000 <= sig < 0x20_0000_0000_0000);
        }
    } else {
        let s: u64 = e - 52;
        proof {
            vstd::bits::lemma_u64_shr_is_div(m, s);
            vstd::bits::lemma_u64_shl_is_mul(1, (s - 1) as u64);
            vstd::bits::lemma_u64_pow2_no_overflow((s - 1) as nat);
        }
        let q: u64 = m >> s;
        let half: u64 = 1u64 << (s - 1);
        let p: u64 = half * 2;
        proof {
            vstd::arithmetic::power2::lemma_pow2_unfold(s as nat);
            assert(p == pow2(s as nat));
        }
        let r: u64 = m % p;
        let up: bool = r > half || (r == half && q % 2 == 1);
        let q2: u64 = if up { q + 1 } else { q };
        proof {
            // q lies in [2^52, 2^53)
            vstd::arithmetic::power2::lemma_pow2_adds(52, s as nat);
            vstd::arithmetic::power2::lemma_pow2_adds(53, s as nat);
            vstd::arithmetic::div_mod::lemma_div_is_ordered(
                pow2(e as nat) as int,
                m as int,
                pow2(s as nat) as int,
            );
            vstd::arithmetic::div_mod::lemma_div_by_multiple(pow2(52) as int, pow2(s as nat) as int);
            vstd::arithmetic::div_mod::lemma_div_by_multiple(pow2(53) as int, pow2(s as nat) as int);
            vstd::arithmetic::div_mod::lemma_div_is_ordered(
                m as int,
                (pow2(e as nat + 1) - 1) as int,
                pow2(s as nat) as int,
            );
            vstd::arithmetic::div_mod::lemma_div_is_ordered(
                (pow2(e as nat + 1) - 1) as int,
                pow2(e as nat + 1) as int,
                pow2(s as nat) as int,
            );
            vstd::arithmetic::power2::lemma_pow2_strictly_increases(52, 53);
            vstd::arithmetic::power2::lemma2_to64_rest();
            assert(pow2(53) == 0x20_0000_0000_0000);
            vstd::arithmetic::power2::lemma2_to64_rest();
            assert(pow2(52) == 0x10_0000_0000_0000);
            assert(e as nat + 1 == 53 + s);
            assert(e as nat == 52 + s);
            assert(((pow2(e as nat + 1) - 1) as int) / (pow2(s as nat) as int) < pow2(53)) by {
                vstd::arithmetic::div_mod::lemma_div_by_multiple_is_strongly_ordered(
                    (pow2(e as nat + 1) - 1) as int,
                    pow2(e as nat + 1) as int,
                    pow2(53) as int,
                    pow2(s as nat) as int,
                );
            }
        }
        proof {
            assert(q as nat >= pow2(52));
            assert(q as nat <= pow2(53) - 1);
        }
        if q2 == 0x20_0000_0000_0000u64 {
            sig = 0x10_0000_0000_0000u64;
            exp = e + 1;
        } else {
            sig = q2;
            exp = e;
        }
        proof {
            assert(0x10_0000_0000_0000 <= sig < 0x20_0000_0000_0000);
        }
    }
    proof {
        vstd::arithmetic::power2::lemma2_to64_rest();
            assert(pow2(52) == 0x10_0000_0000_0000);
        vstd::arithmetic::power2::lemma2_to64_rest();
            assert(pow2(53) == 0x20_0000_0000_0000);
        vstd::arithmetic::power2::lemma2_to64_rest();
            assert(pow2(63) == 0x8000_0000_0000_0000);
        assert(spec_round_to_double(m as nat) == (sig as nat, exp as nat));
        assert(0x10_0000_0000_0000 <= sig < 0x20_0000_0000_0000);
        assert(exp <= 64);
    }
    let bits: u64 = sign * 0x8000_0000_0000_0000u64 + (exp + 1023) * 0x10_0000_0000_0000u64 + (sig
        - 0x10_0000_0000_0000u64);
    bits
}

/// What std's default hasher (`DefaultHasher::new`, whose keys are fixed)
/// yields for a 64-bit integer.
pub uninterp spec fn default_hash_u64(x: u64) -> u64;

/// What std's default hasher (`DefaultHasher::new`) yields for a string.
pub uninterp spec fn default_hash_str(s: Seq<char>) -> u64;

/// Hashes `x` with `std::collections::hash_map::DefaultHasher::new()`.
/// Claimed: the result depends on `x` alone. The hasher's keys are fixed
/// (it is not seeded per process); std writes the integer's native-endian
/// bytes, so the value is the same across runs of one target.
#[verifier::external_body]
pub(crate) fn default_hash_of_u64(x: u64) -> (r: u64)
    ensures
        r == default_hash_u64(x),
{
    let mut hasher = DefaultHasher::new();
    x.hash(&mut hasher);
    hasher.finish()
}

/// Hashes `s` with `std::collections::hash_map::DefaultHasher::new()`.
/// Claimed: the result depends on the characters of `s` alone (the hasher's
/// keys are fixed).
#[verifier::external_body]
pub(crate) fn default_hash_of_str(s: &str) -> (r: u64)
    ensures
        r == default_hash_str(s@),
{
    let mut hasher = DefaultHasher::new();
    s.hash(&mut hasher);
    hasher.finish()
}

/// The hash of an integer number: that of the binary64 encoding of the
/// nearest double.
pub open spec fn spec_hash_long(n: i64) -> u64 {
    default_hash_u64(spec_long_double_bits(n))
}

/// Hash of an integer number.
pub fn hash_long(n: i64) -> (r: u64)
    ensures
        r == spec_hash_long(n),
{
    default_hash_of_u64(long_double_bits(n))
}

} // verus!
