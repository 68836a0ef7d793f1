//! Structural hashing of values, consistent with structural equality for
//! scalars: integers hash as their number, strings, keywords and symbols
//! by their text, vectors and lists by an ordered fold of their elements'
//! hashes, maps and sets by an order-free combination.

use crate::equality::{deep_eq, lemma_list_elem_smaller, lemma_map_entry_size, lemma_vector_elem_smaller, value_size};
use crate::hash::{default_hash_of_str, default_hash_str, hash_combine, hash_long, spec_entry_hash, spec_hash_combine, spec_hash_long, spec_hash_ordered, spec_hash_unordered, entry_hash};
use crate::hamt::{lemma_key_order, opt_entries};
use crate::key::{key_hash, KeyView};
use crate::set::lemma_elem_order;
use crate::value::Value;
use vstd::prelude::*;

verus! {

/// The hash of an element of `v`, guarded so that the definition is well
/// founded.
pub open spec fn part_hash(x: Value, v: Value) -> u64
    decreases value_size(v), 0nat,
{
    if value_size(x) < value_size(v) {
        value_hash(x)
    } else {
        0
    }
}

/// The hashes of the elements of a vector or list, in order.
pub open spec fn elem_hashes(v: Value) -> Seq<u64>
    decreases value_size(v), 1nat,
{
    match v {
        Value::Vector(xs) => Seq::new(xs@.len(), |i: int| part_hash(xs@[i], v)),
        Value::List(l) => Seq::new(l.view().len(), |i: int| part_hash(l.view()[i], v)),
        _ => Seq::empty(),
    }
}

/// The hashes of the entries of a map, or the elements of a set, in the
/// order in which it holds them.
pub open spec fn member_hashes(v: Value) -> Seq<u64>
    decreases value_size(v), 1nat,
{
    match v {
        Value::HashMap(m) => Seq::new(
            m.key_order().len(),
            |i: int| spec_entry_hash(key_hash(m.key_order()[i]), part_hash(m.view()[m.key_order()[i]], v)),
        ),
        Value::HashSet(s) => Seq::new(s.elem_order().len(), |i: int| key_hash(s.elem_order()[i])),
        _ => Seq::empty(),
    }
}

/// The structural hash of a value.
pub open spec fn value_hash(v: Value) -> u64
    decreases value_size(v), 2nat,
{
    match v {
        Value::Nil => 0,
        Value::Bool(b) => if b {
            1
        } else {
            0
        },
        Value::Long(n) => spec_hash_long(n),
        Value::Str(s) => default_hash_str(s@),
        Value::Keyword(s) => default_hash_str(s@),
        Value::Symbol(s) => default_hash_str(s@),
        Value::Vector(_) => spec_hash_ordered(elem_hashes(v)),
        Value::List(_) => spec_hash_ordered(elem_hashes(v)),
        Value::HashMap(_) => spec_hash_unordered(member_hashes(v)),
        Value::HashSet(_) => spec_hash_unordered(member_hashes(v)),
        Value::Identity(_, id) => id,
    }
}

/// The structural hash of a value.
pub fn clorus_hash(v: &Value) -> (r: u64)
    ensures
        r == value_hash(*v),
    decreases value_size(*v),
{
    match v {
        Value::Nil => 0,
        Value::Bool(b) => if *b {
            1
        } else {
            0
        },
        Value::Long(n) => hash_long(*n),
        Value::Str(s) => default_hash_of_str(s.as_str()),
        Value::Keyword(s) => default_hash_of_str(s.as_str()),
        Value::Symbol(s) => default_hash_of_str(s.as_str()),
        Value::Identity(_, id) => *id,
        Value::Vector(xs) => {
            let ghost hs = elem_hashes(*v);
            let mut state: u64 = 0;
            let mut i: usize = 0;
            proof {
                assert(hs.subrange(0, 0) =~= Seq::<u64>::empty());
            }
            while i < xs.len()
                invariant
                    i <= xs@.len(),
                    *v == Value::Vector(*xs),
                    hs == elem_hashes(*v),
                    hs.len() == xs@.len(),
                    forall|q: int| 0 <= q < xs@.len() ==> #[trigger] hs[q] == part_hash(xs@[q], *v),
                    state == spec_hash_ordered(hs.subrange(0, i as int)),
                decreases xs.len() - i,
            {
                proof {
                    lemma_vector_elem_smaller(xs, i as int);
                    assert(hs.subrange(0, i + 1).drop_last() =~= hs.subrange(0, i as int));
                }
                let h = clorus_hash(&xs[i]);
                state = hash_combine(state, h);
                i += 1;
            }
            proof {
                assert(hs.subrange(0, xs@.len() as int) =~= hs);
            }
            state
        },
        Value::List(l) => {
            let items = l.to_vec_refs();
            let ghost hs = elem_hashes(*v);
            let mut state: u64 = 0;
            let mut i: usize = 0;
            proof {
                assert(hs.subrange(0, 0) =~= Seq::<u64>::empty());
            }
            while i < items.len()
                invariant
                    i <= items@.len(),
                    items@.len() == l.view().len(),
                    forall|t: int| 0 <= t < items@.len() ==> *(#[trigger] items@[t]) == l.view()[t],
                    *v == Value::List(*l),
                    hs == elem_hashes(*v),
                    hs.len() == l.view().len(),
                    forall|q: int| 0 <= q < l.view().len() ==> #[trigger] hs[q] == part_hash(l.view()[q], *v),
                    state == spec_hash_ordered(hs.subrange(0, i as int)),
                decreases items.len() - i,
            {
                proof {
                    lemma_list_elem_smaller(l, i as int);
                    assert(*items@[i as int] == l.view()[i as int]);
                    assert(hs.subrange(0, i + 1).drop_last() =~= hs.subrange(0, i as int));
                }
                let h = clorus_hash(items[i]);
                state = hash_combine(state, h);
                i += 1;
            }
            proof {
                assert(hs.subrange(0, l.view().len() as int) =~= hs);
            }
            state
        },
        Value::HashMap(m) => {
            let es = m.entry_list();
            let ghost ks = m.key_order();
            let ghost hs = member_hashes(*v);
            let mut state: u64 = 0;
            let mut j: usize = 0;
            proof {
                assert(hs.subrange(0, 0) =~= Seq::<u64>::empty());
            }
            while j < es.len()
                invariant
                    j <= es@.len(),
                    es@ == crate::hamt::opt_entries(m.root),
                    es@.len() == ks.len(),
                    ks == m.key_order(),
                    forall|t: int| 0 <= t < es@.len() ==> (#[trigger] es@[t]).key@ == ks[t],
                    forall|t: int|
                        0 <= t < es@.len() ==> m.view().contains_key((#[trigger] es@[t]).key@)
                            && m.view()[es@[t].key@] == es@[t].val,
                    *v == Value::HashMap(*m),
                    hs == member_hashes(*v),
                    hs.len() == ks.len(),
                    forall|q: int| 0 <= q < ks.len() ==> #[trigger] hs[q] == spec_entry_hash(key_hash(ks[q]), part_hash(m.view()[ks[q]], *v)),
                    state == spec_hash_unordered(hs.subrange(0, j as int)),
                decreases es.len() - j,
            {
                proof {
                    assert(crate::hamt::opt_entries(m.root)[j as int] == es@[j as int]);
                    lemma_map_entry_size(*m, es@[j as int]);
                    assert(hs.subrange(0, j + 1).drop_last() =~= hs.subrange(0, j as int));
                    assert(es@[j as int].key@ == ks[j as int]);
                }
                let hk = es[j].key.hash();
                let hv = clorus_hash(&es[j].val);
                state = state ^ entry_hash(hk, hv);
                j += 1;
            }
            proof {
                assert(hs.subrange(0, ks.len() as int) =~= hs);
            }
            state
        },
        Value::HashSet(s) => {
            let vs = s.values();
            let ghost ks = s.elem_order();
            let ghost hs = member_hashes(*v);
            let mut state: u64 = 0;
            let mut j: usize = 0;
            proof {
                assert(hs.subrange(0, 0) =~= Seq::<u64>::empty());
            }
            while j < vs.len()
                invariant
                    j <= vs@.len(),
                    vs@.len() == ks.len(),
                    forall|t: int| 0 <= t < vs@.len() ==> (#[trigger] vs@[t])@ == ks[t],
                    *v == Value::HashSet(*s),
                    hs == member_hashes(*v),
                    hs.len() == ks.len(),
                    forall|q: int| 0 <= q < ks.len() ==> #[trigger] hs[q] == key_hash(ks[q]),
                    state == spec_hash_unordered(hs.subrange(0, j as int)),
                decreases vs.len() - j,
            {
                proof {
                    assert(hs.subrange(0, j + 1).drop_last() =~= hs.subrange(0, j as int));
                    assert(vs@[j as int]@ == ks[j as int]);
                }
                state = state ^ vs[j].hash();
                j += 1;
            }
            proof {
                assert(hs.subrange(0, ks.len() as int) =~= hs);
            }
            state
        },
    }
}


/// Values whose maps and sets, at every depth, are well formed tries (as
/// every value that this library builds is; [`witness_value_well_formed`]
/// establishes it for a given value).
pub open spec fn well_formed_value(v: Value) -> bool
    decreases value_size(v),
{
    match v {
        Value::Vector(xs) => forall|i: int|
            0 <= i < xs@.len() ==> (value_size(#[trigger] xs@[i]) < value_size(v) ==> well_formed_value(xs@[i])),
        Value::List(l) => forall|i: int|
            0 <= i < l.view().len() ==> (value_size(#[trigger] l.view()[i]) < value_size(v) ==> well_formed_value(
                l.view()[i],
            )),
        Value::HashMap(m) => m.well_formed() && forall|k: KeyView|
            m.view().contains_key(k) ==> (value_size(#[trigger] m.view()[k]) < value_size(v) ==> well_formed_value(
                m.view()[k],
            )),
        Value::HashSet(s) => s.well_formed(),
        _ => true,
    }
}

/// Establishes that a value is well formed at every depth (every value
/// is), so that the laws below apply to it. It walks the value.
pub fn witness_value_well_formed(v: &Value)
    ensures
        well_formed_value(*v),
    decreases value_size(*v),
{
    match v {
        Value::Vector(xs) => {
            let mut i: usize = 0;
            while i < xs.len()
                invariant
                    i <= xs@.len(),
                    *v == Value::Vector(*xs),
                    forall|j: int| 0 <= j < i ==> well_formed_value(#[trigger] xs@[j]),
                decreases xs.len() - i,
            {
                proof {
                    lemma_vector_elem_smaller(xs, i as int);
                }
                witness_value_well_formed(&xs[i]);
                i += 1;
            }
        },
        Value::List(l) => {
            let items = l.to_vec_refs();
            let mut i: usize = 0;
            while i < items.len()
                invariant
                    i <= items@.len(),
                    *v == Value::List(*l),
                    items@.len() == l.view().len(),
                    forall|q: int| 0 <= q < items@.len() ==> *(#[trigger] items@[q]) == l.view()[q],
                    forall|j: int| 0 <= j < i ==> well_formed_value(#[trigger] l.view()[j]),
                decreases items.len() - i,
            {
                proof {
                    lemma_list_elem_smaller(l, i as int);
                }
                witness_value_well_formed(items[i]);
                i += 1;
            }
        },
        Value::HashMap(m) => {
            m.witness_well_formed();
            let es = m.entry_list();
            let mut i: usize = 0;
            while i < es.len()
                invariant
                    i <= es@.len(),
                    *v == Value::HashMap(*m),
                    es@ == opt_entries(m.root),
                    forall|j: int| 0 <= j < i ==> well_formed_value((#[trigger] es@[j]).val),
                decreases es.len() - i,
            {
                proof {
                    assert(opt_entries(m.root).contains(es@[i as int]));
                    lemma_map_entry_size(*m, es@[i as int]);
                }
                witness_value_well_formed(&es[i].val);
                i += 1;
            }
            proof {
                lemma_key_order(*m);
                assert forall|k: KeyView| m.view().contains_key(k) implies (value_size(#[trigger] m.view()[k])
                    < value_size(*v) ==> well_formed_value(m.view()[k])) by {
                    assert(m.key_order().contains(k));
                    let j = choose|j: int| 0 <= j < m.key_order().len() && m.key_order()[j] == k;
                    assert(m.view()[m.key_order()[j]] == opt_entries(m.root)[j].val);
                    assert(es@[j].val == m.view()[k]);
                }
            }
        },
        Value::HashSet(s) => {
            s.witness_well_formed();
        },
        _ => {},
    }
}

proof fn lemma_xor_swap(a: u64, b: u64, c: u64)
    ensures
        (a ^ b) ^ c == (a ^ c) ^ b,
{
    assert((a ^ b) ^ c == (a ^ c) ^ b) by (bit_vector);
}

/// Taking one hash out of an unordered combination and xoring it back in
/// gives the same result.
proof fn lemma_unordered_remove(hs: Seq<u64>, j: int)
    requires
        0 <= j < hs.len(),
    ensures
        spec_hash_unordered(hs) == spec_hash_unordered(hs.remove(j)) ^ hs[j],
    decreases hs.len(),
{
    if j == hs.len() - 1 {
        assert(hs.remove(j) =~= hs.drop_last());
    } else {
        let r = hs.remove(j);
        assert(r.drop_last() =~= hs.drop_last().remove(j));
        assert(r.last() == hs.last());
        lemma_unordered_remove(hs.drop_last(), j);
        assert(hs.drop_last()[j] == hs[j]);
        lemma_xor_swap(spec_hash_unordered(hs.drop_last().remove(j)), hs[j], hs.last());
    }
}

/// The unordered combination of `f` over a list of distinct keys depends
/// only on which keys are listed.
proof fn lemma_unordered_permutation(
    s1: Seq<KeyView>,
    s2: Seq<KeyView>,
    f: spec_fn(KeyView) -> u64,
    g: spec_fn(KeyView) -> u64,
)
    requires
        s1.no_duplicates(),
        s2.no_duplicates(),
        forall|k: KeyView| s1.contains(k) <==> s2.contains(k),
        forall|k: KeyView| s1.contains(k) ==> f(k) == g(k),
    ensures
        spec_hash_unordered(s1.map_values(f)) == spec_hash_unordered(s2.map_values(g)),
    decreases s1.len(),
{
    if s1.len() == 0 {
        if s2.len() > 0 {
            assert(s2.contains(s2[0]));
        }
        assert(s2.map_values(g) =~= Seq::<u64>::empty());
        assert(s1.map_values(f) =~= Seq::<u64>::empty());
    } else {
        let x = s1.last();
        assert(s1.contains(x));
        let j = choose|j: int| 0 <= j < s2.len() && s2[j] == x;
        let d1 = s1.drop_last();
        let d2 = s2.remove(j);
        assert forall|k: KeyView| d1.contains(k) <==> d2.contains(k) by {
            if d1.contains(k) {
                let a = choose|a: int| 0 <= a < d1.len() && d1[a] == k;
                assert(s1[a] == k);
                assert(k != x);
                assert(s2.contains(k));
                let b = choose|b: int| 0 <= b < s2.len() && s2[b] == k;
                assert(b != j);
                if b < j {
                    assert(d2[b] == k);
                } else {
                    assert(d2[b - 1] == k);
                }
            }
            if d2.contains(k) {
                let b = choose|b: int| 0 <= b < d2.len() && d2[b] == k;
                if b < j {
                    assert(s2[b] == k);
                } else {
                    assert(s2[b + 1] == k);
                }
                assert(k != x);
                assert(s1.contains(k));
                let a = choose|a: int| 0 <= a < s1.len() && s1[a] == k;
                assert(a != s1.len() - 1);
                assert(d1[a] == k);
            }
        }
        assert forall|k: KeyView| d1.contains(k) implies f(k) == g(k) by {
            let a = choose|a: int| 0 <= a < d1.len() && d1[a] == k;
            assert(s1[a] == k);
            assert(s1.contains(k));
        }
        assert(d2.no_duplicates()) by {
            assert forall|a: int, b: int| 0 <= a < d2.len() && 0 <= b < d2.len() && a != b implies d2[a]
                != d2[b] by {
                let a2 = if a < j {
                    a
                } else {
                    a + 1
                };
                let b2 = if b < j {
                    b
                } else {
                    b + 1
                };
                assert(d2[a] == s2[a2]);
                assert(d2[b] == s2[b2]);
            }
        }
        lemma_unordered_permutation(d1, d2, f, g);
        assert(s1.map_values(f).drop_last() =~= d1.map_values(f));
        assert(s2.map_values(g).remove(j) =~= d2.map_values(g));
        lemma_unordered_remove(s2.map_values(g), j);
    }
}

/// Structurally equal values hash alike.
pub proof fn law_equal_values_hash_alike(a: Value, b: Value)
    requires
        well_formed_value(a),
        well_formed_value(b),
        deep_eq(a, b),
    ensures
        value_hash(a) == value_hash(b),
    decreases value_size(a),
{
    match (a, b) {
        (Value::Vector(x), Value::Vector(y)) => {
            assert forall|i: int| 0 <= i < x@.len() implies #[trigger] elem_hashes(a)[i] == elem_hashes(b)[i] by {
                lemma_vector_elem_smaller(&x, i);
                lemma_vector_elem_smaller(&y, i);
                law_equal_values_hash_alike(x@[i], y@[i]);
            }
            assert(elem_hashes(a) =~= elem_hashes(b));
        },
        (Value::List(x), Value::List(y)) => {
            assert forall|i: int| 0 <= i < x.view().len() implies #[trigger] elem_hashes(a)[i] == elem_hashes(
                b,
            )[i] by {
                lemma_list_elem_smaller(&x, i);
                lemma_list_elem_smaller(&y, i);
                law_equal_values_hash_alike(x.view()[i], y.view()[i]);
            }
            assert(elem_hashes(a) =~= elem_hashes(b));
        },
        (Value::HashSet(x), Value::HashSet(y)) => {
            lemma_elem_order(x);
            lemma_elem_order(y);
            let f = |k: KeyView| key_hash(k);
            lemma_unordered_permutation(x.elem_order(), y.elem_order(), f, f);
            assert(member_hashes(a) =~= x.elem_order().map_values(f));
            assert(member_hashes(b) =~= y.elem_order().map_values(f));
        },
        (Value::HashMap(x), Value::HashMap(y)) => {
            lemma_key_order(x);
            lemma_key_order(y);
            let f = |k: KeyView| spec_entry_hash(key_hash(k), part_hash(x.view()[k], a));
            let g = |k: KeyView| spec_entry_hash(key_hash(k), part_hash(y.view()[k], b));
            assert forall|k: KeyView| x.key_order().contains(k) implies f(k) == g(k) by {
                let j = choose|j: int| 0 <= j < x.key_order().len() && x.key_order()[j] == k;
                assert(opt_entries(x.root).contains(opt_entries(x.root)[j]));
                lemma_map_entry_size(x, opt_entries(x.root)[j]);
                assert(x.view()[x.key_order()[j]] == opt_entries(x.root)[j].val);
                assert(y.view().dom().contains(k));
                assert(y.key_order().contains(k));
                let i = choose|i: int| 0 <= i < y.key_order().len() && y.key_order()[i] == k;
                assert(opt_entries(y.root).contains(opt_entries(y.root)[i]));
                lemma_map_entry_size(y, opt_entries(y.root)[i]);
                assert(y.view()[y.key_order()[i]] == opt_entries(y.root)[i].val);
                law_equal_values_hash_alike(x.view()[k], y.view()[k]);
            }
            assert forall|k: KeyView| x.key_order().contains(k) <==> y.key_order().contains(k) by {
                assert(x.view().dom().contains(k) == y.view().dom().contains(k));
            }
            lemma_unordered_permutation(x.key_order(), y.key_order(), f, g);
            assert(member_hashes(a) =~= x.key_order().map_values(f));
            assert(member_hashes(b) =~= y.key_order().map_values(g));
        },
        _ => {},
    }
}

} // verus!
