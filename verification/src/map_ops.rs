//! Value-level operations on maps, sets and lists, and the map operations
//! of the core library: `dissoc`, `keys`, `vals`, `merge`, `get-in`,
//! `assoc-in` and `update`.
//!
//! Maps and sets hold keys: scalars (nil, booleans, integers, strings,
//! keywords, symbols) and the identities of reference values; operations
//! that store a key require one.

use crate::collections::{clorus_contains, clorus_get, spec_contains, spec_get, spec_items};
use crate::hamt::{distinct_keys, HashTrieMap, MapEntry};
use crate::key::KeyView;
use crate::list::PersistentList;
use crate::set::HashTrieSet;
use crate::value::Value;
use std::rc::Rc;
use vstd::prelude::*;

verus! {

/// The entries of a map value; nothing for other values.
pub open spec fn map_view(v: Value) -> Map<KeyView, Value> {
    match v {
        Value::HashMap(m) => m.view(),
        _ => Map::empty(),
    }
}

/// A map value holding exactly `m`.
pub open spec fn is_map_of(r: Value, m: Map<KeyView, Value>) -> bool {
    r matches Value::HashMap(rm) && rm.view() == m
}

/// The elements of a set value; nothing for other values.
pub open spec fn set_view(v: Value) -> Set<KeyView> {
    match v {
        Value::HashSet(s) => s.view(),
        _ => Set::empty(),
    }
}

/// An empty map value.
pub fn clorus_map_empty() -> (r: Value)
    ensures
        is_map_of(r, Map::empty()),
{
    Value::HashMap(HashTrieMap::empty())
}

/// The map an update starts from: the map itself, or an empty one for a
/// value that is not a map.
fn map_or_empty(v: &Value) -> (r: HashTrieMap<Value>)
    ensures
        r.view() == map_view(*v),
{
    match v {
        Value::HashMap(m) => m.share(),
        _ => HashTrieMap::empty(),
    }
}

/// `(assoc m k v)`: `m` (or an empty map when `m` is not a map) with `k`
/// mapped to `v`; `m` itself is unchanged.
pub fn clorus_map_assoc(m: &Value, key: &Value, val: Value) -> (r: Value)
    requires
        key.spec_as_key() is Some,
        map_view(*m).len() < u64::MAX,
    ensures
        is_map_of(r, map_view(*m).insert(key.spec_as_key()->0, val)),
{
    let base = map_or_empty(m);
    let _ = base.count();
    match key.as_key() {
        Some(k) => Value::HashMap(base.assoc(k, val)),
        None => Value::HashMap(base),
    }
}

/// `(get m k)` on a map: the value of a key; nil when absent or
/// when `m` is not a map.
pub fn clorus_map_get(m: &Value, key: &Value) -> (r: Value)
    ensures
        r == if m is HashMap {
            spec_get(*m, *key)
        } else {
            Value::Nil
        },
{
    match m {
        Value::HashMap(_) => clorus_get(m, key),
        _ => Value::Nil,
    }
}

/// The number of entries of a map; 0 for other values.
pub fn clorus_map_count(m: &Value) -> (r: u64)
    ensures
        r == map_view(*m).len(),
{
    match m {
        Value::HashMap(t) => t.count(),
        _ => {
            proof {
                assert(map_view(*m) =~= Map::<KeyView, Value>::empty());
            }
            0
        },
    }
}

/// An empty set value.
pub fn clorus_set_empty() -> (r: Value)
    ensures
        r matches Value::HashSet(s) && s.view() == Set::<KeyView>::empty(),
{
    Value::HashSet(HashTrieSet::empty())
}

/// `(conj s x)` on a set: a new set with the key `x` added; nil when
/// `s` is not a set.
pub fn clorus_set_conj(s: &Value, x: &Value) -> (r: Value)
    requires
        x.spec_as_key() is Some,
        set_view(*s).len() < u64::MAX,
    ensures
        s is HashSet ==> (r matches Value::HashSet(r2) && r2.view() == set_view(*s).insert(
            x.spec_as_key()->0,
        )),
        !(s is HashSet) ==> r == Value::Nil,
{
    match s {
        Value::HashSet(t) => match x.as_key() {
            Some(k) => Value::HashSet(t.conj(k)),
            None => Value::Nil,
        },
        _ => Value::Nil,
    }
}

/// `(disj s x)` on a set: a new set without `x`; nil when `s` is not a
/// set.
pub fn clorus_set_disj(s: &Value, x: &Value) -> (r: Value)
    ensures
        s is HashSet ==> (r matches Value::HashSet(r2) && r2.view() == match x.spec_as_key() {
            Some(k) => set_view(*s).remove(k),
            None => set_view(*s),
        }),
        !(s is HashSet) ==> r == Value::Nil,
{
    match s {
        Value::HashSet(t) => match x.as_key() {
            Some(k) => Value::HashSet(t.disj(&k)),
            None => Value::HashSet(t.share()),
        },
        _ => Value::Nil,
    }
}

/// `(contains? s x)` on a set, as a boolean value.
pub fn clorus_set_contains(s: &Value, x: &Value) -> (r: Value)
    ensures
        r == Value::Bool(s is HashSet && spec_contains(*s, *x)),
{
    match s {
        Value::HashSet(_) => Value::Bool(clorus_contains(s, x)),
        _ => Value::Bool(false),
    }
}

/// The number of elements of a set; 0 for other values.
pub fn clorus_set_count(s: &Value) -> (r: u64)
    ensures
        r == set_view(*s).len(),
{
    match s {
        Value::HashSet(t) => t.count(),
        _ => {
            proof {
                assert(set_view(*s) =~= Set::<KeyView>::empty());
            }
            0
        },
    }
}

/// An empty list value.
pub fn clorus_list_empty() -> (r: Value)
    ensures
        r matches Value::List(l) && l.view().len() == 0,
{
    Value::List(PersistentList::empty())
}

/// `(cons x l)`: a new list with `x` in front of the list's elements.
pub fn clorus_list_cons(l: &Value, x: Value) -> (r: Value)
    requires
        l is List,
    ensures
        r matches Value::List(l2) && l2.view() == seq![x] + spec_items(*l),
{
    match l {
        Value::List(t) => Value::List(t.cons(x)),
        _ => Value::List(PersistentList::empty()),
    }
}

/// The first element of a list; nil when it is empty.
pub fn clorus_list_first(l: &Value) -> (r: Value)
    requires
        l is List,
    ensures
        r == if spec_items(*l).len() > 0 {
            spec_items(*l)[0]
        } else {
            Value::Nil
        },
{
    match l {
        Value::List(t) => match t.first() {
            Some(v) => v.copy(),
            None => Value::Nil,
        },
        _ => Value::Nil,
    }
}

/// The list of all elements but the first, sharing its nodes.
pub fn clorus_list_rest(l: &Value) -> (r: Value)
    requires
        l is List,
    ensures
        r matches Value::List(l2) && l2.view() == if spec_items(*l).len() == 0 {
            Seq::<Value>::empty()
        } else {
            spec_items(*l).drop_first()
        },
{
    match l {
        Value::List(t) => Value::List(t.rest()),
        _ => Value::List(PersistentList::empty()),
    }
}

/// The number of elements of a list.
pub fn clorus_list_count(l: &Value) -> (r: u64)
    requires
        l is List,
        spec_items(*l).len() <= u64::MAX,
    ensures
        r == spec_items(*l).len(),
{
    match l {
        Value::List(t) => t.count(),
        _ => 0,
    }
}

/// `(dissoc m k)`: a new map without the entry of `k`; a value that is
/// not a map is given back as it is.
pub fn clorus_map_dissoc(m: &Value, key: &Value) -> (r: Value)
    ensures
        m is HashMap ==> is_map_of(
            r,
            match key.spec_as_key() {
                Some(k) => map_view(*m).remove(k),
                None => map_view(*m),
            },
        ),
        !(m is HashMap) ==> r == *m,
{
    match m {
        Value::HashMap(t) => match key.as_key() {
            Some(k) => Value::HashMap(t.dissoc(&k)),
            None => Value::HashMap(t.share()),
        },
        _ => m.copy(),
    }
}

/// The keys of a map value in the order in which it holds them.
pub open spec fn key_order_of(m: Value) -> Seq<KeyView> {
    match m {
        Value::HashMap(t) => t.key_order(),
        _ => Seq::empty(),
    }
}

/// The order lists each key of the map exactly once.
pub open spec fn lists_keys_once(m: Map<KeyView, Value>, ks: Seq<KeyView>) -> bool {
    &&& ks.no_duplicates()
    &&& forall|k: KeyView| m.contains_key(k) <==> ks.contains(k)
}

/// The entries of a trie list its keys once each, in its key order.
pub(crate) fn ordered_entries(t: &HashTrieMap<Value>) -> (r: Vec<Rc<MapEntry<Value>>>)
    ensures
        r@.len() == t.key_order().len(),
        forall|j: int| 0 <= j < r@.len() ==> (#[trigger] r@[j]).key@ == t.key_order()[j],
        forall|j: int|
            0 <= j < r@.len() ==> t.view().contains_key((#[trigger] r@[j]).key@) && t.view()[r@[j].key@]
                == r@[j].val,
        lists_keys_once(t.view(), t.key_order()),
{
    let es = t.entries();
    proof {
        let ks = t.key_order();
        assert forall|a: int, b: int| 0 <= a < ks.len() && 0 <= b < ks.len() && a != b implies ks[a] != ks[b] by {
            assert(es@[a].key@ != es@[b].key@);
        }
        assert forall|k: KeyView| t.view().contains_key(k) <==> ks.contains(k) by {
            if t.view().contains_key(k) {
                let j = choose|j: int| 0 <= j < es@.len() && (#[trigger] es@[j]).key@ == k;
                assert(ks[j] == k);
            }
            if ks.contains(k) {
                let j = choose|j: int| 0 <= j < ks.len() && ks[j] == k;
                assert(es@[j].key@ == k);
            }
        }
    }
    es
}

/// `(keys m)`: a vector of the keys, in the map's order; empty for other
/// values.
pub fn clorus_map_keys(m: &Value) -> (r: Value)
    ensures
        lists_keys_once(map_view(*m), key_order_of(*m)),
        r matches Value::Vector(xs) && xs@.len() == key_order_of(*m).len() && forall|i: int|
            0 <= i < xs@.len() ==> (#[trigger] xs@[i]).spec_as_key() == Some(key_order_of(*m)[i]),
{
    match m {
        Value::HashMap(t) => {
            let es = ordered_entries(t);
            let mut out: Vec<Value> = Vec::new();
            let mut i: usize = 0;
            while i < es.len()
                invariant
                    i <= es@.len(),
                    es@.len() == t.key_order().len(),
                    forall|j: int| 0 <= j < es@.len() ==> (#[trigger] es@[j]).key@ == t.key_order()[j],
                    out@.len() == i,
                    forall|j: int| 0 <= j < i ==> (#[trigger] out@[j]).spec_as_key() == Some(t.key_order()[j]),
                decreases es.len() - i,
            {
                out.push(Value::from_key(&es[i].key));
                i += 1;
            }
            Value::Vector(Rc::new(out))
        },
        _ => Value::Vector(Rc::new(Vec::new())),
    }
}

/// `(vals m)`: a vector of the values, in the order of `keys`; empty for
/// other values.
pub fn clorus_map_vals(m: &Value) -> (r: Value)
    ensures
        lists_keys_once(map_view(*m), key_order_of(*m)),
        r matches Value::Vector(xs) && xs@.len() == key_order_of(*m).len() && forall|i: int|
            0 <= i < xs@.len() ==> #[trigger] xs@[i] == map_view(*m)[key_order_of(*m)[i]],
{
    match m {
        Value::HashMap(t) => {
            let es = ordered_entries(t);
            let mut out: Vec<Value> = Vec::new();
            let mut i: usize = 0;
            while i < es.len()
                invariant
                    i <= es@.len(),
                    es@.len() == t.key_order().len(),
                    forall|j: int| 0 <= j < es@.len() ==> (#[trigger] es@[j]).key@ == t.key_order()[j],
                    forall|j: int|
                        0 <= j < es@.len() ==> t.view().contains_key((#[trigger] es@[j]).key@)
                            && t.view()[es@[j].key@] == es@[j].val,
                    out@.len() == i,
                    forall|j: int| 0 <= j < i ==> #[trigger] out@[j] == t.view()[t.key_order()[j]],
                decreases es.len() - i,
            {
                out.push(es[i].val.copy());
                i += 1;
            }
            Value::Vector(Rc::new(out))
        },
        _ => Value::Vector(Rc::new(Vec::new())),
    }
}

/// The maps of `ms` merged left to right: later maps win; values that
/// are not maps add nothing.
pub open spec fn merged(ms: Seq<Value>) -> Map<KeyView, Value>
    decreases ms.len(),
{
    if ms.len() == 0 {
        Map::empty()
    } else {
        merged(ms.drop_last()).union_prefer_right(map_view(ms.last()))
    }
}

/// The number of entries of the maps of `ms`, all together.
pub open spec fn total_entries(ms: Seq<Value>) -> nat
    decreases ms.len(),
{
    if ms.len() == 0 {
        0
    } else {
        total_entries(ms.drop_last()) + map_view(ms.last()).len()
    }
}

/// A map's key order has as many keys as the map.
pub(crate) proof fn lemma_key_order_len(m: Map<KeyView, Value>, ks: Seq<KeyView>)
    requires
        lists_keys_once(m, ks),
    ensures
        ks.len() == m.len(),
{
    ks.unique_seq_to_set();
    assert(ks.to_set() =~= m.dom());
}

/// The part of `t` made of its first `j` entries.
pub open spec fn first_entries(es: Seq<Rc<MapEntry<Value>>>, j: int) -> Map<KeyView, Value> {
    Map::new(
        |k: KeyView| exists|t: int| 0 <= t < j && (#[trigger] es[t]).key@ == k,
        |k: KeyView| es[choose|t: int| 0 <= t < j && (#[trigger] es[t]).key@ == k].val,
    )
}

/// `(merge m1 m2 ...)`, with the maps given as a vector: one map with the
/// entries of all of them, later ones winning; an empty map when not given
/// a vector.
pub fn clorus_map_merge(maps: &Value) -> (r: Value)
    requires
        maps matches Value::Vector(ms) ==> total_entries(ms@) < u64::MAX,
    ensures
        is_map_of(
            r,
            match *maps {
                Value::Vector(ms) => merged(ms@),
                _ => Map::empty(),
            },
        ),
{
    match maps {
        Value::Vector(ms) => {
            let mut acc: HashTrieMap<Value> = HashTrieMap::empty();
            let mut i: usize = 0;
            proof {
                assert(merged(ms@.subrange(0, 0)) =~= Map::<KeyView, Value>::empty());
            }
            while i < ms.len()
                invariant
                    i <= ms@.len(),
                    total_entries(ms@) < u64::MAX,
                    acc.view() == merged(ms@.subrange(0, i as int)),
                    acc.view().dom().finite(),
                    acc.view().len() <= total_entries(ms@.subrange(0, i as int)),
                    total_entries(ms@.subrange(0, i as int)) <= total_entries(ms@),
                decreases ms.len() - i,
            {
                let ghost prefix = ms@.subrange(0, i + 1);
                proof {
                    assert(prefix.drop_last() =~= ms@.subrange(0, i as int));
                    lemma_total_prefix(ms@, i + 1);
                }
                match &ms[i] {
                    Value::HashMap(t) => {
                        let es = ordered_entries(t);
                        let ghost base = acc.view();
                        let ghost tv = t.view();
                        proof {
                            lemma_key_order_len(tv, t.key_order());
                        }
                        let mut j: usize = 0;
                        while j < es.len()
                            invariant
                                j <= es@.len(),
                                es@.len() == tv.len(),
                                forall|q: int| 0 <= q < es@.len() ==> (#[trigger] es@[q]).key@ == t.key_order()[q],
                                forall|q: int|
                                    0 <= q < es@.len() ==> tv.contains_key((#[trigger] es@[q]).key@)
                                        && tv[es@[q].key@] == es@[q].val,
                                t.key_order().no_duplicates(),
                                base.dom().finite(),
                                acc.view() == base.union_prefer_right(first_entries(es@, j as int)),
                                acc.view().dom().finite(),
                                acc.view().len() <= base.len() + j,
                                base.len() + tv.len() < u64::MAX,
                            decreases es.len() - j,
                        {
                            let ghost before = acc.view();
                            let _ = acc.count();
                            acc = acc.assoc_entry(es[j].clone());
                            proof {
                                let e = es@[j as int];
                                assert forall|k: KeyView| #[trigger] first_entries(es@, j + 1).contains_key(k) == (first_entries(es@, j as int).contains_key(k) || k == e.key@) by {
                                    if first_entries(es@, j + 1).contains_key(k) && k != e.key@ {
                                        let q = choose|q: int| 0 <= q < j + 1 && (#[trigger] es@[q]).key@ == k;
                                        assert(q < j);
                                    }
                                    if k == e.key@ {
                                        assert(es@[j as int].key@ == k);
                                    }
                                }
                                assert forall|k: KeyView| #[trigger] first_entries(es@, j + 1).contains_key(k) implies first_entries(es@, j + 1)[k] == tv[k] by {
                                    let q = choose|q: int| 0 <= q < j + 1 && (#[trigger] es@[q]).key@ == k;
                                }
                                assert forall|k: KeyView| #[trigger] first_entries(es@, j as int).contains_key(k) implies first_entries(es@, j as int)[k] == tv[k] by {
                                    let q = choose|q: int| 0 <= q < j && (#[trigger] es@[q]).key@ == k;
                                }
                                assert(acc.view() =~= base.union_prefer_right(first_entries(es@, j + 1)));
                            }
                            j += 1;
                        }
                        proof {
                            assert forall|k: KeyView| #[trigger] first_entries(es@, j as int).contains_key(k) == tv.contains_key(k) by {
                                if tv.contains_key(k) {
                                    assert(t.key_order().contains(k));
                                    let q = choose|q: int| 0 <= q < t.key_order().len() && t.key_order()[q] == k;
                                    assert(es@[q].key@ == k);
                                }
                            }
                            assert forall|k: KeyView| #[trigger] first_entries(es@, j as int).contains_key(k) implies first_entries(es@, j as int)[k] == tv[k] by {
                                let q = choose|q: int| 0 <= q < j && (#[trigger] es@[q]).key@ == k;
                            }
                            assert(first_entries(es@, j as int) =~= tv);
                        }
                    },
                    _ => {
                        proof {
                            assert(map_view(ms@[i as int]) =~= Map::<KeyView, Value>::empty());
                            assert(acc.view() =~= acc.view().union_prefer_right(Map::<KeyView, Value>::empty()));
                        }
                    },
                }
                i += 1;
            }
            proof {
                assert(ms@.subrange(0, ms@.len() as int) =~= ms@);
            }
            Value::HashMap(acc)
        },
        _ => Value::HashMap(HashTrieMap::empty()),
    }
}

/// The entries of a prefix are no more than those of the whole.
proof fn lemma_total_prefix(ms: Seq<Value>, n: int)
    requires
        0 <= n <= ms.len(),
    ensures
        total_entries(ms.subrange(0, n)) <= total_entries(ms),
    decreases ms.len() - n,
{
    if n < ms.len() {
        lemma_total_prefix(ms, n + 1);
        assert(ms.subrange(0, n + 1).drop_last() =~= ms.subrange(0, n));
    } else {
        assert(ms.subrange(0, n) =~= ms);
    }
}

/// The keys of a path: nil is the empty path; a vector or list gives its
/// elements; any other value is no path.
pub open spec fn path_of(keys: Value) -> Option<Seq<Value>> {
    match keys {
        Value::Nil => Some(Seq::empty()),
        Value::Vector(xs) => Some(xs@),
        Value::List(l) => Some(l.view()),
        _ => None,
    }
}

/// Following `path` from `cur`: each key must be present.
pub open spec fn walk(cur: Value, path: Seq<Value>) -> Option<Value>
    decreases path.len(),
{
    if path.len() == 0 {
        Some(cur)
    } else if !spec_contains(cur, path[0]) {
        None
    } else {
        walk(spec_get(cur, path[0]), path.drop_first())
    }
}

/// `(get-in m ks not-found)`.
pub open spec fn spec_get_in_or(m: Value, keys: Value, not_found: Value) -> Value {
    match path_of(keys) {
        None => not_found,
        Some(p) => match walk(m, p) {
            Some(v) => v,
            None => not_found,
        },
    }
}

/// `(get-in m ks not-found)`: the value reached by following the keys
/// from `m`, or `not_found` when a key is missing or `ks` is not a path.
pub fn clorus_map_get_in_or(m: &Value, keys: &Value, not_found: &Value) -> (r: Value)
    ensures
        r == spec_get_in_or(*m, *keys, *not_found),
{
    let path: Vec<&Value> = match keys {
        Value::Nil => Vec::new(),
        Value::Vector(_) => crate::collections::items_of(keys),
        Value::List(_) => crate::collections::items_of(keys),
        _ => {
            return not_found.copy();
        },
    };
    let ghost p = path_of(*keys)->0;
    proof {
        assert(path@.len() == p.len());
    }
    let mut current = m.copy();
    let mut i: usize = 0;
    proof {
        assert(p.skip(0) =~= p);
    }
    while i < path.len()
        invariant
            i <= path@.len(),
            path@.len() == p.len(),
            forall|t: int| 0 <= t < path@.len() ==> *(#[trigger] path@[t]) == p[t],
            walk(*m, p) == walk(current, p.skip(i as int)),
            path_of(*keys) == Some(p),
        decreases path.len() - i,
    {
        proof {
            assert(p.skip(i as int)[0] == p[i as int]);
            assert(p.skip(i as int).drop_first() =~= p.skip(i + 1));
        }
        if !clorus_contains(&current, path[i]) {
            proof {
                assert(*path@[i as int] == p[i as int]);
                assert(walk(current, p.skip(i as int)) is None);
            }
            return not_found.copy();
        }
        current = clorus_get(&current, path[i]);
        i += 1;
    }
    proof {
        assert(p.skip(i as int).len() == 0);
    }
    current
}

/// `(get-in m ks)`: as `get-in` with nil for missing keys.
pub fn clorus_map_get_in(m: &Value, keys: &Value) -> (r: Value)
    ensures
        r == spec_get_in_or(*m, *keys, Value::Nil),
{
    clorus_map_get_in_or(m, keys, &Value::Nil)
}

/// The value stored under `k` in a map value (nil when absent or not a
/// map): where `assoc-in` continues.
pub open spec fn child_of(m: Value, k: Value) -> Value {
    if m is HashMap {
        spec_get(m, k)
    } else {
        Value::Nil
    }
}

/// `assoc-in` along `p` can store every key: each is a key and each
/// map on the way has room for one more entry.
pub open spec fn assoc_in_ok(m: Value, p: Seq<Value>) -> bool
    decreases p.len(),
{
    &&& map_view(m).len() < u64::MAX
    &&& p.len() >= 1 ==> p[0].spec_as_key() is Some
    &&& p.len() >= 2 ==> assoc_in_ok(child_of(m, p[0]), p.drop_first())
}

/// The result of `assoc-in`: a map like `m` (empty when `m` is not a map)
/// where the path leads to `v`, creating maps along the way; the empty
/// path stores `v` under nil.
pub open spec fn assoc_in_result(r: Value, m: Value, p: Seq<Value>, v: Value) -> bool
    decreases p.len(),
{
    if p.len() == 0 {
        is_map_of(r, map_view(m).insert(KeyView::Nil, v))
    } else if p.len() == 1 {
        is_map_of(r, map_view(m).insert(p[0].spec_as_key()->0, v))
    } else {
        let k = p[0].spec_as_key()->0;
        r matches Value::HashMap(rm) && rm.view().dom() == map_view(m).dom().insert(k) && (forall|
            q: KeyView,
        | #[trigger] rm.view().contains_key(q) && q != k ==> rm.view()[q] == map_view(m)[q])
            && assoc_in_result(rm.view()[k], child_of(m, p[0]), p.drop_first(), v)
    }
}

/// `assoc-in` along `path[from..]`.
fn assoc_in_from(m: &Value, path: &Vec<&Value>, from: usize, value: Value) -> (r: Value)
    requires
        from <= path@.len(),
        assoc_in_ok(*m, path@.skip(from as int).map_values(|x: &Value| *x)),
    ensures
        assoc_in_result(r, *m, path@.skip(from as int).map_values(|x: &Value| *x), value),
    decreases path@.len() - from,
{
    let ghost p = path@.skip(from as int).map_values(|x: &Value| *x);
    let base = map_or_empty(m);
    let _ = base.count();
    let n = path.len() - from;
    if n == 0 {
        return Value::HashMap(base.assoc(crate::key::Key::Nil, value));
    }
    let k0 = path[from];
    proof {
        assert(p[0] == *k0);
    }
    let key = match k0.as_key() {
        Some(k) => k,
        None => crate::key::Key::Nil,
    };
    if n == 1 {
        return Value::HashMap(base.assoc(key, value));
    }
    let nested = match m {
        Value::HashMap(_) => clorus_get(m, k0),
        _ => Value::Nil,
    };
    proof {
        assert(p.drop_first() =~= path@.skip(from + 1).map_values(|x: &Value| *x));
        assert(nested == child_of(*m, p[0]));
    }
    let inner = assoc_in_from(&nested, path, from + 1, value);
    let ghost kv = key@;
    let r = Value::HashMap(base.assoc(key, inner));
    proof {
        let ghost rv = r;
        if let Value::HashMap(rm) = rv {
            assert(rm.view().dom() =~= map_view(*m).dom().insert(kv));
        }
    }
    r
}

/// `(assoc-in m ks v)`: `m` with the path of keys leading to `v`, maps
/// created where missing; `m` itself when `ks` is not a path.
pub fn clorus_map_assoc_in(m: &Value, keys: &Value, value: Value) -> (r: Value)
    requires
        path_of(*keys) matches Some(p) ==> assoc_in_ok(*m, p),
    ensures
        match path_of(*keys) {
            Some(p) => assoc_in_result(r, *m, p, value),
            None => r == *m,
        },
{
    let path: Vec<&Value> = match keys {
        Value::Nil => Vec::new(),
        Value::Vector(_) => crate::collections::items_of(keys),
        Value::List(_) => crate::collections::items_of(keys),
        _ => {
            return m.copy();
        },
    };
    proof {
        let p = path_of(*keys)->0;
        assert(path@.skip(0).map_values(|x: &Value| *x) =~= p);
    }
    assoc_in_from(m, &path, 0, value)
}

/// `(update m k f)`: gives back `m` as it is; the function is not applied.
pub fn clorus_map_update(m: &Value, key: &Value, func: &Value) -> (r: Value)
    ensures
        r == *m,
{
    m.copy()
}

/// What `get` finds in a map holding `m`: the value of a key, nil
/// otherwise.
pub open spec fn lookup(m: Map<KeyView, Value>, key: Value) -> Value {
    match key.spec_as_key() {
        Some(k) => if m.contains_key(k) {
            m[k]
        } else {
            Value::Nil
        },
        None => Value::Nil,
    }
}

/// `get` after `assoc` finds the value just stored under its key, and
/// what the map held before under every other key.
pub proof fn law_get_after_assoc(m: Value, key: Value, val: Value, r: Value, other: Value)
    requires
        key.spec_as_key() is Some,
        is_map_of(r, map_view(m).insert(key.spec_as_key()->0, val)),
        other.spec_as_key() != key.spec_as_key(),
    ensures
        spec_get(r, key) == val,
        spec_get(r, other) == lookup(map_view(m), other),
{
}

/// `assoc` on a key that is already present keeps the count; on a new key
/// it adds one.
pub proof fn law_assoc_count(m: Map<KeyView, Value>, k: KeyView, v: Value)
    requires
        m.dom().finite(),
    ensures
        m.contains_key(k) ==> m.insert(k, v).len() == m.len(),
        !m.contains_key(k) ==> m.insert(k, v).len() == m.len() + 1,
{
    if m.contains_key(k) {
        assert(m.insert(k, v).dom() =~= m.dom());
    }
}

/// `get` after `dissoc` of a key finds nothing under it, and the map
/// loses exactly that entry.
pub proof fn law_get_after_dissoc(m: Value, key: Value, r: Value)
    requires
        m is HashMap,
        key.spec_as_key() is Some,
        is_map_of(r, map_view(m).remove(key.spec_as_key()->0)),
    ensures
        spec_get(r, key) == Value::Nil,
        !map_view(r).contains_key(key.spec_as_key()->0),
{
}

/// A set holds what `conj` added and not what `disj` removed.
pub proof fn law_set_conj_disj(s: Set<KeyView>, k: KeyView)
    ensures
        s.insert(k).contains(k),
        !s.remove(k).contains(k),
        s.insert(k).remove(k) == s.remove(k),
{
    assert(s.insert(k).remove(k) =~= s.remove(k));
}

/// The first element of a list that `cons` made is the new element, and
/// its rest is the old list.
pub proof fn law_list_cons_first_rest(l: Seq<Value>, x: Value)
    ensures
        (seq![x] + l)[0] == x,
        (seq![x] + l).drop_first() == l,
{
    assert((seq![x] + l).drop_first() =~= l);
}

} // verus!
