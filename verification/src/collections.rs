//! Operations that work across collections: indexing, first/rest/last,
//! counting, slicing, joining and de-duplicating. Sequential operations
//! accept vectors and lists; results that are new sequences are vectors.

use crate::equality::{deep_eq, equals, value_size};
use crate::list::PersistentList;
use crate::value::{Value, ValueTag};
use std::rc::Rc;
use vstd::prelude::*;

verus! {

/// The elements of a vector or a list, first to last; nothing for any
/// other value.
pub open spec fn spec_items(v: Value) -> Seq<Value> {
    match v {
        Value::Vector(xs) => xs@,
        Value::List(l) => l.view(),
        _ => Seq::empty(),
    }
}

/// The elements of a vector or list, by reference.
pub fn items_of(v: &Value) -> (r: Vec<&Value>)
    ensures
        r@.len() == spec_items(*v).len(),
        forall|i: int| 0 <= i < r@.len() ==> *(#[trigger] r@[i]) == spec_items(*v)[i],
{
    match v {
        Value::Vector(xs) => {
            let mut out: Vec<&Value> = Vec::new();
            let mut i: usize = 0;
            while i < xs.len()
                invariant
                    i <= xs.len(),
                    out@.len() == i,
                    forall|j: int| 0 <= j < i ==> *(#[trigger] out@[j]) == xs@[j],
                decreases xs.len() - i,
            {
                out.push(&xs[i]);
                i += 1;
            }
            out
        },
        Value::List(l) => l.to_vec_refs(),
        _ => Vec::new(),
    }
}

/// A vector value holding copies of the given elements.
pub fn vector_of(items: &Vec<&Value>) -> (r: Value)
    ensures
        r matches Value::Vector(xs) && xs@.len() == items@.len() && forall|i: int|
            0 <= i < items@.len() ==> xs@[i] == *items@[i],
{
    let mut out: Vec<Value> = Vec::new();
    let mut i: usize = 0;
    while i < items.len()
        invariant
            i <= items.len(),
            out@.len() == i,
            forall|j: int| 0 <= j < i ==> out@[j] == *items@[j],
        decreases items.len() - i,
    {
        out.push(items[i].copy());
        i += 1;
    }
    Value::Vector(Rc::new(out))
}

/// A vector value holding the given elements.
pub open spec fn is_vector_of(r: Value, s: Seq<Value>) -> bool {
    r matches Value::Vector(xs) && xs@ == s
}

/// The element at `index` of a vector or list; nil when out of range or
/// for other values.
pub open spec fn spec_nth(coll: Value, index: int) -> Value {
    if 0 <= index < spec_items(coll).len() && (coll is Vector || coll is List) {
        spec_items(coll)[index]
    } else {
        Value::Nil
    }
}

/// Element at `index` of a vector or list (nil when out of range or for
/// other values).
pub fn clorus_nth(coll: &Value, index: i64) -> (r: Value)
    ensures
        r == spec_nth(*coll, index as int),
{
    if index < 0 {
        return Value::Nil;
    }
    match coll {
        Value::Vector(xs) => {
            if (index as u64) < (xs.len() as u64) {
                xs[index as usize].copy()
            } else {
                Value::Nil
            }
        },
        Value::List(l) => {
            let items = l.to_vec_refs();
            if (index as u64) < (items.len() as u64) {
                items[index as usize].copy()
            } else {
                Value::Nil
            }
        },
        _ => Value::Nil,
    }
}

/// `(nth list index)` on a list, walking it: the element at `index`, or
/// nil when the index is negative or past the end.
pub fn clorus_list_nth(list: &PersistentList, index: i64) -> (r: Value)
    ensures
        r == if 0 <= index < list.view().len() {
            list.view()[index as int]
        } else {
            Value::Nil
        },
{
    if index < 0 {
        return Value::Nil;
    }
    let mut current = list.share();
    let mut i: i64 = 0;
    while i < index
        invariant
            0 <= i <= index,
            current.view() == if i <= list.view().len() {
                list.view().skip(i as int)
            } else {
                Seq::<Value>::empty()
            },
        decreases index - i,
    {
        if current.is_empty() {
            return Value::Nil;
        }
        let next = current.rest();
        proof {
            assert(list.view().skip(i as int).drop_first() =~= list.view().skip(i + 1));
        }
        current = next;
        i += 1;
    }
    match current.first() {
        Some(v) => v.copy(),
        None => Value::Nil,
    }
}

/// The first element of a vector or list (nil when empty or for other
/// values).
pub fn clorus_first(coll: &Value) -> (r: Value)
    ensures
        r == spec_nth(*coll, 0),
{
    clorus_nth(coll, 0)
}

/// The last element of a vector or list (nil when empty or for other
/// values).
pub fn clorus_last(coll: &Value) -> (r: Value)
    ensures
        r == spec_nth(*coll, spec_items(*coll).len() - 1),
{
    let items = items_of(coll);
    if items.len() == 0 {
        Value::Nil
    } else {
        items[items.len() - 1].copy()
    }
}

/// All elements but the first: for a list, the list that shares its
/// tail; for a vector of two or more elements, a new vector; otherwise
/// the empty list.
pub fn clorus_rest(coll: &Value) -> (r: Value)
    ensures
        match *coll {
            Value::List(l) => r matches Value::List(l2) && l2.view() == if l.view().len() == 0 {
                Seq::<Value>::empty()
            } else {
                l.view().drop_first()
            },
            Value::Vector(xs) => if xs@.len() <= 1 {
                r matches Value::List(l2) && l2.view().len() == 0
            } else {
                is_vector_of(r, xs@.drop_first())
            },
            _ => r matches Value::List(l2) && l2.view().len() == 0,
        },
{
    match coll {
        Value::List(l) => Value::List(l.rest()),
        Value::Vector(xs) => {
            if xs.len() <= 1 {
                Value::List(PersistentList::empty())
            } else {
                let mut out: Vec<Value> = Vec::new();
                let mut i: usize = 1;
                while i < xs.len()
                    invariant
                        1 <= i <= xs.len(),
                        out@ == xs@.subrange(1, i as int),
                    decreases xs.len() - i,
                {
                    out.push(xs[i].copy());
                    proof {
                        assert(out@ =~= xs@.subrange(1, i + 1));
                    }
                    i += 1;
                }
                proof {
                    assert(out@ =~= xs@.drop_first());
                }
                Value::Vector(Rc::new(out))
            }
        },
        _ => Value::List(PersistentList::empty()),
    }
}

/// The count of a value: elements of a vector, list, map or set; bytes of
/// a string (UTF-8); 0 for anything else.
pub open spec fn spec_count(v: Value) -> int {
    match v {
        Value::Vector(xs) => xs@.len() as int,
        Value::List(l) => l.view().len() as int,
        Value::HashMap(m) => m.view().len() as int,
        Value::HashSet(s) => s.view().len() as int,
        Value::Str(s) => vstd::utf8::encode_utf8(s@).len() as int,
        _ => 0,
    }
}

/// The count of a value: elements of a vector, list, map or set; bytes of
/// a string; 0 for anything else.
pub fn clorus_count(v: &Value) -> (r: i64)
    requires
        spec_count(*v) <= i64::MAX,
        spec_count(*v) <= usize::MAX,
    ensures
        r == spec_count(*v),
{
    match v {
        Value::Vector(xs) => {
            let n: usize = xs.len();
            n as i64
        },
        Value::List(l) => {
            let n = l.count();
            n as i64
        },
        Value::HashMap(m) => {
            let n = m.count();
            n as i64
        },
        Value::HashSet(s) => {
            let n = s.count();
            n as i64
        },
        Value::Str(s) => {
            let t: &str = s.as_str();
            let n: usize = t.len();
            n as i64
        },
        _ => 0,
    }
}

/// `(get coll key)`: a map's value for a key (a scalar or an identity), a vector's element
/// at an integer index; nil when absent and for other collections.
pub open spec fn spec_get(coll: Value, key: Value) -> Value {
    match coll {
        Value::HashMap(m) => match key.spec_as_key() {
            Some(k) => if m.view().contains_key(k) {
                m.view()[k]
            } else {
                Value::Nil
            },
            None => Value::Nil,
        },
        Value::Vector(xs) => match key {
            Value::Long(i) => if 0 <= i < xs@.len() {
                xs@[i as int]
            } else {
                Value::Nil
            },
            _ => Value::Nil,
        },
        _ => Value::Nil,
    }
}

/// `(get coll key)`.
pub fn clorus_get(coll: &Value, key: &Value) -> (r: Value)
    ensures
        r == spec_get(*coll, *key),
{
    match coll {
        Value::HashMap(m) => match key.as_key() {
            Some(k) => match m.get(&k) {
                Some(v) => v.copy(),
                None => Value::Nil,
            },
            None => Value::Nil,
        },
        Value::Vector(xs) => match key {
            Value::Long(i) => {
                if *i >= 0 && (*i as u64) < (xs.len() as u64) {
                    xs[*i as usize].copy()
                } else {
                    Value::Nil
                }
            },
            _ => Value::Nil,
        },
        _ => Value::Nil,
    }
}

/// Whether `key` is present in `coll`: a map's key, a vector's
/// index, a set's element; false for anything else.
pub open spec fn spec_contains(coll: Value, key: Value) -> bool {
    match coll {
        Value::HashMap(m) => key.spec_as_key() matches Some(k) && m.view().contains_key(k),
        Value::HashSet(s) => key.spec_as_key() matches Some(k) && s.view().contains(k),
        Value::Vector(xs) => key matches Value::Long(i) && 0 <= i < xs@.len(),
        _ => false,
    }
}

/// `(contains? coll key)`.
pub fn clorus_contains(coll: &Value, key: &Value) -> (r: bool)
    ensures
        r == spec_contains(*coll, *key),
{
    match coll {
        Value::HashMap(m) => match key.as_key() {
            Some(k) => m.contains_key(&k),
            None => false,
        },
        Value::HashSet(s) => match key.as_key() {
            Some(k) => s.contains(&k),
            None => false,
        },
        Value::Vector(xs) => match key {
            Value::Long(i) => *i >= 0 && (*i as u64) < (xs.len() as u64),
            _ => false,
        },
        _ => false,
    }
}

/// A vector holding copies of `items[from..to]`.
fn vector_of_range(items: &Vec<&Value>, from: usize, to: usize) -> (r: Value)
    requires
        from <= to <= items@.len(),
    ensures
        r matches Value::Vector(xs) && xs@.len() == to - from && forall|i: int|
            0 <= i < to - from ==> xs@[i] == *items@[from + i],
{
    let mut out: Vec<Value> = Vec::new();
    let mut i: usize = from;
    while i < to
        invariant
            from <= i <= to <= items@.len(),
            out@.len() == i - from,
            forall|j: int| 0 <= j < i - from ==> out@[j] == *items@[from + j],
        decreases to - i,
    {
        out.push(items[i].copy());
        i += 1;
    }
    Value::Vector(Rc::new(out))
}

/// `(take n coll)`: a vector of the first `n` elements of a vector or
/// list (all of them when fewer); empty for `n <= 0` and other values.
pub fn clorus_take(coll: &Value, n: i64) -> (r: Value)
    ensures
        is_vector_of(
            r,
            if n <= 0 {
                Seq::<Value>::empty()
            } else if n < spec_items(*coll).len() {
                spec_items(*coll).take(n as int)
            } else {
                spec_items(*coll)
            },
        ),
{
    let items = items_of(coll);
    let k: usize = if n <= 0 {
        0
    } else if (n as u64) < (items.len() as u64) {
        n as usize
    } else {
        items.len()
    };
    let r = vector_of_range(&items, 0, k);
    proof {
        let ghost rv = r;
        if let Value::Vector(xs) = rv {
            let want = if n <= 0 {
                Seq::<Value>::empty()
            } else if n < spec_items(*coll).len() {
                spec_items(*coll).take(n as int)
            } else {
                spec_items(*coll)
            };
            assert(xs@ =~= want);
        }
    }
    r
}

/// `(drop n coll)`: `coll` itself for `n <= 0`; otherwise a vector of the
/// elements of a vector or list after the first `n` (empty for other
/// values).
pub fn clorus_drop(coll: &Value, n: i64) -> (r: Value)
    ensures
        n <= 0 ==> r == *coll,
        n > 0 ==> is_vector_of(
            r,
            if n < spec_items(*coll).len() {
                spec_items(*coll).skip(n as int)
            } else {
                Seq::<Value>::empty()
            },
        ),
{
    if n <= 0 {
        return coll.copy();
    }
    let items = items_of(coll);
    let k: usize = if (n as u64) < (items.len() as u64) {
        n as usize
    } else {
        items.len()
    };
    let r = vector_of_range(&items, k, items.len());
    proof {
        let ghost rv = r;
        if let Value::Vector(xs) = rv {
            let want = if n < spec_items(*coll).len() {
                spec_items(*coll).skip(n as int)
            } else {
                Seq::<Value>::empty()
            };
            assert(xs@ =~= want);
        }
    }
    r
}

/// The result of `conj`, described by its contents.
pub open spec fn conj_result(r: Value, coll: Value, x: Value) -> bool {
    match coll {
        Value::Vector(xs) => is_vector_of(r, xs@.push(x)),
        Value::List(l) => r matches Value::List(l2) && l2.view() == seq![x] + l.view(),
        Value::HashSet(s) => r matches Value::HashSet(s2) && s2.view() == s.view().insert(
            x.spec_as_key()->0,
        ),
        _ => r == Value::Nil,
    }
}

/// `(conj coll x)`. A set takes keys only: scalars and identities.
pub fn clorus_conj(coll: &Value, x: Value) -> (r: Value)
    requires
        coll is HashSet ==> x.spec_as_key() is Some,
        coll matches Value::HashSet(s) ==> s.view().len() < u64::MAX,
    ensures
        conj_result(r, *coll, x),
{
    match coll {
        Value::Vector(xs) => {
            let mut out: Vec<Value> = Vec::new();
            let mut i: usize = 0;
            while i < xs.len()
                invariant
                    i <= xs@.len(),
                    out@ == xs@.subrange(0, i as int),
                decreases xs.len() - i,
            {
                out.push(xs[i].copy());
                proof {
                    assert(out@ =~= xs@.subrange(0, i + 1));
                }
                i += 1;
            }
            let ghost xv = x;
            out.push(x);
            proof {
                assert(out@ =~= xs@.push(xv));
            }
            Value::Vector(Rc::new(out))
        },
        Value::List(l) => Value::List(l.cons(x)),
        Value::HashSet(s) => match x.as_key() {
            Some(k) => Value::HashSet(s.conj(k)),
            None => Value::Nil,
        },
        _ => Value::Nil,
    }
}

/// The elements of the vectors and lists of `cs`, in order; other values
/// add nothing.
pub open spec fn concat_items(cs: Seq<Value>) -> Seq<Value>
    decreases cs.len(),
{
    if cs.len() == 0 {
        Seq::empty()
    } else {
        concat_items(cs.drop_last()) + spec_items(cs.last())
    }
}

/// `(concat c1 c2 ...)`, with the collections given as a vector: a vector
/// of all their elements in order; empty when not given a vector.
pub fn clorus_concat(colls: &Value) -> (r: Value)
    ensures
        is_vector_of(
            r,
            match *colls {
                Value::Vector(cs) => concat_items(cs@),
                _ => Seq::<Value>::empty(),
            },
        ),
{
    match colls {
        Value::Vector(cs) => {
            let mut out: Vec<Value> = Vec::new();
            let mut i: usize = 0;
            while i < cs.len()
                invariant
                    i <= cs@.len(),
                    out@ == concat_items(cs@.subrange(0, i as int)),
                decreases cs.len() - i,
            {
                let items = items_of(&cs[i]);
                let ghost before = out@;
                let mut j: usize = 0;
                while j < items.len()
                    invariant
                        j <= items@.len(),
                        items@.len() == spec_items(cs@[i as int]).len(),
                        forall|t: int| 0 <= t < items@.len() ==> *(#[trigger] items@[t]) == spec_items(cs@[i as int])[t],
                        out@ == before + spec_items(cs@[i as int]).subrange(0, j as int),
                    decreases items.len() - j,
                {
                    out.push(items[j].copy());
                    proof {
                        assert(out@ =~= before + spec_items(cs@[i as int]).subrange(0, j + 1));
                    }
                    j += 1;
                }
                proof {
                    assert(cs@.subrange(0, i + 1).drop_last() =~= cs@.subrange(0, i as int));
                    assert(spec_items(cs@[i as int]).subrange(0, j as int) =~= spec_items(cs@[i as int]));
                }
                i += 1;
            }
            proof {
                assert(cs@.subrange(0, cs@.len() as int) =~= cs@);
            }
            Value::Vector(Rc::new(out))
        },
        _ => Value::Vector(Rc::new(Vec::new())),
    }
}

/// The elements a sequence operation sees: `count` of them, each the
/// `nth` (nil past the elements of a vector or list, and for other
/// values).
pub open spec fn indexed_items(coll: Value) -> Seq<Value> {
    Seq::new(spec_count(coll) as nat, |i: int| spec_nth(coll, i))
}

/// The `indexed_items` of a value, as copies.
pub(crate) fn indexed_items_of(coll: &Value) -> (r: Vec<Value>)
    requires
        spec_count(*coll) <= i64::MAX,
        spec_count(*coll) <= usize::MAX,
    ensures
        r@ == indexed_items(*coll),
{
    let n = clorus_count(coll);
    let items = items_of(coll);
    let mut out: Vec<Value> = Vec::new();
    let mut i: usize = 0;
    while i < n as usize
        invariant
            n == spec_count(*coll),
            0 <= n,
            items@.len() == spec_items(*coll).len(),
            forall|t: int| 0 <= t < items@.len() ==> *(#[trigger] items@[t]) == spec_items(*coll)[t],
            i <= n,
            out@ == indexed_items(*coll).subrange(0, i as int),
        decreases n - i,
    {
        let e = if i < items.len() && (coll.tag() == ValueTag::Vector || coll.tag() == ValueTag::List) {
            items[i].copy()
        } else {
            Value::Nil
        };
        proof {
            if *coll is Vector || *coll is List {
                assert(spec_items(*coll).len() == spec_count(*coll));
            }
            assert(e == spec_nth(*coll, i as int));
            assert(out@.push(e) =~= indexed_items(*coll).subrange(0, i + 1));
        }
        out.push(e);
        i += 1;
    }
    proof {
        assert(out@ =~= indexed_items(*coll));
    }
    out
}

/// `(interpose sep coll)`: the elements with `sep` between each two.
pub open spec fn interposed(xs: Seq<Value>, sep: Value) -> Seq<Value> {
    if xs.len() == 0 {
        Seq::empty()
    } else {
        Seq::new((2 * xs.len() - 1) as nat, |i: int| if i % 2 == 0 { xs[i / 2] } else { sep })
    }
}

/// `(interpose sep coll)`: a vector of the elements with `sep` between
/// each two.
pub fn clorus_interpose(coll: &Value, sep: &Value) -> (r: Value)
    requires
        spec_count(*coll) <= i64::MAX,
        spec_count(*coll) <= usize::MAX,
    ensures
        is_vector_of(r, interposed(indexed_items(*coll), *sep)),
{
    let xs = indexed_items_of(coll);
    let mut out: Vec<Value> = Vec::new();
    let mut i: usize = 0;
    while i < xs.len()
        invariant
            i <= xs@.len(),
            xs@.len() > 0 ==> out@ == interposed(xs@, *sep).subrange(0, if i == 0 { 0 } else { 2 * i - 1 }),
            xs@.len() == 0 ==> out@.len() == 0,
        decreases xs.len() - i,
    {
        let ghost o = out@;
        if i > 0 {
            out.push(sep.copy());
        }
        out.push(xs[i].copy());
        proof {
            let want = interposed(xs@, *sep);
            assert(out@ =~= want.subrange(0, 2 * i + 1)) by {
                if i > 0 {
                    assert(want[2 * i - 1] == *sep);
                    assert(want[2 * i as int] == xs@[i as int]);
                } else {
                    assert(want[0] == xs@[0]);
                }
            }
        }
        i += 1;
    }
    proof {
        if xs@.len() > 0 {
            assert(out@ =~= interposed(xs@, *sep));
        } else {
            assert(out@ =~= interposed(xs@, *sep));
        }
    }
    Value::Vector(Rc::new(out))
}

/// `(distinct coll)`: each element unless an equal one came before.
pub open spec fn distinct_items(xs: Seq<Value>) -> Seq<Value>
    decreases xs.len(),
{
    if xs.len() == 0 {
        Seq::empty()
    } else {
        let d = distinct_items(xs.drop_last());
        if exists|i: int| 0 <= i < d.len() && deep_eq(#[trigger] d[i], xs.last()) {
            d
        } else {
            d.push(xs.last())
        }
    }
}

/// `(dedupe coll)`: each element unless it equals the last one kept.
pub open spec fn deduped_items(xs: Seq<Value>) -> Seq<Value>
    decreases xs.len(),
{
    if xs.len() == 0 {
        Seq::empty()
    } else {
        let d = deduped_items(xs.drop_last());
        if d.len() > 0 && deep_eq(d.last(), xs.last()) {
            d
        } else {
            d.push(xs.last())
        }
    }
}

/// `(distinct coll)`: a vector of the elements, each first occurrence of
/// equal ones only.
pub fn clorus_distinct(coll: &Value) -> (r: Value)
    requires
        spec_count(*coll) <= i64::MAX,
        spec_count(*coll) <= usize::MAX,
    ensures
        is_vector_of(r, distinct_items(indexed_items(*coll))),
{
    let xs = indexed_items_of(coll);
    let mut out: Vec<Value> = Vec::new();
    let mut i: usize = 0;
    while i < xs.len()
        invariant
            i <= xs@.len(),
            out@ == distinct_items(xs@.subrange(0, i as int)),
        decreases xs.len() - i,
    {
        let mut seen = false;
        let mut j: usize = 0;
        while j < out.len()
            invariant
                i < xs@.len(),
                out@ == distinct_items(xs@.subrange(0, i as int)),
                j <= out@.len(),
                seen == exists|t: int| 0 <= t < j && deep_eq(#[trigger] out@[t], xs@[i as int]),
            decreases out.len() - j,
        {
            if equals(&out[j], &xs[i]) {
                seen = true;
            }
            j += 1;
        }
        proof {
            assert(xs@.subrange(0, i + 1).drop_last() =~= xs@.subrange(0, i as int));
            assert(xs@.subrange(0, i + 1).last() == xs@[i as int]);
        }
        if !seen {
            out.push(xs[i].copy());
        }
        i += 1;
    }
    proof {
        assert(xs@.subrange(0, xs@.len() as int) =~= xs@);
    }
    Value::Vector(Rc::new(out))
}

/// `(dedupe coll)`: a vector of the elements without consecutive repeats.
pub fn clorus_dedupe(coll: &Value) -> (r: Value)
    requires
        spec_count(*coll) <= i64::MAX,
        spec_count(*coll) <= usize::MAX,
    ensures
        is_vector_of(r, deduped_items(indexed_items(*coll))),
{
    let xs = indexed_items_of(coll);
    let mut out: Vec<Value> = Vec::new();
    let mut i: usize = 0;
    while i < xs.len()
        invariant
            i <= xs@.len(),
            out@ == deduped_items(xs@.subrange(0, i as int)),
        decreases xs.len() - i,
    {
        proof {
            assert(xs@.subrange(0, i + 1).drop_last() =~= xs@.subrange(0, i as int));
            assert(xs@.subrange(0, i + 1).last() == xs@[i as int]);
        }
        let add = if out.len() == 0 {
            true
        } else {
            !equals(&out[out.len() - 1], &xs[i])
        };
        if add {
            out.push(xs[i].copy());
        }
        i += 1;
    }
    proof {
        assert(xs@.subrange(0, xs@.len() as int) =~= xs@);
    }
    Value::Vector(Rc::new(out))
}

/// For a positive count, what `take` keeps followed by what `drop` keeps
/// are the elements themselves.
pub proof fn law_take_drop(items: Seq<Value>, n: i64)
    requires
        n > 0,
    ensures
        (if n < items.len() {
            items.take(n as int)
        } else {
            items
        }) + (if n < items.len() {
            items.skip(n as int)
        } else {
            Seq::<Value>::empty()
        }) == items,
{
    if n < items.len() {
        assert(items.take(n as int) + items.skip(n as int) =~= items);
    } else {
        assert(items + Seq::<Value>::empty() =~= items);
    }
}

/// The flattened elements of an element of `v`, guarded so that the
/// definition is well founded.
pub open spec fn part_flat(x: Value, v: Value) -> Seq<Value>
    decreases value_size(v), 0nat,
{
    if value_size(x) < value_size(v) {
        flat(x)
    } else {
        Seq::empty()
    }
}

/// The flattened elements of the first `n` elements of a vector or list.
pub open spec fn flat_prefix(v: Value, n: nat) -> Seq<Value>
    decreases value_size(v), 1nat, n,
{
    if n == 0 || n > spec_items(v).len() {
        Seq::empty()
    } else {
        flat_prefix(v, (n - 1) as nat) + part_flat(spec_items(v)[n - 1], v)
    }
}

/// `(flatten v)`: the non-sequential values inside nested vectors and
/// lists, in order; any other value is its own flattening.
pub open spec fn flat(v: Value) -> Seq<Value>
    decreases value_size(v), 2nat,
{
    if v is Vector || v is List {
        flat_prefix(v, spec_items(v).len())
    } else {
        seq![v]
    }
}

/// An element of a vector or list is smaller than it.
proof fn lemma_item_smaller(v: Value, i: int)
    requires
        v is Vector || v is List,
        0 <= i < spec_items(v).len(),
    ensures
        value_size(spec_items(v)[i]) < value_size(v),
{
    match v {
        Value::Vector(xs) => crate::equality::lemma_vector_elem_smaller(&xs, i),
        Value::List(l) => crate::equality::lemma_list_elem_smaller(&l, i),
        _ => {},
    }
}

/// Appends the flattening of `v` to `out`.
fn flatten_into(out: &mut Vec<Value>, v: &Value)
    ensures
        final(out)@ == old(out)@ + flat(*v),
    decreases value_size(*v),
{
    match v {
        Value::Vector(_) | Value::List(_) => {
            let items = items_of(v);
            let ghost o = out@;
            let mut i: usize = 0;
            while i < items.len()
                invariant
                    *v is Vector || *v is List,
                    i <= items@.len(),
                    items@.len() == spec_items(*v).len(),
                    forall|t: int| 0 <= t < items@.len() ==> *(#[trigger] items@[t]) == spec_items(*v)[t],
                    out@ == o + flat_prefix(*v, i as nat),
                decreases items.len() - i,
            {
                proof {
                    lemma_item_smaller(*v, i as int);
                    assert(*items@[i as int] == spec_items(*v)[i as int]);
                }
                let ghost mid = out@;
                flatten_into(out, items[i]);
                proof {
                    let x = spec_items(*v)[i as int];
                    assert(part_flat(x, *v) == flat(x));
                    assert(flat_prefix(*v, (i + 1) as nat) == flat_prefix(*v, i as nat) + part_flat(x, *v));
                    assert(out@ == mid + flat(x));
                    assert(out@ =~= o + flat_prefix(*v, (i + 1) as nat));
                }
                i += 1;
            }
        },
        _ => {
            out.push(v.copy());
        },
    }
}

/// `(flatten coll)`: a vector of the values inside nested vectors and
/// lists, in order.
pub fn clorus_flatten(coll: &Value) -> (r: Value)
    ensures
        is_vector_of(r, flat(*coll)),
{
    let mut out: Vec<Value> = Vec::new();
    flatten_into(&mut out, coll);
    proof {
        assert(out@ =~= flat(*coll));
    }
    Value::Vector(Rc::new(out))
}

/// The non-nil elements at position `idx` of the collections, in order.
pub open spec fn interleave_round(cs: Seq<Value>, idx: int) -> Seq<Value>
    decreases cs.len(),
{
    if cs.len() == 0 {
        Seq::empty()
    } else {
        let before = interleave_round(cs.drop_last(), idx);
        let e = spec_nth(cs.last(), idx);
        if e is Nil {
            before
        } else {
            before.push(e)
        }
    }
}

/// The longest collection's length.
pub open spec fn longest(cs: Seq<Value>) -> nat
    decreases cs.len(),
{
    if cs.len() == 0 {
        0
    } else {
        let m = longest(cs.drop_last());
        if spec_items(cs.last()).len() > m {
            spec_items(cs.last()).len()
        } else {
            m
        }
    }
}

/// The rounds of `interleave` from position `idx` on, until one is empty.
pub open spec fn interleave_from(cs: Seq<Value>, idx: nat) -> Seq<Value>
    decreases longest(cs) - idx,
{
    if idx >= longest(cs) || interleave_round(cs, idx as int).len() == 0 {
        Seq::empty()
    } else {
        interleave_round(cs, idx as int) + interleave_from(cs, idx + 1)
    }
}

/// The element at `idx` of a vector or list, as `nth` gives it.
fn nth_at(coll: &Value, idx: usize) -> (r: Value)
    ensures
        r == spec_nth(*coll, idx as int),
{
    match coll {
        Value::Vector(_) | Value::List(_) => {
            let items = items_of(coll);
            if idx < items.len() {
                items[idx].copy()
            } else {
                Value::Nil
            }
        },
        _ => Value::Nil,
    }
}

/// `(interleave c1 c2 ...)`, with the collections given as a vector: the
/// first elements of each, then the second ones, and so on, skipping nil
/// elements and stopping at the first position where none gives one.
pub fn clorus_interleave(colls: &Value) -> (r: Value)
    ensures
        is_vector_of(
            r,
            match *colls {
                Value::Vector(cs) => interleave_from(cs@, 0),
                _ => Seq::<Value>::empty(),
            },
        ),
{
    match colls {
        Value::Vector(cs) => {
            let mut longest_len: usize = 0;
            let mut j: usize = 0;
            proof {
                assert(cs@.subrange(0, 0) =~= Seq::<Value>::empty());
            }
            while j < cs.len()
                invariant
                    j <= cs@.len(),
                    longest_len == longest(cs@.subrange(0, j as int)),
                decreases cs.len() - j,
            {
                proof {
                    assert(cs@.subrange(0, j + 1).drop_last() =~= cs@.subrange(0, j as int));
                }
                let n = items_of(&cs[j]).len();
                if n > longest_len {
                    longest_len = n;
                }
                j += 1;
            }
            proof {
                assert(cs@.subrange(0, cs@.len() as int) =~= cs@);
            }
            let mut out: Vec<Value> = Vec::new();
            let mut idx: usize = 0;
            loop
                invariant_except_break
                    out@ + interleave_from(cs@, idx as nat) == interleave_from(cs@, 0),
                invariant
                    longest_len == longest(cs@),
                    idx <= longest_len,
                ensures
                    out@ == interleave_from(cs@, 0),
                decreases longest_len - idx,
            {
                if idx >= longest_len {
                    proof {
                        assert(out@ + interleave_from(cs@, idx as nat) =~= out@);
                    }
                    break;
                }
                let mut round: Vec<Value> = Vec::new();
                let mut k: usize = 0;
                proof {
                    assert(cs@.subrange(0, 0) =~= Seq::<Value>::empty());
                }
                while k < cs.len()
                    invariant
                        k <= cs@.len(),
                        round@ == interleave_round(cs@.subrange(0, k as int), idx as int),
                    decreases cs.len() - k,
                {
                    proof {
                        assert(cs@.subrange(0, k + 1).drop_last() =~= cs@.subrange(0, k as int));
                    }
                    let e = nth_at(&cs[k], idx);
                    match e {
                        Value::Nil => {},
                        _ => {
                            round.push(e);
                        },
                    }
                    k += 1;
                }
                proof {
                    assert(cs@.subrange(0, cs@.len() as int) =~= cs@);
                }
                if round.len() == 0 {
                    proof {
                        assert(out@ + interleave_from(cs@, idx as nat) =~= out@);
                    }
                    break;
                }
                let ghost before = out@;
                let mut q: usize = 0;
                while q < round.len()
                    invariant
                        q <= round@.len(),
                        out@ == before + round@.subrange(0, q as int),
                    decreases round.len() - q,
                {
                    out.push(round[q].copy());
                    proof {
                        assert(out@ =~= before + round@.subrange(0, q + 1));
                    }
                    q += 1;
                }
                proof {
                    assert(round@.subrange(0, round@.len() as int) =~= round@);
                    assert(interleave_from(cs@, idx as nat) == round@ + interleave_from(cs@, (idx + 1) as nat));
                    assert(out@ + interleave_from(cs@, (idx + 1) as nat) =~= before + interleave_from(cs@, idx as nat));
                }
                idx += 1;
            }
            Value::Vector(Rc::new(out))
        },
        _ => Value::Vector(Rc::new(Vec::new())),
    }
}

} // verus!
