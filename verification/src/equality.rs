//! Structural equality of values.

use crate::hamt::{
    lemma_member_upto, lemma_upto_member, node_entries, node_entries_upto, opt_entries, MapBucket,
    MapChild, MapEntry, MapNode, BRANCHING,
};
use crate::list::PersistentList;
use crate::list::{nodes_seq, ListNode};
use crate::text::same_text;
use crate::value::Value;
use crate::value_hash::well_formed_value;
use std::rc::Rc;
use vstd::prelude::*;

verus! {

broadcast use vstd::std_specs::vec::axiom_vec_index_decreases;

/// Number of value nodes in a value (the measure that nested comparison
/// descends along).
pub closed spec fn value_size(v: Value) -> nat
    decreases v, 0nat,
{
    match v {
        Value::List(l) => 1 + list_size(l.head),
        Value::Vector(xs) => 1 + vec_size_upto(*xs, xs@.len()),
        Value::HashMap(m) => 1 + trie_size(m.root),
        _ => 1,
    }
}

/// Size of the elements of a list from `n` on.
pub closed spec fn list_size(n: Option<Rc<ListNode>>) -> nat
    decreases n, 0nat,
{
    match n {
        None => 0,
        Some(node) => value_size(node.head) + list_size(node.tail),
    }
}

/// Size of the first `i` elements of a vector.
pub closed spec fn vec_size_upto(xs: Vec<Value>, i: nat) -> nat
    decreases xs, i,
{
    if i == 0 || i > xs@.len() {
        0
    } else {
        vec_size_upto(xs, (i - 1) as nat) + value_size(xs@[i - 1])
    }
}

/// Size of the values stored in a trie.
pub closed spec fn trie_size(r: Option<Rc<MapNode<Value>>>) -> nat
    decreases r, 0nat,
{
    match r {
        None => 0,
        Some(n) => node_size_upto(*n, BRANCHING as nat),
    }
}

/// Size of the values stored under the first `i` slots of a node.
pub closed spec fn node_size_upto(n: MapNode<Value>, i: nat) -> nat
    decreases n, i,
{
    if i == 0 || i > n.children@.len() {
        0
    } else {
        node_size_upto(n, (i - 1) as nat) + child_size(n.children@[i - 1])
    }
}

/// Size of the values stored under a slot.
pub closed spec fn child_size(c: MapChild<Value>) -> nat
    decreases c, 0nat,
{
    match c {
        MapChild::Empty => 0,
        MapChild::Entry(e) => value_size(e.val),
        MapChild::Node(n) => node_size_upto(*n, BRANCHING as nat),
        MapChild::Collision(b) => bucket_size_upto(b.entries, b.entries@.len()),
    }
}

/// Size of the values of the first `i` entries of a bucket.
pub closed spec fn bucket_size_upto(es: Vec<Rc<MapEntry<Value>>>, i: nat) -> nat
    decreases es, i,
{
    if i == 0 || i > es@.len() {
        0
    } else {
        bucket_size_upto(es, (i - 1) as nat) + value_size(es@[i - 1].val)
    }
}

pub(crate) proof fn lemma_vec_elem_size(xs: &Vec<Value>, i: nat, j: int)
    requires
        0 <= j < i <= xs@.len(),
    ensures
        value_size(xs@[j]) <= vec_size_upto(*xs, i),
    decreases i,
{
    if j < i - 1 {
        lemma_vec_elem_size(xs, (i - 1) as nat, j);
    }
}

pub(crate) proof fn lemma_list_elem_size(n: &Option<Rc<ListNode>>, j: int)
    requires
        0 <= j < nodes_seq(*n).len(),
    ensures
        value_size(nodes_seq(*n)[j]) <= list_size(*n),
    decreases *n,
{
    match n {
        None => {},
        Some(node) => {
            if j > 0 {
                assert(nodes_seq(*n)[j] == nodes_seq(node.tail)[j - 1]);
                lemma_list_elem_size(&node.tail, j - 1);
            }
        },
    }
}

proof fn lemma_bucket_elem_size(es: &Vec<Rc<MapEntry<Value>>>, i: nat, j: int)
    requires
        0 <= j < i <= es@.len(),
    ensures
        value_size(es@[j].val) <= bucket_size_upto(*es, i),
    decreases i,
{
    if j < i - 1 {
        lemma_bucket_elem_size(es, (i - 1) as nat, j);
    }
}

proof fn lemma_child_entry_size(c: MapChild<Value>, x: Rc<MapEntry<Value>>)
    requires
        crate::hamt::child_entries(c).contains(x),
    ensures
        value_size(x.val) <= child_size(c),
    decreases c, 0nat,
{
    match c {
        MapChild::Empty => {},
        MapChild::Entry(e) => {
            assert(crate::hamt::child_entries(c)[0] == e);
        },
        MapChild::Node(n) => {
            lemma_node_entry_size(&*n, BRANCHING as nat, x);
        },
        MapChild::Collision(b) => {
            let j = choose|j: int| 0 <= j < b.entries@.len() && b.entries@[j] == x;
            lemma_bucket_elem_size(&b.entries, b.entries@.len(), j);
        },
    }
}

proof fn lemma_node_entry_size(n: &MapNode<Value>, i: nat, x: Rc<MapEntry<Value>>)
    requires
        node_entries_upto(*n, i).contains(x),
    ensures
        value_size(x.val) <= node_size_upto(*n, i),
    decreases *n, i,
{
    if i == 0 || i > n.children@.len() {
    } else {
        let pre = node_entries_upto(*n, (i - 1) as nat);
        let blk = crate::hamt::child_entries(n.children@[i - 1]);
        let j = choose|j: int| 0 <= j < (pre + blk).len() && (pre + blk)[j] == x;
        if j < pre.len() {
            assert(pre[j] == x);
            lemma_node_entry_size(n, (i - 1) as nat, x);
        } else {
            assert(blk[j - pre.len()] == x);
            lemma_child_entry_size(n.children@[i - 1], x);
        }
    }
}

/// A value stored in a map is smaller than the map.
pub(crate) proof fn lemma_map_entry_size(m: crate::hamt::HashTrieMap<Value>, x: Rc<MapEntry<Value>>)
    requires
        opt_entries(m.root).contains(x),
    ensures
        value_size(x.val) < value_size(Value::HashMap(m)),
{
    match m.root {
        None => {},
        Some(n) => {
            lemma_node_entry_size(&*n, BRANCHING as nat, x);
        },
    }
}

/// An element of a vector is smaller than the vector.
pub(crate) proof fn lemma_vector_elem_smaller(xs: &Rc<Vec<Value>>, j: int)
    requires
        0 <= j < xs@.len(),
    ensures
        value_size(xs@[j]) < value_size(Value::Vector(*xs)),
{
    lemma_vec_elem_size(&**xs, xs@.len(), j);
}

/// An element of a list is smaller than the list.
pub(crate) proof fn lemma_list_elem_smaller(l: &PersistentList, j: int)
    requires
        0 <= j < l.view().len(),
    ensures
        value_size(l.view()[j]) < value_size(Value::List(*l)),
{
    lemma_list_elem_size(&l.head, j);
}

/// Structural equality: same kind and equal contents, element by element
/// for lists and vectors, key by key for maps; sets by their elements;
/// identities by tag and identifier.
pub open spec fn deep_eq(a: Value, b: Value) -> bool
    decreases value_size(a),
{
    match a {
        Value::Nil => b is Nil,
        Value::Bool(x) => b matches Value::Bool(y) && x == y,
        Value::Long(x) => b matches Value::Long(y) && x == y,
        Value::Str(x) => b matches Value::Str(y) && x@ == y@,
        Value::Keyword(x) => b matches Value::Keyword(y) && x@ == y@,
        Value::Symbol(x) => b matches Value::Symbol(y) && x@ == y@,
        Value::List(x) => b matches Value::List(y) && x.view().len() == y.view().len() && forall|
            i: int,
        |
            0 <= i < x.view().len() ==> (value_size(#[trigger] x.view()[i]) < value_size(a)
                ==> deep_eq(x.view()[i], y.view()[i])),
        Value::Vector(x) => b matches Value::Vector(y) && x@.len() == y@.len() && forall|i: int|
            0 <= i < x@.len() ==> (value_size(#[trigger] x@[i]) < value_size(a) ==> deep_eq(
                x@[i],
                y@[i],
            )),
        Value::HashMap(x) => b matches Value::HashMap(y) && x.view().dom() == y.view().dom()
            && forall|k: crate::key::KeyView|
            x.view().contains_key(k) ==> (value_size(#[trigger] x.view()[k]) < value_size(a)
                ==> deep_eq(x.view()[k], y.view()[k])),
        Value::HashSet(x) => b matches Value::HashSet(y) && x.view() == y.view(),
        Value::Identity(t, i) => b matches Value::Identity(t2, i2) && t == t2 && i == i2,
    }
}

/// Structural equality of two values.
pub fn equals(a: &Value, b: &Value) -> (r: bool)
    ensures
        r == deep_eq(*a, *b),
    decreases value_size(*a),
{
    match (a, b) {
        (Value::Nil, Value::Nil) => true,
        (Value::Bool(x), Value::Bool(y)) => *x == *y,
        (Value::Long(x), Value::Long(y)) => *x == *y,
        (Value::Str(x), Value::Str(y)) => same_text(x.as_str(), y.as_str()),
        (Value::Keyword(x), Value::Keyword(y)) => same_text(x.as_str(), y.as_str()),
        (Value::Symbol(x), Value::Symbol(y)) => same_text(x.as_str(), y.as_str()),
        (Value::Identity(t1, i1), Value::Identity(t2, i2)) => *t1 == *t2 && *i1 == *i2,
        (Value::Vector(x), Value::Vector(y)) => {
            if x.len() != y.len() {
                return false;
            }
            let mut i: usize = 0;
            while i < x.len()
                invariant
                    i <= x.len(),
                    x.len() == y.len(),
                    *a == Value::Vector(*x),
                    *b == Value::Vector(*y),
                    forall|j: int| 0 <= j < i ==> deep_eq(#[trigger] x@[j], y@[j]),
                decreases x.len() - i,
            {
                proof {
                    lemma_vec_elem_size(&**x, x@.len(), i as int);
                }
                if !equals(&x[i], &y[i]) {
                    proof {
                        assert(value_size(x@[i as int]) < value_size(*a));
                        assert(!deep_eq(x@[i as int], y@[i as int]));
                    }
                    return false;
                }
                i += 1;
            }
            true
        },
        (Value::List(x), Value::List(y)) => {
            let xs = x.to_vec_refs();
            let ys = y.to_vec_refs();
            if xs.len() != ys.len() {
                return false;
            }
            let mut i: usize = 0;
            while i < xs.len()
                invariant
                    i <= xs.len(),
                    xs.len() == ys.len(),
                    xs@.len() == x.view().len(),
                    ys@.len() == y.view().len(),
                    forall|j: int| 0 <= j < xs@.len() ==> *(#[trigger] xs@[j]) == x.view()[j],
                    forall|j: int| 0 <= j < ys@.len() ==> *(#[trigger] ys@[j]) == y.view()[j],
                    *a == Value::List(*x),
                    *b == Value::List(*y),
                    forall|j: int| 0 <= j < i ==> deep_eq(#[trigger] x.view()[j], y.view()[j]),
                decreases xs.len() - i,
            {
                proof {
                    lemma_list_elem_size(&x.head, i as int);
                    assert(*xs@[i as int] == x.view()[i as int]);
                    assert(*ys@[i as int] == y.view()[i as int]);
                }
                if !equals(xs[i], ys[i]) {
                    proof {
                        assert(value_size(x.view()[i as int]) < value_size(*a));
                        assert(!deep_eq(x.view()[i as int], y.view()[i as int]));
                    }
                    return false;
                }
                i += 1;
            }
            true
        },
        (Value::HashMap(x), Value::HashMap(y)) => {
            if x.count() != y.count() {
                return false;
            }
            let es = x.entry_list();
            let mut i: usize = 0;
            while i < es.len()
                invariant
                    i <= es.len(),
                    es@ == opt_entries(x.root),
                    forall|j: int|
                        0 <= j < es@.len() ==> x.view().contains_key((#[trigger] es@[j]).key@)
                            && x.view()[es@[j].key@] == es@[j].val,
                    forall|k: crate::key::KeyView|
                        #[trigger] x.view().contains_key(k) ==> exists|j: int|
                            0 <= j < es@.len() && (#[trigger] es@[j]).key@ == k,
                    *a == Value::HashMap(*x),
                    *b == Value::HashMap(*y),
                    forall|j: int|
                        0 <= j < i ==> y.view().contains_key((#[trigger] es@[j]).key@) && deep_eq(
                            es@[j].val,
                            y.view()[es@[j].key@],
                        ),
                decreases es.len() - i,
            {
                let e = &es[i];
                match y.get(&e.key) {
                    None => {
                        proof {
                            assert(x.view().dom().contains(es@[i as int].key@));
                            assert(x.view().dom() != y.view().dom());
                        }
                        return false;
                    },
                    Some(v2) => {
                        proof {
                            assert(opt_entries(x.root).contains(es@[i as int]));
                            lemma_map_entry_size(*x, es@[i as int]);
                        }
                        if !equals(&e.val, v2) {
                            proof {
                                let k = es@[i as int].key@;
                                assert(value_size(x.view()[k]) < value_size(*a));
                                assert(!deep_eq(x.view()[k], y.view()[k]));
                            }
                            return false;
                        }
                    },
                }
                i += 1;
            }
            proof {
                let dx = x.view().dom();
                let dy = y.view().dom();
                assert(dx.subset_of(dy)) by {
                    assert forall|k: crate::key::KeyView| dx.contains(k) implies dy.contains(k) by {
                        let j = choose|j: int| 0 <= j < es@.len() && (#[trigger] es@[j]).key@ == k;
                    }
                }
                vstd::set_lib::lemma_subset_equality(dx, dy);
                assert forall|k: crate::key::KeyView|
                    x.view().contains_key(k) && value_size(#[trigger] x.view()[k]) < value_size(
                        *a,
                    ) implies deep_eq(x.view()[k], y.view()[k]) by {
                    let j = choose|j: int| 0 <= j < es@.len() && (#[trigger] es@[j]).key@ == k;
                }
            }
            true
        },
        (Value::HashSet(x), Value::HashSet(y)) => {
            if x.count() != y.count() {
                return false;
            }
            let vs = x.values();
            let mut i: usize = 0;
            while i < vs.len()
                invariant
                    i <= vs.len(),
                    forall|j: int| 0 <= j < vs@.len() ==> x.view().contains((#[trigger] vs@[j])@),
                    forall|k: crate::key::KeyView| #[trigger]
                        x.view().contains(k) ==> exists|j: int|
                            0 <= j < vs@.len() && (#[trigger] vs@[j])@ == k,
                    forall|j: int| 0 <= j < i ==> y.view().contains((#[trigger] vs@[j])@),
                    *a == Value::HashSet(*x),
                    *b == Value::HashSet(*y),
                decreases vs.len() - i,
            {
                if !y.contains(&vs[i]) {
                    proof {
                        assert(x.view().contains(vs@[i as int]@));
                        assert(x.view() != y.view());
                    }
                    return false;
                }
                i += 1;
            }
            proof {
                assert(x.view().subset_of(y.view())) by {
                    assert forall|k: crate::key::KeyView| x.view().contains(k) implies y.view().contains(
                        k,
                    ) by {
                        let j = choose|j: int| 0 <= j < vs@.len() && (#[trigger] vs@[j])@ == k;
                    }
                }
                vstd::set_lib::lemma_subset_equality(x.view(), y.view());
            }
            true
        },
        _ => false,
    }
}

/// Every value equals itself.
pub proof fn law_equals_reflexive(v: Value)
    ensures
        deep_eq(v, v),
    decreases value_size(v),
{
    match v {
        Value::List(x) => {
            assert forall|i: int| 0 <= i < x.view().len() implies (value_size(#[trigger] x.view()[i])
                < value_size(v) ==> deep_eq(x.view()[i], x.view()[i])) by {
                if value_size(x.view()[i]) < value_size(v) {
                    law_equals_reflexive(x.view()[i]);
                }
            }
        },
        Value::Vector(x) => {
            assert forall|i: int| 0 <= i < x@.len() implies (value_size(#[trigger] x@[i]) < value_size(v)
                ==> deep_eq(x@[i], x@[i])) by {
                if value_size(x@[i]) < value_size(v) {
                    law_equals_reflexive(x@[i]);
                }
            }
        },
        Value::HashMap(x) => {
            assert forall|k: crate::key::KeyView| x.view().contains_key(k) implies (value_size(
                #[trigger] x.view()[k],
            ) < value_size(v) ==> deep_eq(x.view()[k], x.view()[k])) by {
                if value_size(x.view()[k]) < value_size(v) {
                    law_equals_reflexive(x.view()[k]);
                }
            }
        },
        _ => {},
    }
}


/// A value stored in a well-formed map is smaller than the map.
pub(crate) proof fn lemma_map_value_smaller(m: crate::hamt::HashTrieMap<Value>, k: crate::key::KeyView)
    requires
        m.well_formed(),
        m.view().contains_key(k),
    ensures
        value_size(m.view()[k]) < value_size(Value::HashMap(m)),
{
    crate::hamt::lemma_key_order(m);
    assert(m.key_order().contains(k));
    let j = choose|j: int| 0 <= j < m.key_order().len() && m.key_order()[j] == k;
    assert(0 <= j < opt_entries(m.root).len());
    assert(opt_entries(m.root).contains(opt_entries(m.root)[j]));
    lemma_map_entry_size(m, opt_entries(m.root)[j]);
    assert(m.view()[m.key_order()[j]] == opt_entries(m.root)[j].val);
}

/// Structural equality is symmetric.
pub proof fn law_equals_symmetric(a: Value, b: Value)
    requires
        well_formed_value(a),
        well_formed_value(b),
        deep_eq(a, b),
    ensures
        deep_eq(b, a),
    decreases value_size(a),
{
    match (a, b) {
        (Value::List(x), Value::List(y)) => {
            assert forall|i: int| 0 <= i < y.view().len() implies (value_size(#[trigger] y.view()[i]) < value_size(
                b,
            ) ==> deep_eq(y.view()[i], x.view()[i])) by {
                lemma_list_elem_smaller(&x, i);
                lemma_list_elem_smaller(&y, i);
                law_equals_symmetric(x.view()[i], y.view()[i]);
            }
        },
        (Value::Vector(x), Value::Vector(y)) => {
            assert forall|i: int| 0 <= i < y@.len() implies (value_size(#[trigger] y@[i]) < value_size(b) ==> deep_eq(
                y@[i],
                x@[i],
            )) by {
                lemma_vector_elem_smaller(&x, i);
                lemma_vector_elem_smaller(&y, i);
                law_equals_symmetric(x@[i], y@[i]);
            }
        },
        (Value::HashMap(x), Value::HashMap(y)) => {
            assert forall|k: crate::key::KeyView| y.view().contains_key(k) implies (value_size(
                #[trigger] y.view()[k],
            ) < value_size(b) ==> deep_eq(y.view()[k], x.view()[k])) by {
                assert(x.view().dom().contains(k));
                lemma_map_value_smaller(x, k);
                lemma_map_value_smaller(y, k);
                law_equals_symmetric(x.view()[k], y.view()[k]);
            }
        },
        _ => {},
    }
}

/// Structural equality is transitive.
pub proof fn law_equals_transitive(a: Value, b: Value, c: Value)
    requires
        well_formed_value(a),
        well_formed_value(b),
        well_formed_value(c),
        deep_eq(a, b),
        deep_eq(b, c),
    ensures
        deep_eq(a, c),
    decreases value_size(a),
{
    match (a, b, c) {
        (Value::List(x), Value::List(y), Value::List(z)) => {
            assert forall|i: int| 0 <= i < x.view().len() implies (value_size(#[trigger] x.view()[i]) < value_size(
                a,
            ) ==> deep_eq(x.view()[i], z.view()[i])) by {
                lemma_list_elem_smaller(&x, i);
                lemma_list_elem_smaller(&y, i);
                lemma_list_elem_smaller(&z, i);
                law_equals_transitive(x.view()[i], y.view()[i], z.view()[i]);
            }
        },
        (Value::Vector(x), Value::Vector(y), Value::Vector(z)) => {
            assert forall|i: int| 0 <= i < x@.len() implies (value_size(#[trigger] x@[i]) < value_size(a) ==> deep_eq(
                x@[i],
                z@[i],
            )) by {
                lemma_vector_elem_smaller(&x, i);
                lemma_vector_elem_smaller(&y, i);
                lemma_vector_elem_smaller(&z, i);
                law_equals_transitive(x@[i], y@[i], z@[i]);
            }
        },
        (Value::HashMap(x), Value::HashMap(y), Value::HashMap(z)) => {
            assert forall|k: crate::key::KeyView| x.view().contains_key(k) implies (value_size(
                #[trigger] x.view()[k],
            ) < value_size(a) ==> deep_eq(x.view()[k], z.view()[k])) by {
                assert(y.view().dom().contains(k));
                assert(z.view().dom().contains(k));
                lemma_map_value_smaller(x, k);
                lemma_map_value_smaller(y, k);
                lemma_map_value_smaller(z, k);
                law_equals_transitive(x.view()[k], y.view()[k], z.view()[k]);
            }
        },
        _ => {},
    }
}

} // verus!
