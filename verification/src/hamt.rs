//! Persistent hash map: a hash array mapped trie with 32-way branching
//! (five bits of the key's hash per level) and path copying. Updates return
//! a new map; subtrees that an update does not touch are shared between the
//! old map and the new one.
//!
//! Two keys whose hashes agree at a level split into a deeper branch; when
//! they still agree after all 64 hash bits (13 levels), they share a small
//! linear collision bucket.

use crate::key::{key_hash, Key, KeyView};
use std::rc::Rc;
use vstd::prelude::*;

verus! {

/// Bits of the hash consumed per trie level.
pub const BITS: u32 = 5;

/// Children of each trie node.
pub const BRANCHING: usize = 32;

/// Mask of one level's worth of hash bits.
pub const MASK: u64 = 0x1F;

/// Levels the trie can address before it falls back to a collision bucket.
pub const MAX_LEVELS: u32 = 13;

/// The child slot that `hash` selects at `level`.
pub open spec fn spec_level_index(hash: u64, level: nat) -> nat {
    if level * 5 >= 64 {
        0
    } else {
        ((hash >> ((level * 5) as u64)) & 0x1Fu64) as nat
    }
}

/// A level's slot index is one of the 32 slots.
pub proof fn lemma_level_index_bound(hash: u64, level: nat)
    ensures
        spec_level_index(hash, level) < BRANCHING,
{
    if level * 5 < 64 {
        let sh = (level * 5) as u64;
        assert(((hash >> sh) & 0x1Fu64) <= 0x1Fu64) by (bit_vector);
    }
}

/// The child slot that `hash` selects at `level` (0 once the hash bits are
/// used up).
pub fn level_index(hash: u64, level: u32) -> (r: usize)
    requires
        level <= MAX_LEVELS,
    ensures
        r == spec_level_index(hash, level as nat),
        r < BRANCHING,
{
    let shift: u32 = level * BITS;
    if shift >= 64 {
        return 0;
    }
    let r = (hash >> shift) & MASK;
    proof {
        assert(((hash >> (shift as u64)) & 0x1Fu64) <= 0x1Fu64) by (bit_vector);
    }
    r as usize
}

/// One key/value pair of a map.
pub struct MapEntry<V> {
    pub key: Key,
    pub val: V,
}

/// One slot of a trie node.
pub enum MapChild<V> {
    Empty,
    Entry(Rc<MapEntry<V>>),
    Node(Rc<MapNode<V>>),
    Collision(Rc<MapBucket<V>>),
}

/// An inner trie node: 32 slots.
pub struct MapNode<V> {
    pub children: Vec<MapChild<V>>,
}

/// Entries whose keys share all 64 hash bits.
pub struct MapBucket<V> {
    pub hash: u64,
    pub entries: Vec<Rc<MapEntry<V>>>,
}

/// The value of the first entry of `es` whose key is `k`.
pub open spec fn bucket_find<V>(es: Seq<Rc<MapEntry<V>>>, k: KeyView) -> Option<V>
    decreases es.len(),
{
    if es.len() == 0 {
        None
    } else if es[0].key@ == k {
        Some(es[0].val)
    } else {
        bucket_find(es.drop_first(), k)
    }
}

/// Lookup of `k` in the slot `c` of a node at level `plevel`.
pub open spec fn child_get<V>(c: MapChild<V>, plevel: nat, k: KeyView) -> Option<V>
    decreases c,
{
    match c {
        MapChild::Empty => None,
        MapChild::Entry(e) => if e.key@ == k {
            Some(e.val)
        } else {
            None
        },
        MapChild::Node(n) => node_get(*n, plevel + 1, k),
        MapChild::Collision(b) => bucket_find(b.entries@, k),
    }
}

/// Lookup of `k` in a node at `level`: follow the slot its hash selects.
pub open spec fn node_get<V>(n: MapNode<V>, level: nat, k: KeyView) -> Option<V>
    decreases n,
{
    let i = spec_level_index(key_hash(k), level);
    if i < n.children@.len() {
        child_get(n.children@[i as int], level, k)
    } else {
        None
    }
}


/// Lookup of `k` under an optional root node at `level`.
pub open spec fn opt_node_get<V>(n: Option<Rc<MapNode<V>>>, level: nat, k: KeyView) -> Option<V> {
    match n {
        None => None,
        Some(r) => node_get(*r, level, k),
    }
}

/// Shape of a slot of a node at `plevel`: inner nodes occur only at
/// levels 0 through 12, each with 32 slots.
pub open spec fn wf_child<V>(c: MapChild<V>, plevel: nat) -> bool
    decreases c,
{
    match c {
        MapChild::Node(n) => plevel + 1 < MAX_LEVELS && wf_node(*n, plevel + 1),
        _ => true,
    }
}

/// Shape of a node at `level`.
pub open spec fn wf_node<V>(n: MapNode<V>, level: nat) -> bool
    decreases n,
{
    &&& n.children@.len() == BRANCHING
    &&& forall|i: int| 0 <= i < BRANCHING ==> wf_child(#[trigger] n.children@[i], level)
}

/// The entries stored in a slot, in trie order.
pub open spec fn child_entries<V>(c: MapChild<V>) -> Seq<Rc<MapEntry<V>>>
    decreases c, 0nat,
{
    match c {
        MapChild::Empty => Seq::empty(),
        MapChild::Entry(e) => seq![e],
        MapChild::Node(n) => node_entries_upto(*n, BRANCHING as nat),
        MapChild::Collision(b) => b.entries@,
    }
}

/// The entries stored in the first `i` slots of a node, in trie order.
pub open spec fn node_entries_upto<V>(n: MapNode<V>, i: nat) -> Seq<Rc<MapEntry<V>>>
    decreases n, i,
{
    if i == 0 || i > n.children@.len() {
        Seq::empty()
    } else {
        node_entries_upto(n, (i - 1) as nat) + child_entries(n.children@[i - 1])
    }
}

/// All entries of a node, in trie order.
pub open spec fn node_entries<V>(n: MapNode<V>) -> Seq<Rc<MapEntry<V>>> {
    node_entries_upto(n, BRANCHING as nat)
}

/// Every entry's hash selects slot `i` at `level`.
pub open spec fn keys_at<V>(es: Seq<Rc<MapEntry<V>>>, level: nat, i: nat) -> bool {
    forall|j: int| 0 <= j < es.len() ==> spec_level_index(key_hash((#[trigger] es[j]).key@), level) == i
}

/// No two entries have the same key.
pub open spec fn distinct_keys<V>(es: Seq<Rc<MapEntry<V>>>) -> bool {
    forall|a: int, b: int|
        0 <= a < es.len() && 0 <= b < es.len() && a != b ==> (#[trigger] es[a]).key@ != (#[trigger] es[b]).key@
}

/// Every entry under slot `i` of a node at `plevel` lies on its hash's
/// path, and buckets hold each key once.
pub open spec fn placed_child<V>(c: MapChild<V>, plevel: nat, i: nat) -> bool
    decreases c,
{
    &&& keys_at(child_entries(c), plevel, i)
    &&& match c {
        MapChild::Node(n) => placed_node(*n, plevel + 1),
        MapChild::Collision(b) => distinct_keys(b.entries@),
        _ => true,
    }
}

/// Every entry under a node at `level` lies on its hash's path.
pub open spec fn placed_node<V>(n: MapNode<V>, level: nat) -> bool
    decreases n,
{
    forall|i: int| 0 <= i < n.children@.len() ==> placed_child(#[trigger] n.children@[i], level, i as nat)
}

proof fn lemma_bucket_find_distinct<V>(es: Seq<Rc<MapEntry<V>>>, j: int)
    requires
        distinct_keys(es),
        0 <= j < es.len(),
    ensures
        bucket_find(es, es[j].key@) == Some(es[j].val),
    decreases es.len(),
{
    if j > 0 {
        assert(es[0].key@ != es[j].key@);
        let t = es.drop_first();
        assert(t[j - 1] == es[j]);
        assert forall|a: int, b: int|
            0 <= a < t.len() && 0 <= b < t.len() && a != b implies (#[trigger] t[a]).key@ != (
            #[trigger] t[b]).key@ by {
            assert(t[a] == es[a + 1]);
            assert(t[b] == es[b + 1]);
        }
        lemma_bucket_find_distinct(t, j - 1);
    }
}

proof fn lemma_bucket_find_sound<V>(es: Seq<Rc<MapEntry<V>>>, k: KeyView)
    requires
        bucket_find(es, k) is Some,
    ensures
        exists|j: int|
            0 <= j < es.len() && (#[trigger] es[j]).key@ == k && es[j].val == bucket_find(es, k)->Some_0,
    decreases es.len(),
{
    if es[0].key@ != k {
        lemma_bucket_find_sound(es.drop_first(), k);
        let j = choose|j: int|
            0 <= j < es.drop_first().len() && (#[trigger] es.drop_first()[j]).key@ == k
                && es.drop_first()[j].val == bucket_find(es.drop_first(), k)->Some_0;
        assert(es[j + 1] == es.drop_first()[j]);
    } else {
        assert(es[0].key@ == k);
    }
}

/// A lookup that succeeds in a node finds one of the node's entries.
proof fn lemma_node_sound<V>(n: &MapNode<V>, level: nat, k: KeyView)
    requires
        wf_node(*n, level),
        node_get(*n, level, k) is Some,
    ensures
        exists|j: int|
            0 <= j < node_entries(*n).len() && (#[trigger] node_entries(*n)[j]).key@ == k
                && node_entries(*n)[j].val == node_get(*n, level, k)->Some_0,
{
    let b = spec_level_index(key_hash(k), level);
    lemma_level_index_bound(key_hash(k), level);
    let c = n.children@[b as int];
    assert(wf_child(c, level));
    lemma_child_sound(c, level, k);
    let j = choose|j: int|
        0 <= j < child_entries(c).len() && (#[trigger] child_entries(c)[j]).key@ == k
            && child_entries(c)[j].val == child_get(c, level, k)->Some_0;
    let x = child_entries(c)[j];
    assert(child_entries(c).contains(x));
    lemma_member_upto(n, BRANCHING as nat, b as int, x);
    let j2 = choose|j2: int| 0 <= j2 < node_entries(*n).len() && node_entries(*n)[j2] == x;
    assert(node_entries(*n)[j2] == x);
}

/// Where an entry of the first `i` slots comes from.
pub(crate) proof fn lemma_upto_member<V>(n: &MapNode<V>, i: nat, x: Rc<MapEntry<V>>)
    requires
        node_entries_upto(*n, i).contains(x),
    ensures
        exists|b: int|
            0 <= b < i && b < n.children@.len() && child_entries(#[trigger] n.children@[b]).contains(x),
    decreases i,
{
    if i == 0 || i > n.children@.len() {
    } else {
        let pre = node_entries_upto(*n, (i - 1) as nat);
        let blk = child_entries(n.children@[i - 1]);
        let j = choose|j: int| 0 <= j < (pre + blk).len() && (pre + blk)[j] == x;
        if j < pre.len() {
            assert(pre[j] == x);
            lemma_upto_member(n, (i - 1) as nat, x);
        } else {
            assert(blk[j - pre.len()] == x);
            assert(blk.contains(x));
        }
    }
}

/// An entry of slot `b` is an entry of the first `i` slots when `b < i`.
pub(crate) proof fn lemma_member_upto<V>(n: &MapNode<V>, i: nat, b: int, x: Rc<MapEntry<V>>)
    requires
        0 <= b < i <= n.children@.len(),
        child_entries(n.children@[b]).contains(x),
    ensures
        node_entries_upto(*n, i).contains(x),
    decreases i,
{
    let pre = node_entries_upto(*n, (i - 1) as nat);
    let blk = child_entries(n.children@[i - 1]);
    if b == i - 1 {
        let j = choose|j: int| 0 <= j < blk.len() && blk[j] == x;
        assert((pre + blk)[pre.len() + j] == x);
    } else {
        lemma_member_upto(n, (i - 1) as nat, b, x);
        let j = choose|j: int| 0 <= j < pre.len() && pre[j] == x;
        assert((pre + blk)[j] == x);
    }
}

/// Entries of a well-placed slot are findable from the slot, and have
/// distinct keys.
proof fn lemma_child_findable<V>(c: MapChild<V>, plevel: nat, i: nat)
    requires
        placed_child(c, plevel, i),
        wf_child(c, plevel),
    ensures
        distinct_keys(child_entries(c)),
        forall|j: int|
            0 <= j < child_entries(c).len() ==> child_get(c, plevel, (#[trigger] child_entries(c)[j]).key@)
                == Some(child_entries(c)[j].val),
    decreases c, 0nat,
{
    match c {
        MapChild::Empty => {},
        MapChild::Entry(e) => {},
        MapChild::Node(n) => {
            lemma_node_findable_upto(&*n, plevel + 1, BRANCHING as nat);
        },
        MapChild::Collision(b) => {
            assert forall|j: int| 0 <= j < child_entries(c).len() implies child_get(
                c,
                plevel,
                (#[trigger] child_entries(c)[j]).key@,
            ) == Some(child_entries(c)[j].val) by {
                lemma_bucket_find_distinct(b.entries@, j);
            }
        },
    }
}

/// Entries of the first `i` slots of a well-placed node are findable and
/// have distinct keys; their hashes select slots below `i`.
proof fn lemma_node_findable_upto<V>(n: &MapNode<V>, level: nat, i: nat)
    requires
        placed_node(*n, level),
        wf_node(*n, level),
        i <= BRANCHING,
    ensures
        distinct_keys(node_entries_upto(*n, i)),
        forall|j: int|
            0 <= j < node_entries_upto(*n, i).len() ==> spec_level_index(
                key_hash((#[trigger] node_entries_upto(*n, i)[j]).key@),
                level,
            ) < i,
        forall|j: int|
            0 <= j < node_entries_upto(*n, i).len() ==> node_get(
                *n,
                level,
                (#[trigger] node_entries_upto(*n, i)[j]).key@,
            ) == Some(node_entries_upto(*n, i)[j].val),
    decreases n, i,
{
    if i > 0 {
        let pre = node_entries_upto(*n, (i - 1) as nat);
        let c = n.children@[i - 1];
        let blk = child_entries(c);
        lemma_node_findable_upto(n, level, (i - 1) as nat);
        assert(placed_child(c, level, (i - 1) as nat));
        assert(wf_child(c, level));
        lemma_child_findable(c, level, (i - 1) as nat);
        let all = pre + blk;
        assert(node_entries_upto(*n, i) == all);
        assert forall|j: int| 0 <= j < all.len() implies spec_level_index(
            key_hash((#[trigger] all[j]).key@),
            level,
        ) < i by {
            if j >= pre.len() {
                assert(all[j] == blk[j - pre.len()]);
            } else {
                assert(all[j] == pre[j]);
            }
        }
        assert forall|j: int| 0 <= j < all.len() implies node_get(
            *n,
            level,
            (#[trigger] all[j]).key@,
        ) == Some(all[j].val) by {
            if j >= pre.len() {
                assert(all[j] == blk[j - pre.len()]);
                lemma_level_index_bound(key_hash(all[j].key@), level);
            } else {
                assert(all[j] == pre[j]);
            }
        }
        assert forall|a: int, b: int|
            0 <= a < all.len() && 0 <= b < all.len() && a != b implies (#[trigger] all[a]).key@ != (
            #[trigger] all[b]).key@ by {
            if a < pre.len() && b < pre.len() {
                assert(all[a] == pre[a]);
                assert(all[b] == pre[b]);
            } else if a >= pre.len() && b >= pre.len() {
                assert(all[a] == blk[a - pre.len()]);
                assert(all[b] == blk[b - pre.len()]);
            } else if a < pre.len() {
                assert(all[a] == pre[a]);
                assert(all[b] == blk[b - pre.len()]);
            } else {
                assert(all[b] == pre[b]);
                assert(all[a] == blk[a - pre.len()]);
            }
        }
    }
}

/// A lookup that succeeds finds one of the slot's entries.
proof fn lemma_child_sound<V>(c: MapChild<V>, plevel: nat, k: KeyView)
    requires
        child_get(c, plevel, k) is Some,
        wf_child(c, plevel),
    ensures
        exists|j: int|
            0 <= j < child_entries(c).len() && (#[trigger] child_entries(c)[j]).key@ == k
                && child_entries(c)[j].val == child_get(c, plevel, k)->Some_0,
    decreases c,
{
    match c {
        MapChild::Empty => {},
        MapChild::Entry(e) => {
            assert(child_entries(c)[0] == e);
        },
        MapChild::Node(n) => {
            let b = spec_level_index(key_hash(k), plevel + 1);
            let cc = n.children@[b as int];
            lemma_level_index_bound(key_hash(k), plevel + 1);
            assert(wf_child(cc, plevel + 1));
            lemma_child_sound(cc, plevel + 1, k);
            let j = choose|j: int|
                0 <= j < child_entries(cc).len() && (#[trigger] child_entries(cc)[j]).key@ == k
                    && child_entries(cc)[j].val == child_get(cc, plevel + 1, k)->Some_0;
            let x = child_entries(cc)[j];
            assert(child_entries(cc).contains(x));
            lemma_member_upto(&*n, BRANCHING as nat, b as int, x);
            let j2 = choose|j2: int| 0 <= j2 < child_entries(c).len() && child_entries(c)[j2] == x;
            assert(child_entries(c)[j2] == x);
        },
        MapChild::Collision(bk) => {
            lemma_bucket_find_sound(bk.entries@, k);
        },
    }
}

proof fn lemma_wf_node_child<V>(n: &MapNode<V>, level: nat, i: int)
    requires
        wf_node(*n, level),
        0 <= i < BRANCHING,
    ensures
        wf_child(n.children@[i], level),
{
    reveal_with_fuel(wf_node, 2);
    assert(n.children@.len() == BRANCHING);
}

/// A copy of a slot that shares whatever the slot points to.
pub fn copy_child<V>(c: &MapChild<V>) -> (r: MapChild<V>)
    ensures
        r == *c,
{
    match c {
        MapChild::Empty => MapChild::Empty,
        MapChild::Entry(e) => MapChild::Entry(e.clone()),
        MapChild::Node(n) => MapChild::Node(n.clone()),
        MapChild::Collision(b) => MapChild::Collision(b.clone()),
    }
}

/// A copy of a node's slots (path copying: the slots are shared).
pub fn copy_children<V>(cs: &Vec<MapChild<V>>) -> (r: Vec<MapChild<V>>)
    ensures
        r@ == cs@,
{
    let mut out: Vec<MapChild<V>> = Vec::new();
    let mut i: usize = 0;
    while i < cs.len()
        invariant
            i <= cs.len(),
            out@ == cs@.subrange(0, i as int),
        decreases cs.len() - i,
    {
        out.push(copy_child(&cs[i]));
        proof {
            assert(out@ =~= cs@.subrange(0, i + 1));
        }
        i += 1;
    }
    proof {
        assert(out@ =~= cs@);
    }
    out
}

/// 32 empty slots.
pub fn empty_children<V>() -> (r: Vec<MapChild<V>>)
    ensures
        r@.len() == BRANCHING,
        forall|i: int| 0 <= i < BRANCHING ==> r@[i] is Empty,
{
    let mut out: Vec<MapChild<V>> = Vec::new();
    let mut i: usize = 0;
    while i < BRANCHING
        invariant
            i <= BRANCHING,
            out@.len() == i,
            forall|j: int| 0 <= j < i ==> out@[j] is Empty,
        decreases BRANCHING - i,
    {
        out.push(MapChild::Empty);
        i += 1;
    }
    out
}

/// The subtree that tells apart two entries with different keys whose
/// hashes select the same slot one level up; it is the slot of a node at
/// `level - 1`.
fn build_branch_for_two<V>(
    e1: Rc<MapEntry<V>>,
    hash1: u64,
    e2: Rc<MapEntry<V>>,
    hash2: u64,
    level: u32,
) -> (r: MapChild<V>)
    requires
        1 <= level <= MAX_LEVELS,
        hash1 == key_hash(e1.key@),
        hash2 == key_hash(e2.key@),
        e1.key@ != e2.key@,
        spec_level_index(hash1, (level - 1) as nat) == spec_level_index(hash2, (level - 1) as nat),
    ensures
        wf_child(r, (level - 1) as nat),
        placed_child(r, (level - 1) as nat, spec_level_index(hash1, (level - 1) as nat)),
        forall|x: Rc<MapEntry<V>>| #[trigger] child_entries(r).contains(x) ==> x == e1 || x == e2,
        forall|k: KeyView|
            #![trigger child_get(r, (level - 1) as nat, k)]
            child_get(
                r,
                (level - 1) as nat,
                k,
            ) == if k == e2.key@ {
                Some(e2.val)
            } else if k == e1.key@ {
                Some(e1.val)
            } else {
                None::<V>
            },
    decreases MAX_LEVELS - level,
{
    if level >= MAX_LEVELS {
        let mut entries: Vec<Rc<MapEntry<V>>> = Vec::new();
        entries.push(e1);
        entries.push(e2);
        let r = MapChild::Collision(Rc::new(MapBucket { hash: hash1, entries }));
        proof {
            assert forall|k: KeyView| #[trigger] child_get(r, (level - 1) as nat, k) == if k
                == e2.key@ {
                Some(e2.val)
            } else if k == e1.key@ {
                Some(e1.val)
            } else {
                None::<V>
            } by {
                reveal_with_fuel(bucket_find, 3);
                assert(entries@.drop_first().drop_first().len() == 0);
            }
            assert(child_entries(r) == entries@);
            assert(entries@ == seq![e1, e2]);
        }
        return r;
    }
    let idx1 = level_index(hash1, level);
    let idx2 = level_index(hash2, level);
    let mut children = empty_children();
    let ghost ge1 = e1;
    let ghost ge2 = e2;
    let ghost k1 = ge1.key@;
    let ghost k2 = ge2.key@;
    if idx1 == idx2 {
        let c = build_branch_for_two(e1, hash1, e2, hash2, level + 1);
        children.set(idx1, c);
        let node = MapNode { children };
        let r = MapChild::Node(Rc::new(node));
        proof {
            assert forall|i: int| 0 <= i < BRANCHING implies #[trigger] wf_child(
                node.children@[i],
                level as nat,
            ) by {}
            assert(wf_node(node, level as nat));
            assert forall|i: int| 0 <= i < node.children@.len() implies placed_child(
                #[trigger] node.children@[i],
                level as nat,
                i as nat,
            ) by {
                if i != idx1 && i != idx2 {
                    assert(node.children@[i] is Empty);
                }
            }
            assert(placed_node(node, level as nat));
            assert forall|x: Rc<MapEntry<V>>| #[trigger] child_entries(r).contains(x) implies x == ge1
                || x == ge2 by {
                lemma_upto_member(&node, BRANCHING as nat, x);
                let b = choose|b: int|
                    0 <= b < BRANCHING && b < node.children@.len() && child_entries(
                        #[trigger] node.children@[b],
                    ).contains(x);
                if b != idx1 && b != idx2 {
                    assert(node.children@[b] is Empty);
                }
            }
            assert forall|j: int| 0 <= j < child_entries(r).len() implies spec_level_index(
                key_hash((#[trigger] child_entries(r)[j]).key@),
                (level - 1) as nat,
            ) == spec_level_index(hash1, (level - 1) as nat) by {
                assert(child_entries(r).contains(child_entries(r)[j]));
            }
            assert forall|k: KeyView| #[trigger] child_get(
                r,
                (level - 1) as nat,
                k,
            ) == if k == k2 {
                Some(ge2.val)
            } else if k == k1 {
                Some(ge1.val)
            } else {
                None::<V>
            } by {
                let i = spec_level_index(key_hash(k), level as nat);
                assert(child_get(r, (level - 1) as nat, k) == node_get(node, level as nat, k));
                if i == idx1 {
                    assert(child_get(node.children@[i as int], level as nat, k) == child_get(
                        c,
                        level as nat,
                        k,
                    ));
                }
            }
        }
        r
    } else {
        children.set(idx1, MapChild::Entry(e1));
        children.set(idx2, MapChild::Entry(e2));
        let node = MapNode { children };
        let r = MapChild::Node(Rc::new(node));
        proof {
            assert forall|i: int| 0 <= i < BRANCHING implies #[trigger] wf_child(
                node.children@[i],
                level as nat,
            ) by {}
            assert(wf_node(node, level as nat));
            assert forall|i: int| 0 <= i < node.children@.len() implies placed_child(
                #[trigger] node.children@[i],
                level as nat,
                i as nat,
            ) by {
                if i != idx1 && i != idx2 {
                    assert(node.children@[i] is Empty);
                }
            }
            assert(placed_node(node, level as nat));
            assert forall|x: Rc<MapEntry<V>>| #[trigger] child_entries(r).contains(x) implies x == ge1
                || x == ge2 by {
                lemma_upto_member(&node, BRANCHING as nat, x);
                let b = choose|b: int|
                    0 <= b < BRANCHING && b < node.children@.len() && child_entries(
                        #[trigger] node.children@[b],
                    ).contains(x);
                if b != idx1 && b != idx2 {
                    assert(node.children@[b] is Empty);
                }
            }
            assert forall|j: int| 0 <= j < child_entries(r).len() implies spec_level_index(
                key_hash((#[trigger] child_entries(r)[j]).key@),
                (level - 1) as nat,
            ) == spec_level_index(hash1, (level - 1) as nat) by {
                assert(child_entries(r).contains(child_entries(r)[j]));
            }
            assert forall|k: KeyView| #[trigger] child_get(
                r,
                (level - 1) as nat,
                k,
            ) == if k == k2 {
                Some(ge2.val)
            } else if k == k1 {
                Some(ge1.val)
            } else {
                None::<V>
            } by {
                assert(child_get(r, (level - 1) as nat, k) == node_get(node, level as nat, k));
            }
        }
        r
    }
}


/// The bucket entries with every entry whose key is that of `e` replaced
/// by `e`.
pub open spec fn replace_key<V>(es: Seq<Rc<MapEntry<V>>>, e: Rc<MapEntry<V>>) -> Seq<
    Rc<MapEntry<V>>,
> {
    es.map_values(|x: Rc<MapEntry<V>>| if x.key@ == e.key@ { e } else { x })
}

proof fn lemma_bucket_find_replace<V>(es: Seq<Rc<MapEntry<V>>>, e: Rc<MapEntry<V>>, k: KeyView)
    ensures
        bucket_find(replace_key(es, e), k) == if k == e.key@ {
            if bucket_find(es, k) is Some {
                Some(e.val)
            } else {
                None
            }
        } else {
            bucket_find(es, k)
        },
    decreases es.len(),
{
    if es.len() > 0 {
        assert(replace_key(es, e).drop_first() =~= replace_key(es.drop_first(), e));
        lemma_bucket_find_replace(es.drop_first(), e, k);
    }
}

proof fn lemma_bucket_find_push<V>(es: Seq<Rc<MapEntry<V>>>, e: Rc<MapEntry<V>>, k: KeyView)
    ensures
        bucket_find(es.push(e), k) == if bucket_find(es, k) is Some {
            bucket_find(es, k)
        } else if e.key@ == k {
            Some(e.val)
        } else {
            None
        },
    decreases es.len(),
{
    if es.len() > 0 {
        assert(es.push(e).drop_first() =~= es.drop_first().push(e));
        assert(es.push(e)[0] == es[0]);
        lemma_bucket_find_push(es.drop_first(), e, k);
    } else {
        assert(es.push(e).drop_first().len() == 0);
        assert(bucket_find(es.push(e).drop_first(), k) is None);
        assert(es.push(e)[0] == e);
    }
}

proof fn lemma_bucket_find_some<V>(es: Seq<Rc<MapEntry<V>>>, k: KeyView)
    ensures
        bucket_find(es, k) is Some <==> exists|j: int| 0 <= j < es.len() && (#[trigger] es[j]).key@ == k,
    decreases es.len(),
{
    if es.len() > 0 {
        lemma_bucket_find_some(es.drop_first(), k);
        if bucket_find(es.drop_first(), k) is Some {
            let j = choose|j: int| 0 <= j < es.drop_first().len() && (#[trigger] es.drop_first()[j]).key@ == k;
            assert(es[j + 1] == es.drop_first()[j]);
        }
        if exists|j: int| 0 <= j < es.len() && (#[trigger] es[j]).key@ == k {
            let j = choose|j: int| 0 <= j < es.len() && (#[trigger] es[j]).key@ == k;
            if j > 0 {
                assert(es.drop_first()[j - 1] == es[j]);
            }
        }
    }
}

/// A new bucket with `e` stored under its key: every entry with that key
/// is replaced by `e`, and `e` is appended when there was none. Also says
/// whether the key was absent.
fn bucket_insert<V>(b: &MapBucket<V>, e: Rc<MapEntry<V>>) -> (r: (MapBucket<V>, bool))
    requires
        distinct_keys(b.entries@),
    ensures
        r.0.hash == b.hash,
        distinct_keys(r.0.entries@),
        forall|x: Rc<MapEntry<V>>| #[trigger] r.0.entries@.contains(x) ==> x == e || b.entries@.contains(x),
        r.1 == (bucket_find(b.entries@, e.key@) is None),
        forall|k: KeyView|
            #[trigger] bucket_find(r.0.entries@, k) == if k == e.key@ {
                Some(e.val)
            } else {
                bucket_find(b.entries@, k)
            },
{
    let mut out: Vec<Rc<MapEntry<V>>> = Vec::new();
    let mut found = false;
    let mut i: usize = 0;
    while i < b.entries.len()
        invariant
            i <= b.entries.len(),
            out@ == replace_key(b.entries@.subrange(0, i as int), e),
            found == exists|j: int| 0 <= j < i && (#[trigger] b.entries@[j]).key@ == e.key@,
        decreases b.entries.len() - i,
    {
        if b.entries[i].key.equals(&e.key) {
            out.push(e.clone());
            found = true;
        } else {
            out.push(b.entries[i].clone());
        }
        proof {
            assert(out@ =~= replace_key(b.entries@.subrange(0, i + 1), e));
        }
        i += 1;
    }
    let ghost replaced = out@;
    proof {
        assert(b.entries@.subrange(0, b.entries.len() as int) =~= b.entries@);
        lemma_bucket_find_some(b.entries@, e.key@);
    }
    proof {
        let old = b.entries@;
        assert forall|a: int, c: int|
            0 <= a < replaced.len() && 0 <= c < replaced.len() && a != c implies (
            #[trigger] replaced[a]).key@ != (#[trigger] replaced[c]).key@ by {
            assert(old[a].key@ != old[c].key@);
        }
        if !found {
            assert(replaced =~= old);
        }
    }
    if !found {
        out.push(e.clone());
    }
    let r = MapBucket { hash: b.hash, entries: out };
    proof {
        let old = b.entries@;
        assert forall|a: int, c: int|
            0 <= a < r.entries@.len() && 0 <= c < r.entries@.len() && a != c implies (
            #[trigger] r.entries@[a]).key@ != (#[trigger] r.entries@[c]).key@ by {
            if a < replaced.len() && c < replaced.len() {
                assert(r.entries@[a] == replaced[a]);
                assert(r.entries@[c] == replaced[c]);
            } else if a < replaced.len() {
                assert(r.entries@[a] == old[a]);
            } else {
                assert(r.entries@[c] == old[c]);
            }
        }
        assert forall|x: Rc<MapEntry<V>>| #[trigger] r.entries@.contains(x) implies x == e
            || old.contains(x) by {
            let j = choose|j: int| 0 <= j < r.entries@.len() && r.entries@[j] == x;
            if j < replaced.len() && x != e {
                assert(old[j] == x);
            }
        }
    }
    proof {
        assert forall|k: KeyView| #[trigger] bucket_find(r.entries@, k) == if k == e.key@ {
            Some(e.val)
        } else {
            bucket_find(b.entries@, k)
        } by {
            lemma_bucket_find_replace(b.entries@, e, k);
            if !found {
                lemma_bucket_find_push(replaced, e, k);
                lemma_bucket_find_replace(b.entries@, e, e.key@);
            }
        }
    }
    (r, !found)
}

/// The entries under an optional root.
pub open spec fn opt_entries<V>(n: Option<Rc<MapNode<V>>>) -> Seq<Rc<MapEntry<V>>> {
    match n {
        None => Seq::empty(),
        Some(r) => node_entries(*r),
    }
}

/// A slot entry is new (key `k`, value `v`) or was already among `old`.
pub open spec fn from_old_or_new<V>(
    x: Rc<MapEntry<V>>,
    old: Seq<Rc<MapEntry<V>>>,
    k: KeyView,
    v: V,
) -> bool {
    (x.key@ == k && x.val == v) || old.contains(x)
}

/// Store `key` -> `val` in the subtree rooted at `node` (a node at
/// `level`, or nothing). Returns the new subtree root and whether the key
/// was absent.
fn insert<V>(node: &Option<Rc<MapNode<V>>>, level: u32, hash: u64, entry: Rc<MapEntry<V>>) -> (r: (
    Rc<MapNode<V>>,
    bool,
))
    requires
        level < MAX_LEVELS,
        hash == key_hash(entry.key@),
        node is Some ==> wf_node(*node->0, level as nat),
        node is Some ==> placed_node(*node->0, level as nat),
    ensures
        wf_node(*r.0, level as nat),
        placed_node(*r.0, level as nat),
        r.1 == (opt_node_get(*node, level as nat, entry.key@) is None),
        forall|k: KeyView|
            #[trigger] node_get(*r.0, level as nat, k) == if k == entry.key@ {
                Some(entry.val)
            } else {
                opt_node_get(*node, level as nat, k)
            },
        forall|x: Rc<MapEntry<V>>|
            #[trigger] node_entries(*r.0).contains(x) ==> from_old_or_new(
                x,
                opt_entries(*node),
                entry.key@,
                entry.val,
            ),
    decreases MAX_LEVELS - level,
{
    let idx = level_index(hash, level);
    let mut children = match node {
        None => empty_children(),
        Some(n) => copy_children(&n.children),
    };
    let existing = copy_child(&children[idx]);
    proof {
        match node {
            None => {},
            Some(n) => {
                lemma_wf_node_child(&**n, level as nat, idx as int);
                assert(existing == n.children@[idx as int]);
                assert(placed_child(n.children@[idx as int], level as nat, idx as nat));
            },
        }
    }
    let ghost gentry = entry;
    let ghost key_view = gentry.key@;
    let new_child: MapChild<V>;
    let is_new: bool;
    let ghost gexisting = existing;
    match existing {
        MapChild::Empty => {
            new_child = MapChild::Entry(entry);
            is_new = true;
        },
        MapChild::Entry(e) => {
            if e.key.equals(&entry.key) {
                new_child = MapChild::Entry(entry);
                is_new = false;
            } else {
                let h = e.key.hash();
                proof {
                    assert(child_entries(gexisting)[0] == e);
                }
                new_child = build_branch_for_two(
                    e,
                    h,
                    entry,
                    hash,
                    level + 1,
                );
                is_new = true;
                proof {
                    assert forall|k: KeyView| #[trigger]
                        child_get(new_child, level as nat, k) == if k == key_view {
                            Some(gentry.val)
                        } else {
                            child_get(gexisting, level as nat, k)
                        } by {
                        assert(child_get(new_child, (level + 1 - 1) as nat, k) == child_get(
                            new_child,
                            level as nat,
                            k,
                        ));
                    }
                    assert forall|x: Rc<MapEntry<V>>| #[trigger]
                        child_entries(new_child).contains(x) implies from_old_or_new(
                        x,
                        child_entries(gexisting),
                        key_view,
                        gentry.val,
                    ) by {
                        if x == e {
                            assert(child_entries(gexisting)[0] == x);
                        }
                    }
                }
            }
        },
        MapChild::Node(child) => {
            let ghost gchild = child;
            let (nc, isn) = insert(&Some(child), level + 1, hash, entry);
            new_child = MapChild::Node(nc);
            is_new = isn;
            proof {
                assert forall|k: KeyView| #[trigger]
                    child_get(new_child, level as nat, k) == if k == key_view {
                        Some(gentry.val)
                    } else {
                        child_get(gexisting, level as nat, k)
                    } by {
                    assert(child_get(new_child, level as nat, k) == node_get(
                        *nc,
                        level as nat + 1,
                        k,
                    ));
                    assert(child_get(gexisting, level as nat, k) == node_get(
                        *gchild,
                        level as nat + 1,
                        k,
                    ));
                    assert(node_get(*nc, (level + 1) as nat, k) == node_get(
                        *nc,
                        level as nat + 1,
                        k,
                    ));
                }
                assert(child_entries(new_child) == node_entries(*nc));
                assert(child_entries(gexisting) == node_entries(*gchild));
                assert(opt_entries(Some(gchild)) == node_entries(*gchild));
            }
        },
        MapChild::Collision(b) => {
            let (nb, isn) = bucket_insert(&b, entry);
            new_child = MapChild::Collision(Rc::new(nb));
            is_new = isn;
        },
    }
    let ghost old_children = children@;
    proof {
        assert(forall|k: KeyView| #[trigger]
            child_get(new_child, level as nat, k) == if k == key_view {
                Some(gentry.val)
            } else {
                child_get(gexisting, level as nat, k)
            });
        assert(is_new == (child_get(gexisting, level as nat, key_view) is None));
        assert(wf_child(new_child, level as nat));
        assert(forall|x: Rc<MapEntry<V>>| #[trigger]
            child_entries(new_child).contains(x) ==> from_old_or_new(
                x,
                child_entries(gexisting),
                key_view,
                gentry.val,
            ));
        assert forall|j: int| 0 <= j < child_entries(new_child).len() implies spec_level_index(
            key_hash((#[trigger] child_entries(new_child)[j]).key@),
            level as nat,
        ) == idx by {
            let x = child_entries(new_child)[j];
            assert(child_entries(new_child).contains(x));
            if x.key@ != key_view || x.val != gentry.val {
                let j2 = choose|j2: int|
                    0 <= j2 < child_entries(gexisting).len() && child_entries(gexisting)[j2] == x;
                assert(child_entries(gexisting)[j2] == x);
            }
        }
        assert(placed_child(new_child, level as nat, idx as nat));
    }
    children.set(idx, new_child);
    let new_node = MapNode { children };
    proof {
        assert forall|i: int| 0 <= i < BRANCHING implies #[trigger] wf_child(
            new_node.children@[i],
            level as nat,
        ) by {
            if i != idx {
                assert(new_node.children@[i] == old_children[i]);
                match node {
                    None => {},
                    Some(n) => {
                        lemma_wf_node_child(&**n, level as nat, i);
                        assert(old_children[i] == n.children@[i]);
                    },
                }
            } else {
                assert(new_node.children@[i] == new_child);
            }
        }
        assert(wf_node(new_node, level as nat));
        assert forall|i: int| 0 <= i < new_node.children@.len() implies placed_child(
            #[trigger] new_node.children@[i],
            level as nat,
            i as nat,
        ) by {
            if i != idx {
                assert(new_node.children@[i] == old_children[i]);
                match node {
                    None => {},
                    Some(n) => {
                        assert(old_children[i] == n.children@[i]);
                    },
                }
            } else {
                assert(new_node.children@[i] == new_child);
            }
        }
        assert(placed_node(new_node, level as nat));
        assert forall|x: Rc<MapEntry<V>>| #[trigger] node_entries(new_node).contains(x) implies from_old_or_new(
            x,
            opt_entries(*node),
            key_view,
            gentry.val,
        ) by {
            lemma_upto_member(&new_node, BRANCHING as nat, x);
            let b = choose|b: int|
                0 <= b < BRANCHING && b < new_node.children@.len() && child_entries(
                    #[trigger] new_node.children@[b],
                ).contains(x);
            if b != idx {
                assert(new_node.children@[b] == old_children[b]);
                match node {
                    None => {},
                    Some(n) => {
                        assert(old_children[b] == n.children@[b]);
                        lemma_member_upto(&**n, BRANCHING as nat, b, x);
                    },
                }
            } else {
                assert(new_node.children@[b] == new_child);
                if !(x.key@ == key_view && x.val == gentry.val) {
                    assert(child_entries(gexisting).contains(x));
                    match node {
                        None => {},
                        Some(n) => {
                            assert(gexisting == n.children@[b]);
                            lemma_member_upto(&**n, BRANCHING as nat, b, x);
                        },
                    }
                }
            }
        }
        assert forall|k: KeyView| #[trigger] node_get(new_node, level as nat, k) == if k == key_view {
            Some(gentry.val)
        } else {
            opt_node_get(*node, level as nat, k)
        } by {
            let i = spec_level_index(key_hash(k), level as nat);
            lemma_level_index_bound(key_hash(k), level as nat);
            assert(node_get(new_node, level as nat, k) == child_get(
                new_node.children@[i as int],
                level as nat,
                k,
            ));
            if i != idx {
                assert(k != key_view);
                assert(new_node.children@[i as int] == old_children[i as int]);
                match node {
                    None => {
                        assert(old_children[i as int] is Empty);
                    },
                    Some(n) => {
                        assert(old_children[i as int] == n.children@[i as int]);
                        assert(node_get(**n, level as nat, k) == child_get(
                            n.children@[i as int],
                            level as nat,
                            k,
                        ));
                    },
                }
            } else {
                assert(new_node.children@[i as int] == new_child);
                match node {
                    None => {
                        assert(gexisting is Empty);
                    },
                    Some(n) => {
                        assert(gexisting == n.children@[i as int]);
                        assert(node_get(**n, level as nat, k) == child_get(
                            n.children@[i as int],
                            level as nat,
                            k,
                        ));
                    },
                }
            }
        }
    }
    (Rc::new(new_node), is_new)
}

/// Lookup in a bucket: the value of the first entry with the key.
fn bucket_lookup<'a, V>(es: &'a Vec<Rc<MapEntry<V>>>, key: &Key) -> (r: Option<&'a V>)
    ensures
        match r {
            Some(v) => bucket_find(es@, key@) == Some(*v),
            None => bucket_find(es@, key@) is None,
        },
{
    let mut i: usize = 0;
    proof {
        assert(es@.subrange(0, es@.len() as int) =~= es@);
    }
    while i < es.len()
        invariant
            i <= es.len(),
            bucket_find(es@, key@) == bucket_find(es@.subrange(i as int, es@.len() as int), key@),
        decreases es.len() - i,
    {
        proof {
            assert(es@.subrange(i as int, es@.len() as int).drop_first() =~= es@.subrange(
                i + 1,
                es@.len() as int,
            ));
            assert(es@.subrange(i as int, es@.len() as int)[0] == es@[i as int]);
        }
        if es[i].key.equals(key) {
            return Some(&es[i].val);
        }
        i += 1;
    }
    None
}

/// Lookup of `key` (whose hash is `hash`) in a node at `level`.
fn node_lookup<'a, V>(n: &'a MapNode<V>, level: u32, hash: u64, key: &Key) -> (r: Option<&'a V>)
    requires
        wf_node(*n, level as nat),
        level < MAX_LEVELS,
        hash == key_hash(key@),
    ensures
        match r {
            Some(v) => node_get(*n, level as nat, key@) == Some(*v),
            None => node_get(*n, level as nat, key@) is None,
        },
    decreases MAX_LEVELS - level,
{
    let idx = level_index(hash, level);
    proof {
        lemma_wf_node_child(n, level as nat, idx as int);
    }
    match &n.children[idx] {
        MapChild::Empty => None,
        MapChild::Entry(e) => {
            if e.key.equals(key) {
                Some(&e.val)
            } else {
                None
            }
        },
        MapChild::Node(child) => node_lookup(&**child, level + 1, hash, key),
        MapChild::Collision(b) => bucket_lookup(&b.entries, key),
    }
}

/// Appends the entries of a node, in trie order, to `out`.
fn collect_node<V>(n: &MapNode<V>, level: Ghost<nat>, out: &mut Vec<Rc<MapEntry<V>>>)
    requires
        wf_node(*n, level@),
    ensures
        final(out)@ == old(out)@ + node_entries(*n),
    decreases *n,
{
    let ghost start = old(out)@;
    let mut i: usize = 0;
    while i < n.children.len()
        invariant
            wf_node(*n, level@),
            i <= n.children.len(),
            out@ == start + node_entries_upto(*n, i as nat),
        decreases n.children.len() - i,
    {
        let ghost before = out@;
        proof {
            lemma_wf_node_child(n, level@, i as int);
        }
        match &n.children[i] {
            MapChild::Empty => {},
            MapChild::Entry(e) => {
                out.push(e.clone());
            },
            MapChild::Node(child) => {
                collect_node(&**child, Ghost(level@ + 1), out);
            },
            MapChild::Collision(b) => {
                let mut j: usize = 0;
                while j < b.entries.len()
                    invariant
                        j <= b.entries.len(),
                        out@ == before + b.entries@.subrange(0, j as int),
                    decreases b.entries.len() - j,
                {
                    out.push(b.entries[j].clone());
                    proof {
                        assert(b.entries@.subrange(0, j + 1) =~= b.entries@.subrange(0, j as int).push(
                            b.entries@[j as int],
                        ));
                    }
                    j += 1;
                }
                proof {
                    assert(b.entries@.subrange(0, b.entries.len() as int) =~= b.entries@);
                }
            },
        }
        proof {
            assert(node_entries_upto(*n, (i + 1) as nat) == node_entries_upto(*n, i as nat)
                + child_entries(n.children@[i as int]));
            assert(out@ =~= start + node_entries_upto(*n, (i + 1) as nat));
        }
        i += 1;
    }
}

/// The mapping held by the trie under an optional root.
pub open spec fn root_view<V>(root: Option<Rc<MapNode<V>>>) -> Map<KeyView, V> {
    Map::new(
        |k: KeyView| opt_node_get(root, 0, k) is Some,
        |k: KeyView| opt_node_get(root, 0, k)->Some_0,
    )
}

/// In a well-formed trie the key order lists each key once, and its
/// entries hold the values of the mapping.
pub(crate) proof fn lemma_key_order<V>(m: HashTrieMap<V>)
    requires
        m.well_formed(),
    ensures
        m.key_order().no_duplicates(),
        m.key_order().len() == opt_entries(m.root).len(),
        forall|k: KeyView| m.view().contains_key(k) <==> m.key_order().contains(k),
        forall|j: int|
            0 <= j < m.key_order().len() ==> #[trigger] m.view()[m.key_order()[j]] == opt_entries(
                m.root,
            )[j].val,
{
    match m.root {
        None => {
            assert(m.key_order().len() == 0);
            assert forall|k: KeyView| m.view().contains_key(k) <==> m.key_order().contains(k) by {}
        },
        Some(n) => {
            assert(opt_entries(m.root) == node_entries(*n));
            lemma_node_findable_upto(&*n, 0, BRANCHING as nat);
                        assert forall|a: int, b: int| 0 <= a < m.key_order().len() && 0 <= b < m.key_order().len() && a != b implies m.key_order()[a]
                != m.key_order()[b] by {
                assert(m.key_order()[a] == node_entries(*n)[a].key@);
                assert(m.key_order()[b] == node_entries(*n)[b].key@);
            }
            assert forall|k: KeyView| m.view().contains_key(k) <==> m.key_order().contains(k) by {
                if m.view().contains_key(k) {
                    lemma_node_sound(&*n, 0, k);
                    let j = choose|j: int| 0 <= j < node_entries(*n).len() && (#[trigger] node_entries(*n)[j]).key@ == k && node_entries(*n)[j].val
                        == node_get(*n, 0, k)->Some_0;
                    assert(m.key_order()[j] == k);
                }
                if m.key_order().contains(k) {
                    let j = choose|j: int| 0 <= j < m.key_order().len() && m.key_order()[j] == k;
                    assert(node_entries(*n)[j].key@ == k);
                }
            }
            assert forall|j: int| 0 <= j < m.key_order().len() implies #[trigger] m.view()[m.key_order()[j]] == node_entries(*n)[j].val by {
                assert(m.key_order()[j] == node_entries(*n)[j].key@);
            }
        },
    }
}

/// A well-formed map's key order lists each of its keys exactly once.
pub proof fn law_key_order_lists_keys<V>(m: HashTrieMap<V>)
    requires
        m.well_formed(),
    ensures
        m.key_order().no_duplicates(),
        forall|k: KeyView| m.view().contains_key(k) <==> m.key_order().contains(k),
{
    lemma_key_order(m);
}

/// A persistent hash map from keys (scalars and identities) to values of
/// type `V`.
pub struct HashTrieMap<V> {
    pub(crate) count: u64,
    pub(crate) root: Option<Rc<MapNode<V>>>,
}

impl<V> HashTrieMap<V> {
    /// Lookup of `k` in the trie.
    pub closed spec fn spec_get(&self, k: KeyView) -> Option<V> {
        opt_node_get(self.root, 0, k)
    }

    /// The mapping held: each key to its value.
    pub closed spec fn view(&self) -> Map<KeyView, V> {
        root_view(self.root)
    }

    /// The keys in the order in which the trie holds them.
    pub closed spec fn key_order(&self) -> Seq<KeyView> {
        Seq::new(opt_entries(self.root).len(), |j: int| opt_entries(self.root)[j].key@)
    }

    #[verifier::type_invariant]
    closed spec fn inv(&self) -> bool {
        &&& self.root is Some ==> wf_node(*self.root->0, 0)
        &&& self.root is Some ==> placed_node(*self.root->0, 0)
        &&& self.view().dom().finite()
        &&& self.count == self.view().dom().len()
    }

    /// The trie is well formed, as every map that this library builds is.
    pub closed spec fn well_formed(&self) -> bool {
        self.inv()
    }

    /// Establishes that this map is well formed (every map value is; see
    /// [`HashTrieMap::well_formed`]). It does no work at run time.
    pub fn witness_well_formed(&self)
        ensures
            self.well_formed(),
    {
        proof {
            use_type_invariant(self);
        }
    }

    /// The empty map.
    pub fn empty() -> (r: Self)
        ensures
            r.view() == Map::<KeyView, V>::empty(),
    {
        proof {
            assert(root_view::<V>(None) =~= Map::<KeyView, V>::empty());
        }
        HashTrieMap { count: 0, root: None }
    }

    /// Number of entries.
    pub fn count(&self) -> (r: u64)
        ensures
            r == self.view().len(),
            self.view().dom().finite(),
    {
        proof {
            use_type_invariant(self);
        }
        self.count
    }

    /// The value stored under `key`, if any.
    pub fn get(&self, key: &Key) -> (r: Option<&V>)
        ensures
            match r {
                Some(v) => self.view().contains_key(key@) && self.view()[key@] == *v,
                None => !self.view().contains_key(key@),
            },
    {
        proof {
            use_type_invariant(self);
        }
        match &self.root {
            None => None,
            Some(n) => node_lookup(&**n, 0, key.hash(), key),
        }
    }

    /// All entries, each key once, in trie order.
    pub fn entries(&self) -> (r: Vec<Rc<MapEntry<V>>>)
        ensures
            r@.len() == self.key_order().len(),
            forall|j: int| 0 <= j < r@.len() ==> (#[trigger] r@[j]).key@ == self.key_order()[j],
            distinct_keys(r@),
            forall|j: int|
                0 <= j < r@.len() ==> self.view().contains_key((#[trigger] r@[j]).key@)
                    && self.view()[r@[j].key@] == r@[j].val,
            forall|k: KeyView|
                #[trigger] self.view().contains_key(k) ==> exists|j: int|
                    0 <= j < r@.len() && (#[trigger] r@[j]).key@ == k,
    {
        self.entry_list()
    }

    /// All entries, in trie order, as they are stored.
    pub(crate) fn entry_list(&self) -> (r: Vec<Rc<MapEntry<V>>>)
        ensures
            r@ == opt_entries(self.root),
            r@.len() == self.key_order().len(),
            forall|j: int| 0 <= j < r@.len() ==> (#[trigger] r@[j]).key@ == self.key_order()[j],
            distinct_keys(r@),
            forall|j: int|
                0 <= j < r@.len() ==> self.view().contains_key((#[trigger] r@[j]).key@)
                    && self.view()[r@[j].key@] == r@[j].val,
            forall|k: KeyView|
                #[trigger] self.view().contains_key(k) ==> exists|j: int|
                    0 <= j < r@.len() && (#[trigger] r@[j]).key@ == k,
    {
        proof {
            use_type_invariant(self);
        }
        let mut out: Vec<Rc<MapEntry<V>>> = Vec::new();
        match &self.root {
            None => {
                proof {
                    assert forall|k: KeyView| #[trigger] self.view().contains_key(k) implies exists|
                        j: int,
                    | 0 <= j < out@.len() && (#[trigger] out@[j]).key@ == k by {}
                }
            },
            Some(n) => {
                collect_node(&**n, Ghost(0), &mut out);
                proof {
                    assert(out@ =~= node_entries(**n));
                    assert(opt_entries(self.root) == node_entries(**n));
                    lemma_node_findable_upto(&**n, 0, BRANCHING as nat);
                    assert forall|k: KeyView| #[trigger] self.view().contains_key(k) implies exists|
                        j: int,
                    | 0 <= j < out@.len() && (#[trigger] out@[j]).key@ == k by {
                        lemma_node_sound(&**n, 0, k);
                    }
                }
            },
        }
        out
    }

    /// Whether `key` is stored.
    pub fn contains_key(&self, key: &Key) -> (r: bool)
        ensures
            r == self.view().contains_key(key@),
    {
        self.get(key).is_some()
    }

    /// A map sharing this one's trie.
    pub fn share(&self) -> (r: Self)
        ensures
            r == *self,
    {
        proof {
            use_type_invariant(self);
        }
        let root = match &self.root {
            None => None,
            Some(n) => Some(n.clone()),
        };
        HashTrieMap { count: self.count, root }
    }

    /// The keys stored.
    pub open spec fn key_set(&self) -> Set<KeyView> {
        self.view().dom()
    }

    /// A new map holding every entry but the one of `key`; `self` is left
    /// as it was. Built by storing the remaining entries into an empty map.
    pub fn dissoc(&self, key: &Key) -> (r: Self)
        ensures
            r.view() == self.view().remove(key@),
    {
        proof {
            use_type_invariant(self);
        }
        let es = self.entries();
        let mut m: HashTrieMap<V> = HashTrieMap::empty();
        let mut i: usize = 0;
        while i < es.len()
            invariant
                i <= es.len(),
                distinct_keys(es@),
                forall|j: int|
                    0 <= j < es@.len() ==> self.view().contains_key((#[trigger] es@[j]).key@)
                        && self.view()[es@[j].key@] == es@[j].val,
                forall|k: KeyView|
                    #[trigger] m.view().contains_key(k) <==> (k != key@ && exists|j: int|
                        0 <= j < i && (#[trigger] es@[j]).key@ == k),
                forall|k: KeyView| #[trigger] m.view().contains_key(k) ==> m.view()[k] == self.view()[k],
                self.view().dom().finite(),
                self.view().len() <= u64::MAX,
            decreases es.len() - i,
        {
            let e = &es[i];
            if !e.key.equals(key) {
                proof {
                    use_type_invariant(&m);
                    assert(m.view().dom().subset_of(self.view().dom().remove(es@[i as int].key@))) by {
                        assert forall|k: KeyView| #[trigger] m.view().dom().contains(k) implies self.view().dom().remove(
                            es@[i as int].key@,
                        ).contains(k) by {
                            let j = choose|j: int| 0 <= j < i && (#[trigger] es@[j]).key@ == k;
                            assert(j != i);
                        }
                    }
                    vstd::set_lib::lemma_len_subset(
                        m.view().dom(),
                        self.view().dom().remove(es@[i as int].key@),
                    );
                }
                m = m.assoc_entry(e.clone());
            }
            proof {
                assert forall|k: KeyView| #[trigger] m.view().contains_key(k) <==> (k != key@ && exists|j: int|
                    0 <= j < i + 1 && (#[trigger] es@[j]).key@ == k) by {
                    if k != key@ && exists|j: int| 0 <= j < i + 1 && (#[trigger] es@[j]).key@ == k {
                        let j = choose|j: int| 0 <= j < i + 1 && (#[trigger] es@[j]).key@ == k;
                        if j < i {
                            assert(exists|j: int| 0 <= j < i && (#[trigger] es@[j]).key@ == k);
                        }
                    }
                }
            }
            i += 1;
        }
        proof {
            assert(m.view() =~= self.view().remove(key@)) by {
                assert forall|k: KeyView| #[trigger] self.view().remove(key@).contains_key(k) implies m.view().contains_key(k) by {
                    let j = choose|j: int| 0 <= j < es@.len() && (#[trigger] es@[j]).key@ == k;
                }
            }
        }
        m
    }

    /// A new map holding `e`'s key associated to `e`'s value (the entry is
    /// shared, not copied); `self` is left as it was.
    pub fn assoc_entry(&self, e: Rc<MapEntry<V>>) -> (r: Self)
        requires
            self.view().len() < u64::MAX,
        ensures
            r.view() == self.view().insert(e.key@, e.val),
    {
        proof {
            use_type_invariant(self);
        }
        let hash = e.key.hash();
        let ghost ge = e;
        let ghost kv = ge.key@;
        let (root, is_new) = insert(&self.root, 0, hash, e);
        let count = if is_new {
            self.count + 1
        } else {
            self.count
        };
        proof {
            assert(root_view(Some(root)) =~= self.view().insert(kv, ge.val)) by {
                assert forall|k: KeyView| #[trigger] opt_node_get(Some(root), 0, k) == if k == kv {
                    Some(ge.val)
                } else {
                    opt_node_get(self.root, 0, k)
                } by {
                    assert(node_get(*root, 0, k) == if k == kv {
                        Some(ge.val)
                    } else {
                        opt_node_get(self.root, 0, k)
                    });
                }
            }
            assert(is_new == !self.view().contains_key(kv));
        }
        HashTrieMap { count, root: Some(root) }
    }

    /// A new map with `key` associated to `val`; `self` is left as it was.
    pub fn assoc(&self, key: Key, val: V) -> (r: Self)
        requires
            self.view().len() < u64::MAX,
        ensures
            r.view() == self.view().insert(key@, val),
    {
        proof {
            use_type_invariant(self);
        }
        let hash = key.hash();
        let ghost kv = key@;
        let ghost gv = val;
        let (root, is_new) = insert(&self.root, 0, hash, Rc::new(MapEntry { key, val }));
        let count = if is_new {
            self.count + 1
        } else {
            self.count
        };
        proof {
            assert(root_view(Some(root)) =~= self.view().insert(kv, gv)) by {
                assert forall|k: KeyView| #[trigger] opt_node_get(Some(root), 0, k) == if k == kv {
                    Some(gv)
                } else {
                    opt_node_get(self.root, 0, k)
                } by {
                    assert(node_get(*root, 0, k) == if k == kv {
                        Some(gv)
                    } else {
                        opt_node_get(self.root, 0, k)
                    });
                }
            }
            assert(is_new == !self.view().contains_key(kv));
        }
        let r = HashTrieMap { count, root: Some(root) };
        r
    }
}

} // verus!
