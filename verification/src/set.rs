//! Persistent hash set: the same trie as the map, holding one element per
//! slot. Updates return a new set and share untouched subtrees.

use crate::hamt::HashTrieMap;
use crate::key::{Key, KeyView};
use vstd::prelude::*;

verus! {

/// A persistent set of scalar elements.
pub struct HashTrieSet {
    pub(crate) trie: HashTrieMap<()>,
}

impl HashTrieSet {
    /// The elements held.
    pub closed spec fn view(&self) -> Set<KeyView> {
        self.trie.view().dom()
    }

    /// The elements in the order in which the trie holds them.
    pub closed spec fn elem_order(&self) -> Seq<KeyView> {
        self.trie.key_order()
    }

    /// The trie is well formed, as every set that this library builds is.
    pub closed spec fn well_formed(&self) -> bool {
        self.trie.well_formed()
    }

    /// Establishes that this set is well formed (every set value is). It
    /// does no work at run time.
    pub fn witness_well_formed(&self)
        ensures
            self.well_formed(),
    {
        self.trie.witness_well_formed();
    }

    /// The empty set.
    pub fn empty() -> (r: Self)
        ensures
            r.view() == Set::<KeyView>::empty(),
    {
        let t: HashTrieMap<()> = HashTrieMap::empty();
        let r = HashTrieSet { trie: t };
        proof {
            assert(r.view() =~= Set::<KeyView>::empty());
        }
        r
    }

    /// A set sharing this one's trie.
    pub fn share(&self) -> (r: Self)
        ensures
            r == *self,
    {
        HashTrieSet { trie: self.trie.share() }
    }

    /// Number of elements.
    pub fn count(&self) -> (r: u64)
        ensures
            r == self.view().len(),
            self.view().finite(),
    {
        self.trie.count()
    }

    /// Whether `val` is an element.
    pub fn contains(&self, val: &Key) -> (r: bool)
        ensures
            r == self.view().contains(val@),
    {
        self.trie.contains_key(val)
    }

    /// A new set with `val` added; `self` is left as it was.
    pub fn conj(&self, val: Key) -> (r: Self)
        requires
            self.view().len() < u64::MAX,
        ensures
            r.view() == self.view().insert(val@),
    {
        let ghost v = val@;
        let t = self.trie.assoc(val, ());
        let r = HashTrieSet { trie: t };
        proof {
            assert(r.view() =~= self.view().insert(v));
        }
        r
    }

    /// A new set without `val`; `self` is left as it was. Rebuilt from the
    /// remaining elements.
    pub fn disj(&self, val: &Key) -> (r: Self)
        ensures
            r.view() == self.view().remove(val@),
    {
        let t = self.trie.dissoc(val);
        let r = HashTrieSet { trie: t };
        proof {
            assert(r.view() =~= self.view().remove(val@));
        }
        r
    }

    /// The elements, each once, in trie order.
    pub fn values(&self) -> (r: Vec<Key>)
        ensures
            r@.len() == self.elem_order().len(),
            forall|j: int| 0 <= j < r@.len() ==> (#[trigger] r@[j])@ == self.elem_order()[j],
            forall|a: int, b: int|
                0 <= a < r@.len() && 0 <= b < r@.len() && a != b ==> (#[trigger] r@[a])@ != (
                #[trigger] r@[b])@,
            forall|j: int| 0 <= j < r@.len() ==> self.view().contains((#[trigger] r@[j])@),
            forall|k: KeyView| #[trigger]
                self.view().contains(k) ==> exists|j: int| 0 <= j < r@.len() && (#[trigger] r@[j])@ == k,
    {
        let es = self.trie.entries();
        let mut out: Vec<Key> = Vec::new();
        let mut i: usize = 0;
        while i < es.len()
            invariant
                i <= es.len(),
                out@.len() == i,
                es@.len() == self.trie.key_order().len(),
                forall|j: int| 0 <= j < es@.len() ==> (#[trigger] es@[j]).key@ == self.trie.key_order()[j],
                forall|j: int| 0 <= j < i ==> (#[trigger] out@[j])@ == es@[j].key@,
            decreases es.len() - i,
        {
            out.push(es[i].key.copy());
            i += 1;
        }
        proof {
            assert forall|a: int, b: int|
                0 <= a < out@.len() && 0 <= b < out@.len() && a != b implies (#[trigger] out@[a])@ != (
                #[trigger] out@[b])@ by {
                assert(es@[a].key@ != es@[b].key@);
            }
            assert forall|j: int| 0 <= j < out@.len() implies self.view().contains(
                (#[trigger] out@[j])@,
            ) by {
                assert(self.trie.view().contains_key(es@[j].key@));
            }
            assert forall|k: KeyView| #[trigger] self.view().contains(k) implies exists|j: int|
                0 <= j < out@.len() && (#[trigger] out@[j])@ == k by {
                assert(self.trie.view().contains_key(k));
                let j = choose|j: int| 0 <= j < es@.len() && (#[trigger] es@[j]).key@ == k;
                assert(out@[j]@ == k);
            }
        }
        out
    }
}

/// In a well-formed set the element order lists each element once.
pub(crate) proof fn lemma_elem_order(s: HashTrieSet)
    requires
        s.well_formed(),
    ensures
        s.elem_order().no_duplicates(),
        forall|k: KeyView| s.view().contains(k) <==> s.elem_order().contains(k),
{
    crate::hamt::lemma_key_order(s.trie);
}

} // verus!
