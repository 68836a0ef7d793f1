//! Intern tables for keywords and symbols: the same name always yields
//! the same identity, and different names different identities.

use crate::hamt::HashTrieMap;
use crate::key::{Key, KeyView};
use crate::text::copy_string;
use vstd::prelude::*;

verus! {

/// An intern table: each interned name, in the order interned; a name's
/// identity is its position.
pub struct InternTable {
    pub(crate) index: HashTrieMap<u64>,
    pub(crate) names: Vec<String>,
}

impl InternTable {
    /// The interned names; a name's identity is its position.
    pub closed spec fn names_view(&self) -> Seq<Seq<char>> {
        self.names@.map_values(|s: String| s@)
    }

    /// The invariant: the index maps exactly the interned names to their
    /// positions.
    pub closed spec fn wf(&self) -> bool {
        &&& self.names@.len() < u64::MAX
        &&& forall|k: KeyView| #[trigger] self.index.view().contains_key(k) ==> {
            &&& k matches KeyView::Str(s)
            &&& (self.index.view()[k] as int) < self.names@.len()
            &&& self.names@[self.index.view()[k] as int]@ == s
        }
        &&& forall|i: int| 0 <= i < self.names@.len() ==> self.index.view().contains_key(KeyView::Str(#[trigger] self.names@[i]@))
            && self.index.view()[KeyView::Str(self.names@[i]@)] == i
    }

    /// An empty table.
    pub fn new() -> (r: Self)
        ensures
            r.wf(),
            r.names_view().len() == 0,
    {
        InternTable { index: HashTrieMap::empty(), names: Vec::new() }
    }

    /// The identity of `name`: its existing one, or the next one when it
    /// is new (the table then holds it last).
    pub fn intern(&mut self, name: &str) -> (id: u64)
        requires
            old(self).wf(),
            old(self).names_view().len() + 1 < u64::MAX,
        ensures
            final(self).wf(),
            old(self).names_view().contains(name@) ==> final(self).names_view() == old(self).names_view()
                && final(self).names_view()[id as int] == name@,
            !old(self).names_view().contains(name@) ==> final(self).names_view() == old(self).names_view().push(name@)
                && id == old(self).names_view().len(),
            (id as int) < final(self).names_view().len(),
            final(self).names_view()[id as int] == name@,
    {
        let key = Key::Str(copy_string(&String::from_str(name)));
        match self.index.get(&key) {
            Some(id) => {
                let id = *id;
                proof {
                    assert(key@ == KeyView::Str(name@));
                    assert(self.names@[id as int]@ == name@);
                    assert(self.names_view()[id as int] == name@);
                    assert(self.names_view().contains(name@));
                }
                id
            },
            None => {
                proof {
                    if self.names_view().contains(name@) {
                        let i = choose|i: int| 0 <= i < self.names_view().len() && self.names_view()[i] == name@;
                        assert(self.names@[i]@ == name@);
                    }
                }
                let id = self.names.len() as u64;
                let _ = self.index.count();
                proof {
                    assert(self.index.view().dom().subset_of(
                        Set::new(|k: KeyView| exists|i: int| 0 <= i < self.names@.len() && k == KeyView::Str(#[trigger] self.names@[i]@)),
                    ));
                    lemma_index_len(self);
                }
                let ghost old_names = self.names@;
                self.index = self.index.assoc(key, id);
                self.names.push(String::from_str(name));
                proof {
                    assert(self.names_view() =~= old(self).names_view().push(name@));
                    assert forall|k: KeyView| #[trigger] self.index.view().contains_key(k) implies {
                        &&& k matches KeyView::Str(s)
                        &&& (self.index.view()[k] as int) < self.names@.len()
                        &&& self.names@[self.index.view()[k] as int]@ == s
                    } by {
                        if k != KeyView::Str(name@) {
                            assert(old(self).index.view().contains_key(k));
                            assert(self.names@[old(self).index.view()[k] as int] == old_names[old(self).index.view()[k] as int]);
                        }
                    }
                    assert forall|i: int| 0 <= i < self.names@.len() implies self.index.view().contains_key(
                        KeyView::Str(#[trigger] self.names@[i]@),
                    ) && self.index.view()[KeyView::Str(self.names@[i]@)] == i by {
                        if i < old_names.len() {
                            assert(self.names@[i] == old_names[i]);
                            assert(old(self).index.view().contains_key(KeyView::Str(old_names[i]@)));
                        }
                    }
                }
                id
            },
        }
    }

    /// The name interned with identity `id`, if any.
    pub fn name_of(&self, id: u64) -> (r: Option<String>)
        ensures
            match r {
                Some(s) => (id as int) < self.names_view().len() && s@ == self.names_view()[id as int],
                None => id as int >= self.names_view().len(),
            },
    {
        if (id as u128) < (self.names.len() as u128) {
            Some(self.names[id as usize].clone())
        } else {
            None
        }
    }
}

/// The index holds no more keys than there are names.
proof fn lemma_index_len(t: &InternTable)
    requires
        t.wf(),
        t.index.view().dom().finite(),
    ensures
        t.index.view().len() <= t.names@.len(),
{
    let f = |i: int| KeyView::Str(t.names@[i]@);
    let img = Set::new(|k: KeyView| exists|i: int| 0 <= i < t.names@.len() && k == KeyView::Str(#[trigger] t.names@[i]@));
    let idx = Seq::new(t.names@.len(), |i: int| KeyView::Str(t.names@[i]@));
    assert(img =~= idx.to_set()) by {
        assert forall|k: KeyView| img.contains(k) implies idx.to_set().contains(k) by {
            let i = choose|i: int| 0 <= i < t.names@.len() && k == KeyView::Str(#[trigger] t.names@[i]@);
            assert(idx[i] == k);
        }
    }
    idx.lemma_cardinality_of_set();
    assert(t.index.view().dom().subset_of(img)) by {
        assert forall|k: KeyView| t.index.view().dom().contains(k) implies img.contains(k) by {
            let j = t.index.view()[k] as int;
            assert(t.names@[j]@ == k->Str_0);
        }
    }
    vstd::set_lib::lemma_len_subset(t.index.view().dom(), img);
}

/// Different identities stand for different names: an intern table never
/// holds a name twice.
pub proof fn law_interned_names_distinct(t: &InternTable)
    requires
        t.wf(),
    ensures
        t.names_view().no_duplicates(),
{
    assert forall|i: int, j: int|
        0 <= i < t.names_view().len() && 0 <= j < t.names_view().len() && i != j implies t.names_view()[i]
        != t.names_view()[j] by {
        if t.names_view()[i] == t.names_view()[j] {
            assert(t.names@[i]@ == t.names@[j]@);
            assert(t.index.view()[KeyView::Str(t.names@[i]@)] == i);
            assert(t.index.view()[KeyView::Str(t.names@[j]@)] == j);
        }
    }
}

/// The table behind a lazily created global: created empty on first use.
pub fn get_keyword_table(slot: &mut Option<InternTable>)
    requires
        (*old(slot)) matches Some(t) ==> t.wf(),
    ensures
        (*final(slot)) matches Some(t) && t.wf(),
        (*old(slot)) is Some ==> *final(slot) == *old(slot),
        (*old(slot)) is None ==> (*final(slot))->0.names_view().len() == 0,
{
    if slot.is_none() {
        *slot = Some(InternTable::new());
    }
}

/// The symbol table behind a lazily created global: created empty on
/// first use.
pub fn get_symbol_table(slot: &mut Option<InternTable>)
    requires
        (*old(slot)) matches Some(t) ==> t.wf(),
    ensures
        (*final(slot)) matches Some(t) && t.wf(),
        (*old(slot)) is Some ==> *final(slot) == *old(slot),
        (*old(slot)) is None ==> (*final(slot))->0.names_view().len() == 0,
{
    get_keyword_table(slot)
}

/// The names interned so far in a lazily created table.
pub open spec fn slot_names(slot: Option<InternTable>) -> Seq<Seq<char>> {
    match slot {
        Some(t) => t.names_view(),
        None => Seq::empty(),
    }
}

/// Interns a keyword in the (lazily created) keyword table: the same name
/// always gets the same identity.
pub fn intern_keyword(slot: &mut Option<InternTable>, name: &str) -> (id: u64)
    requires
        (*old(slot)) matches Some(t) ==> t.wf(),
        slot_names(*old(slot)).len() + 1 < u64::MAX,
    ensures
        (*final(slot)) matches Some(t) && t.wf(),
        slot_names(*old(slot)).contains(name@) ==> slot_names(*final(slot)) == slot_names(*old(slot)),
        !slot_names(*old(slot)).contains(name@) ==> slot_names(*final(slot)) == slot_names(*old(slot)).push(name@)
            && id == slot_names(*old(slot)).len(),
        (id as int) < slot_names(*final(slot)).len(),
        slot_names(*final(slot))[id as int] == name@,
{
    get_keyword_table(slot);
    match slot {
        Some(t) => t.intern(name),
        None => 0,
    }
}

/// Interns a symbol in the (lazily created) symbol table.
pub fn intern_symbol(slot: &mut Option<InternTable>, name: &str) -> (id: u64)
    requires
        (*old(slot)) matches Some(t) ==> t.wf(),
        slot_names(*old(slot)).len() + 1 < u64::MAX,
    ensures
        (*final(slot)) matches Some(t) && t.wf(),
        slot_names(*old(slot)).contains(name@) ==> slot_names(*final(slot)) == slot_names(*old(slot)),
        !slot_names(*old(slot)).contains(name@) ==> slot_names(*final(slot)) == slot_names(*old(slot)).push(name@)
            && id == slot_names(*old(slot)).len(),
        (id as int) < slot_names(*final(slot)).len(),
        slot_names(*final(slot))[id as int] == name@,
{
    intern_keyword(slot, name)
}

/// `(keyword? v)`.
pub fn clorus_is_keyword(v: &crate::value::Value) -> (r: bool)
    ensures
        r == (*v is Keyword),
{
    match v {
        crate::value::Value::Keyword(_) => true,
        _ => false,
    }
}

/// `(keyword? v)` as 1 or 0.
pub fn clorus_is_keyword_i32(v: &crate::value::Value) -> (r: i32)
    ensures
        r == if *v is Keyword {
            1i32
        } else {
            0i32
        },
{
    if clorus_is_keyword(v) {
        1
    } else {
        0
    }
}

/// The name of a keyword (without the colon); none for other values.
pub fn clorus_keyword_name(v: &crate::value::Value) -> (r: Option<String>)
    ensures
        match *v {
            crate::value::Value::Keyword(k) => r matches Some(s) && s@ == k@,
            _ => r is None,
        },
{
    match v {
        crate::value::Value::Keyword(k) => Some(k.clone()),
        _ => None,
    }
}

/// `(name x)`: the name of a keyword or symbol, or a string itself; none
/// for other values.
pub fn clorus_name(v: &crate::value::Value) -> (r: Option<String>)
    ensures
        match *v {
            crate::value::Value::Keyword(k) => r matches Some(s) && s@ == k@,
            crate::value::Value::Symbol(k) => r matches Some(s) && s@ == k@,
            crate::value::Value::Str(k) => r matches Some(s) && s@ == k@,
            _ => r is None,
        },
{
    match v {
        crate::value::Value::Keyword(k) => Some(k.clone()),
        crate::value::Value::Symbol(k) => Some(k.clone()),
        crate::value::Value::Str(k) => Some(k.clone()),
        _ => None,
    }
}

} // verus!
