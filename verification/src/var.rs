//! Vars: named roots with metadata, and per-thread dynamic bindings that
//! shadow the root while they are in place (`binding`).

use crate::hamt::HashTrieMap;
use crate::key::{Key, KeyView};
use crate::value::Value;
use std::collections::HashMap;
use vstd::prelude::*;

verus! {

broadcast use vstd::std_specs::hash::group_hash_axioms;

/// A var: its name, root value and metadata (by name).
pub struct Var {
    pub(crate) name: String,
    pub(crate) root: Value,
    pub(crate) meta: HashTrieMap<Value>,
}

/// A metadata key as stored: the name as a string key.
pub open spec fn meta_key(name: Seq<char>) -> KeyView {
    KeyView::Str(name)
}

impl Var {
    /// The name.
    pub closed spec fn name_view(&self) -> Seq<char> {
        self.name@
    }

    /// The root value.
    pub closed spec fn root_view(&self) -> Value {
        self.root
    }

    /// The metadata, by name.
    pub closed spec fn meta_view(&self) -> Map<KeyView, Value> {
        self.meta.view()
    }

    /// A var with a root value and no metadata.
    pub fn new(name: String, root: Value) -> (r: Self)
        ensures
            r.name_view() == name@,
            r.root_view() == root,
            r.meta_view() == Map::<KeyView, Value>::empty(),
    {
        Var { name, root, meta: HashTrieMap::empty() }
    }

    /// The root value.
    pub fn get_root(&self) -> (r: Value)
        ensures
            r == self.root_view(),
    {
        self.root.copy()
    }

    /// Replaces the root value.
    pub fn set_root(&mut self, v: Value)
        ensures
            final(self).root_view() == v,
            final(self).meta_view() == old(self).meta_view(),
            final(self).name_view() == old(self).name_view(),
    {
        self.root = v;
    }

    /// The name.
    pub fn name(&self) -> (r: String)
        ensures
            r@ == self.name_view(),
    {
        self.name.clone()
    }

    /// Whether the var is marked dynamic in its metadata.
    pub fn is_dynamic(&self) -> (r: bool)
        ensures
            r == self.meta_view().contains_key(meta_key("dynamic"@)),
    {
        self.meta.contains_key(&Key::Str(crate::text::string_from("dynamic")))
    }

    /// The metadata value of `key`, if any.
    pub fn get_meta(&self, key: &str) -> (r: Option<Value>)
        ensures
            match r {
                Some(v) => self.meta_view().contains_key(meta_key(key@)) && v == self.meta_view()[meta_key(key@)],
                None => !self.meta_view().contains_key(meta_key(key@)),
            },
    {
        match self.meta.get(&Key::Str(crate::text::string_from(key))) {
            Some(v) => Some(v.copy()),
            None => None,
        }
    }

    /// Sets the metadata value of `key`.
    pub fn set_meta(&mut self, key: String, value: Value)
        requires
            old(self).meta_view().len() < u64::MAX,
        ensures
            final(self).meta_view() == old(self).meta_view().insert(meta_key(key@), value),
            final(self).root_view() == old(self).root_view(),
            final(self).name_view() == old(self).name_view(),
    {
        self.meta = self.meta.assoc(Key::Str(key), value);
    }
}

/// The metadata a map gives a var: each keyword or string key's name to
/// its value, taken in the map's order (a later key of the same name wins).
pub open spec fn meta_from_entries(order: Seq<KeyView>, m: Map<KeyView, Value>) -> Map<KeyView, Value>
    decreases order.len(),
{
    if order.len() == 0 {
        Map::empty()
    } else {
        let before = meta_from_entries(order.drop_last(), m);
        match order.last() {
            KeyView::Keyword(s) => before.insert(meta_key(s), m[order.last()]),
            KeyView::Str(s) => before.insert(meta_key(s), m[order.last()]),
            _ => before,
        }
    }
}

impl Var {
    /// `with-meta` on a var: nil clears the metadata; a map replaces it
    /// with its keyword and string entries; any other value changes
    /// nothing.
    pub fn replace_meta_from_map(&mut self, meta_map: &Value)
        ensures
            final(self).root_view() == old(self).root_view(),
            final(self).name_view() == old(self).name_view(),
            match *meta_map {
                Value::Nil => final(self).meta_view() == Map::<KeyView, Value>::empty(),
                Value::HashMap(m) => final(self).meta_view() == meta_from_entries(m.key_order(), m.view()),
                _ => final(self).meta_view() == old(self).meta_view(),
            },
    {
        match meta_map {
            Value::Nil => {
                self.meta = HashTrieMap::empty();
            },
            Value::HashMap(m) => {
                let es = m.entries();
                let ghost order = m.key_order();
                let mut acc: HashTrieMap<Value> = HashTrieMap::empty();
                let mut i: usize = 0;
                proof {
                    assert(order.subrange(0, 0) =~= Seq::<KeyView>::empty());
                }
                while i < es.len()
                    invariant
                        i <= es@.len(),
                        es@.len() == order.len(),
                        order == m.key_order(),
                        forall|t: int| 0 <= t < es@.len() ==> (#[trigger] es@[t]).key@ == order[t],
                        forall|t: int|
                            0 <= t < es@.len() ==> m.view().contains_key((#[trigger] es@[t]).key@)
                                && m.view()[es@[t].key@] == es@[t].val,
                        acc.view() == meta_from_entries(order.subrange(0, i as int), m.view()),
                        acc.view().dom().finite(),
                        acc.view().len() <= i,
                    decreases es.len() - i,
                {
                    proof {
                        assert(order.subrange(0, i + 1).drop_last() =~= order.subrange(0, i as int));
                        assert(order.subrange(0, i + 1).last() == es@[i as int].key@);
                    }
                    let e = &es[i];
                    let _ = acc.count();
                    match &e.key {
                        Key::Keyword(s) => {
                            acc = acc.assoc(Key::Str(s.clone()), e.val.copy());
                        },
                        Key::Str(s) => {
                            acc = acc.assoc(Key::Str(s.clone()), e.val.copy());
                        },
                        _ => {},
                    }
                    i += 1;
                }
                proof {
                    assert(order.subrange(0, es@.len() as int) =~= order);
                }
                self.meta = acc;
            },
            _ => {},
        }
    }
}

/// One thread's dynamic bindings: for each var (by id), the stack of
/// values bound to it, innermost last.
pub struct Bindings {
    pub(crate) stacks: HashMap<usize, Vec<Value>>,
}

impl Bindings {
    /// The binding stacks by var id.
    pub closed spec fn view(&self) -> Map<usize, Seq<Value>> {
        Map::new(|k: usize| self.stacks@.contains_key(k), |k: usize| self.stacks@[k]@)
    }

    /// The invariant: no var keeps an empty stack.
    pub closed spec fn wf(&self) -> bool {
        forall|k: usize| #[trigger] self.stacks@.contains_key(k) ==> self.stacks@[k]@.len() > 0
    }

    /// No bindings.
    pub fn new() -> (r: Self)
        ensures
            r.wf(),
            r@ == Map::<usize, Seq<Value>>::empty(),
    {
        let r = Bindings { stacks: HashMap::new() };
        proof {
            assert(r@ =~= Map::<usize, Seq<Value>>::empty());
        }
        r
    }
}

/// The value of a var: its innermost binding on this thread, or its root.
pub open spec fn var_value(b: Map<usize, Seq<Value>>, id: usize, root: Value) -> Value {
    if b.contains_key(id) && b[id].len() > 0 {
        b[id].last()
    } else {
        root
    }
}

/// `(deref var)`: the innermost binding of the var on this thread, or its
/// root.
pub fn clorus_var_get(b: &Bindings, id: usize, var: &Var) -> (r: Value)
    requires
        b.wf(),
    ensures
        r == var_value(b@, id, var.root_view()),
{
    match b.stacks.get(&id) {
        Some(stack) => {
            if stack.len() > 0 {
                stack[stack.len() - 1].copy()
            } else {
                var.get_root()
            }
        },
        None => var.get_root(),
    }
}

/// `(set! var v)`: replaces the innermost binding when there is one,
/// otherwise the root; gives back `v`.
pub fn clorus_var_set(b: &mut Bindings, id: usize, var: &mut Var, v: Value) -> (r: Value)
    requires
        old(b).wf(),
    ensures
        final(b).wf(),
        r == v,
        final(var).name_view() == old(var).name_view(),
        final(var).meta_view() == old(var).meta_view(),
        old(b)@.contains_key(id) ==> final(b)@ == old(b)@.insert(id, old(b)@[id].update(old(b)@[id].len() - 1, v))
            && final(var).root_view() == old(var).root_view(),
        !old(b)@.contains_key(id) ==> final(b)@ == old(b)@ && final(var).root_view() == v,
{
    match b.stacks.remove(&id) {
        Some(mut stack) => {
            let ghost before = stack@;
            let n = stack.len();
            stack.set(n - 1, v.copy());
            let _ = b.stacks.insert(id, stack);
            proof {
                assert(b@ =~= old(b)@.insert(id, before.update(before.len() - 1, v)));
            }
        },
        None => {
            proof {
                assert(b@ =~= old(b)@);
            }
            var.set_root(v.copy());
        },
    }
    v
}

/// `binding`: binds `v` as the innermost value of the var on this thread.
pub fn clorus_var_push_binding(b: &mut Bindings, id: usize, v: Value)
    requires
        old(b).wf(),
    ensures
        final(b).wf(),
        final(b)@ == old(b)@.insert(
            id,
            if old(b)@.contains_key(id) {
                old(b)@[id]
            } else {
                Seq::<Value>::empty()
            }.push(v),
        ),
{
    let mut stack: Vec<Value> = match b.stacks.remove(&id) {
        Some(s) => s,
        None => Vec::new(),
    };
    let ghost before = stack@;
    stack.push(v);
    let _ = b.stacks.insert(id, stack);
    proof {
        assert(b@ =~= old(b)@.insert(id, before.push(v)));
    }
}

/// The end of a `binding`: removes the innermost binding of the var; a
/// var left without bindings reads its root again.
pub fn clorus_var_pop_binding(b: &mut Bindings, id: usize)
    requires
        old(b).wf(),
    ensures
        final(b).wf(),
        !old(b)@.contains_key(id) ==> final(b)@ == old(b)@,
        old(b)@.contains_key(id) && old(b)@[id].len() == 1 ==> final(b)@ == old(b)@.remove(id),
        old(b)@.contains_key(id) && old(b)@[id].len() > 1 ==> final(b)@ == old(b)@.insert(id, old(b)@[id].drop_last()),
{
    match b.stacks.remove(&id) {
        Some(mut stack) => {
            let ghost before = stack@;
            let _ = stack.pop();
            if stack.len() > 0 {
                let _ = b.stacks.insert(id, stack);
                proof {
                    assert(b@ =~= old(b)@.insert(id, before.drop_last()));
                }
            } else {
                proof {
                    assert(b@ =~= old(b)@.remove(id));
                }
            }
        },
        None => {
            proof {
                assert(b@ =~= old(b)@);
            }
        },
    }
}

/// `binding` shadows: after a push the var reads the bound value; after
/// the matching pop it reads what it read before.
pub proof fn law_binding_push_pop(b: Map<usize, Seq<Value>>, id: usize, root: Value, v: Value)
    requires
        forall|k: usize| #[trigger] b.contains_key(k) ==> b[k].len() > 0,
    ensures
        ({
            let pushed = b.insert(id, if b.contains_key(id) { b[id] } else { Seq::<Value>::empty() }.push(v));
            let popped = if pushed[id].len() == 1 {
                pushed.remove(id)
            } else {
                pushed.insert(id, pushed[id].drop_last())
            };
            &&& var_value(pushed, id, root) == v
            &&& var_value(popped, id, root) == var_value(b, id, root)
        }),
{
    let pushed = b.insert(id, if b.contains_key(id) { b[id] } else { Seq::<Value>::empty() }.push(v));
    if b.contains_key(id) {
        assert(pushed[id].drop_last() =~= b[id]);
    }
}

/// `(var-set-meta var key v)` with a string key; other keys change
/// nothing.
pub fn clorus_var_set_meta(var: &mut Var, key: &Value, value: Value)
    requires
        old(var).meta_view().len() < u64::MAX,
    ensures
        final(var).root_view() == old(var).root_view(),
        final(var).name_view() == old(var).name_view(),
        match *key {
            Value::Str(k) => final(var).meta_view() == old(var).meta_view().insert(meta_key(k@), value),
            _ => final(var).meta_view() == old(var).meta_view(),
        },
{
    match key {
        Value::Str(k) => var.set_meta(k.clone(), value),
        _ => {},
    }
}

/// `(var-dynamic? var)`.
pub fn clorus_var_is_dynamic(var: &Var) -> (r: bool)
    ensures
        r == var.meta_view().contains_key(meta_key("dynamic"@)),
{
    var.is_dynamic()
}

/// The name of a var as a string value.
pub fn clorus_var_name(var: &Var) -> (r: Value)
    ensures
        r matches Value::Str(s) && s@ == var.name_view(),
{
    Value::Str(var.name())
}

/// `(meta var)`: `:name` as a symbol of the var's name, and each metadata
/// entry under a keyword of its name (which wins over `:name`).
pub open spec fn is_var_meta(r: Value, name: Seq<char>, meta: Map<KeyView, Value>) -> bool {
    r matches Value::HashMap(m) && (forall|k: KeyView| #[trigger] m.view().contains_key(k) <==> (k
        == KeyView::Keyword("name"@) || (k matches KeyView::Keyword(s) && meta.contains_key(meta_key(s)))))
        && (forall|s: Seq<char>| #[trigger] meta.contains_key(meta_key(s)) ==> m.view()[KeyView::Keyword(s)]
        == meta[meta_key(s)]) && (!meta.contains_key(meta_key("name"@)) ==> is_symbol_named(
        m.view()[KeyView::Keyword("name"@)],
        name,
    ))
}

/// A symbol value with the given name.
pub open spec fn is_symbol_named(v: Value, name: Seq<char>) -> bool {
    v matches Value::Symbol(sym) && sym@ == name
}

/// `(meta var)` (see [`is_var_meta`]).
pub fn clorus_var_meta(var: &Var) -> (r: Value)
    requires
        var.meta_view().len() + 1 < u64::MAX,
    ensures
        is_var_meta(r, var.name_view(), var.meta_view()),
{
    let es = crate::map_ops::ordered_entries(&var.meta);
    let ghost meta = var.meta_view();
    let ghost name = var.name_view();
    proof {
        crate::map_ops::lemma_key_order_len(var.meta.view(), var.meta.key_order());
        reveal_strlit("name");
        assert forall|k: KeyView| #[trigger] meta.contains_key(k) implies exists|t: int| 0 <= t < es@.len() && (#[trigger] es@[t]).key@ == k by {
            assert(var.meta.key_order().contains(k));
            let j = choose|j: int| 0 <= j < var.meta.key_order().len() && var.meta.key_order()[j] == k;
            assert(es@[j].key@ == k);
        }
        assert forall|a: int, b: int| 0 <= a < es@.len() && 0 <= b < es@.len() && a != b implies (#[trigger] es@[a]).key@ != (#[trigger] es@[b]).key@ by {
            assert(var.meta.key_order()[a] != var.meta.key_order()[b]);
        }
    }
    let mut acc: HashTrieMap<Value> = HashTrieMap::empty();
    acc = acc.assoc(Key::Keyword(crate::text::string_from("name")), Value::Symbol(var.name()));
    let ghost name_key = KeyView::Keyword("name"@);
    let mut i: usize = 0;
    proof {
        assert(acc.view() =~= Map::<KeyView, Value>::empty().insert(name_key, acc.view()[name_key]));
    }
    while i < es.len()
        invariant
            i <= es@.len(),
            meta == var.meta_view(),
            name == var.name_view(),
            name_key == KeyView::Keyword("name"@),
            es@.len() == meta.len(),
            meta.len() + 1 < u64::MAX,
            forall|a: int, b: int| 0 <= a < es@.len() && 0 <= b < es@.len() && a != b ==> (#[trigger] es@[a]).key@ != (#[trigger] es@[b]).key@,
            forall|t: int| 0 <= t < es@.len() ==> meta.contains_key((#[trigger] es@[t]).key@) && meta[es@[t].key@] == es@[t].val,
            forall|k: KeyView| #[trigger] meta.contains_key(k) ==> exists|t: int| 0 <= t < es@.len() && (#[trigger] es@[t]).key@ == k,
            acc.view().dom().finite(),
            acc.view().len() <= i + 1,
            forall|k: KeyView| #[trigger] acc.view().contains_key(k) <==> (k == name_key || (k matches KeyView::Keyword(s)
                && exists|t: int| 0 <= t < i && (#[trigger] es@[t]).key@ == meta_key(s))),
            forall|t: int| 0 <= t < i && (#[trigger] es@[t]).key@ is Str ==> acc.view()[KeyView::Keyword(es@[t].key@->Str_0)] == es@[t].val,
            (forall|t: int| 0 <= t < i ==> (#[trigger] es@[t]).key@ != meta_key("name"@)) ==> is_symbol_named(acc.view()[name_key], name),
        decreases es.len() - i,
    {
        let e = &es[i];
        let ghost before = acc.view();
        let _ = acc.count();
        match &e.key {
            Key::Str(s) => {
                let ghost sv = s@;
                acc = acc.assoc(Key::Keyword(s.clone()), e.val.copy());
                proof {
                    assert(es@[i as int].key@ == meta_key(sv));
                    assert forall|k: KeyView| #[trigger] acc.view().contains_key(k) <==> (k == name_key || (k matches KeyView::Keyword(s2)
                        && exists|t: int| 0 <= t < i + 1 && (#[trigger] es@[t]).key@ == meta_key(s2))) by {
                        if k == KeyView::Keyword(sv) {
                            assert(es@[i as int].key@ == meta_key(sv));
                        }
                        if let KeyView::Keyword(s2) = k {
                            if exists|t: int| 0 <= t < i + 1 && (#[trigger] es@[t]).key@ == meta_key(s2) {
                                let t = choose|t: int| 0 <= t < i + 1 && (#[trigger] es@[t]).key@ == meta_key(s2);
                                if t < i {
                                    assert(before.contains_key(k));
                                }
                            }
                        }
                    }
                    assert forall|t: int| 0 <= t < i + 1 && (#[trigger] es@[t]).key@ is Str implies acc.view()[KeyView::Keyword(es@[t].key@->Str_0)] == es@[t].val by {
                        if t < i {
                            assert(es@[t].key@ != es@[i as int].key@);
                        }
                    }
                }
            },
            _ => {
                proof {
                    assert forall|k: KeyView| #[trigger] acc.view().contains_key(k) <==> (k == name_key || (k matches KeyView::Keyword(s2)
                        && exists|t: int| 0 <= t < i + 1 && (#[trigger] es@[t]).key@ == meta_key(s2))) by {
                        if let KeyView::Keyword(s2) = k {
                            if exists|t: int| 0 <= t < i + 1 && (#[trigger] es@[t]).key@ == meta_key(s2) {
                                let t = choose|t: int| 0 <= t < i + 1 && (#[trigger] es@[t]).key@ == meta_key(s2);
                                assert(t != i);
                            }
                        }
                    }
                }
            },
        }
        i += 1;
    }
    let r = Value::HashMap(acc);
    proof {
        assert forall|k: KeyView| #[trigger] acc.view().contains_key(k) <==> (k == name_key || (k matches KeyView::Keyword(s)
            && meta.contains_key(meta_key(s)))) by {
            if let KeyView::Keyword(s) = k {
                if meta.contains_key(meta_key(s)) {
                    let t = choose|t: int| 0 <= t < es@.len() && (#[trigger] es@[t]).key@ == meta_key(s);
                }
            }
        }
        assert forall|s: Seq<char>| #[trigger] meta.contains_key(meta_key(s)) implies acc.view()[KeyView::Keyword(s)] == meta[meta_key(s)] by {
            let t = choose|t: int| 0 <= t < es@.len() && (#[trigger] es@[t]).key@ == meta_key(s);
            assert(es@[t].key@ is Str);
        }
        if !meta.contains_key(meta_key("name"@)) {
            assert forall|t: int| 0 <= t < es@.len() implies (#[trigger] es@[t]).key@ != meta_key("name"@) by {}
        }
    }
    r
}

} // verus!
