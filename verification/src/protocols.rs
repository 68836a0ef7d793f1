//! The protocol registry: which function implements a protocol method for
//! a type, for method dispatch.

use crate::text::{copy_string, same_text};
use vstd::prelude::*;

verus! {

/// A registry key: type name, protocol name and method name.
pub type MethodKey = (Seq<char>, Seq<char>, Seq<char>);

/// One registered method implementation.
pub struct ProtocolMethod {
    pub ty_name: String,
    pub protocol_name: String,
    pub method_name: String,
    pub fn_ptr: usize,
}

/// The key of a registered method.
pub open spec fn method_key(m: ProtocolMethod) -> MethodKey {
    (m.ty_name@, m.protocol_name@, m.method_name@)
}

/// No key is registered twice.
pub open spec fn keys_unique(s: Seq<ProtocolMethod>) -> bool {
    forall|i: int, j: int|
        0 <= i < s.len() && 0 <= j < s.len() && i != j ==> method_key(#[trigger] s[i])
            != method_key(#[trigger] s[j])
}

/// Whether `k` is registered in `s`.
pub open spec fn has_key(s: Seq<ProtocolMethod>, k: MethodKey) -> bool {
    exists|i: int| 0 <= i < s.len() && method_key(#[trigger] s[i]) == k
}

/// The function registered for each key.
pub open spec fn registry_map(s: Seq<ProtocolMethod>) -> Map<MethodKey, usize> {
    Map::new(
        |k: MethodKey| has_key(s, k),
        |k: MethodKey| s[choose|i: int| 0 <= i < s.len() && method_key(#[trigger] s[i]) == k].fn_ptr,
    )
}

/// Maps (type name, protocol name, method name) to a function.
pub struct ProtocolRegistry {
    pub(crate) methods: Vec<ProtocolMethod>,
}

/// In a registry without repeated keys, a key's function is that of the
/// entry that holds it.
proof fn lemma_registry_value(s: Seq<ProtocolMethod>, i: int)
    requires
        keys_unique(s),
        0 <= i < s.len(),
    ensures
        registry_map(s).contains_key(method_key(s[i])),
        registry_map(s)[method_key(s[i])] == s[i].fn_ptr,
{
    let k = method_key(s[i]);
    assert(has_key(s, k));
    let j = choose|j: int| 0 <= j < s.len() && method_key(#[trigger] s[j]) == k;
    assert(j == i);
}

impl ProtocolRegistry {
    /// The registered functions.
    pub closed spec fn view(&self) -> Map<MethodKey, usize> {
        registry_map(self.methods@)
    }

    /// The registry's invariant: no key is registered twice.
    pub closed spec fn wf(&self) -> bool {
        keys_unique(self.methods@)
    }

    /// An empty registry.
    pub fn new() -> (r: Self)
        ensures
            r.wf(),
            r@ == Map::<MethodKey, usize>::empty(),
    {
        let r = ProtocolRegistry { methods: Vec::new() };
        proof {
            assert(r@ =~= Map::<MethodKey, usize>::empty());
        }
        r
    }

    /// Index of the entry registered under the given key, if any.
    fn find(&self, ty_name: &str, protocol_name: &str, method_name: &str) -> (r: Option<usize>)
        requires
            self.wf(),
        ensures
            match r {
                Some(i) => i < self.methods@.len() && method_key(self.methods@[i as int]) == (
                ty_name@,
                protocol_name@,
                method_name@,
                ),
                None => !has_key(self.methods@, (ty_name@, protocol_name@, method_name@)),
            },
    {
        let mut i: usize = 0;
        while i < self.methods.len()
            invariant
                i <= self.methods@.len(),
                forall|j: int|
                    0 <= j < i ==> method_key(#[trigger] self.methods@[j]) != (
                        ty_name@,
                        protocol_name@,
                        method_name@,
                    ),
            decreases self.methods.len() - i,
        {
            let m = &self.methods[i];
            if same_text(m.ty_name.as_str(), ty_name) && same_text(
                m.protocol_name.as_str(),
                protocol_name,
            ) && same_text(m.method_name.as_str(), method_name) {
                return Some(i);
            }
            i += 1;
        }
        None
    }

    /// Registers `fn_ptr` as the implementation of the method for the
    /// type, replacing an earlier registration of the same key.
    pub fn register_method(
        &mut self,
        ty_name: String,
        protocol_name: String,
        method_name: String,
        fn_ptr: usize,
    )
        requires
            old(self).wf(),
        ensures
            final(self).wf(),
            final(self)@ == old(self)@.insert((ty_name@, protocol_name@, method_name@), fn_ptr),
    {
        let ghost k = (ty_name@, protocol_name@, method_name@);
        let ghost s0 = self.methods@;
        let found = self.find(ty_name.as_str(), protocol_name.as_str(), method_name.as_str());
        let entry = ProtocolMethod { ty_name, protocol_name, method_name, fn_ptr };
        match found {
            Some(i) => {
                self.methods.set(i, entry);
                proof {
                    let s1 = self.methods@;
                    assert forall|a: int, b: int|
                        0 <= a < s1.len() && 0 <= b < s1.len() && a != b implies method_key(
                            #[trigger] s1[a],
                        ) != method_key(#[trigger] s1[b]) by {
                        if a != i && b != i {
                            assert(s1[a] == s0[a] && s1[b] == s0[b]);
                        } else if a == i {
                            assert(s1[b] == s0[b]);
                        } else {
                            assert(s1[a] == s0[a]);
                        }
                    }
                    assert forall|q: MethodKey| #[trigger] registry_map(s1).contains_key(q)
                        == registry_map(s0).insert(k, fn_ptr).contains_key(q) by {
                        if q != k {
                            if has_key(s0, q) {
                                let j = choose|j: int| 0 <= j < s0.len() && method_key(#[trigger] s0[j]) == q;
                                assert(j != i);
                                assert(s1[j] == s0[j]);
                            }
                            if has_key(s1, q) {
                                let j = choose|j: int| 0 <= j < s1.len() && method_key(#[trigger] s1[j]) == q;
                                assert(j != i);
                                assert(s1[j] == s0[j]);
                            }
                        } else {
                            assert(method_key(s1[i as int]) == k);
                        }
                    }
                    assert forall|q: MethodKey| #[trigger] registry_map(s1).contains_key(q)
                        implies registry_map(s1)[q] == registry_map(s0).insert(k, fn_ptr)[q] by {
                        let j = choose|j: int| 0 <= j < s1.len() && method_key(#[trigger] s1[j]) == q;
                        lemma_registry_value(s1, j);
                        if q != k {
                            assert(j != i);
                            assert(s1[j] == s0[j]);
                            lemma_registry_value(s0, j);
                        } else {
                            assert(j == i);
                        }
                    }
                    assert(registry_map(s1) =~= registry_map(s0).insert(k, fn_ptr));
                }
            },
            None => {
                self.methods.push(entry);
                proof {
                    let s1 = self.methods@;
                    let n = s0.len() as int;
                    assert forall|a: int, b: int|
                        0 <= a < s1.len() && 0 <= b < s1.len() && a != b implies method_key(
                            #[trigger] s1[a],
                        ) != method_key(#[trigger] s1[b]) by {
                        if a != n && b != n {
                            assert(s1[a] == s0[a] && s1[b] == s0[b]);
                        } else if a == n {
                            assert(s1[b] == s0[b]);
                        } else {
                            assert(s1[a] == s0[a]);
                        }
                    }
                    assert forall|q: MethodKey| #[trigger] registry_map(s1).contains_key(q)
                        == registry_map(s0).insert(k, fn_ptr).contains_key(q) by {
                        if has_key(s0, q) {
                            let j = choose|j: int| 0 <= j < s0.len() && method_key(#[trigger] s0[j]) == q;
                            assert(s1[j] == s0[j]);
                        }
                        if has_key(s1, q) && q != k {
                            let j = choose|j: int| 0 <= j < s1.len() && method_key(#[trigger] s1[j]) == q;
                            assert(j != n);
                            assert(s1[j] == s0[j]);
                        }
                        if q == k {
                            assert(method_key(s1[n]) == k);
                        }
                    }
                    assert forall|q: MethodKey| #[trigger] registry_map(s1).contains_key(q)
                        implies registry_map(s1)[q] == registry_map(s0).insert(k, fn_ptr)[q] by {
                        let j = choose|j: int| 0 <= j < s1.len() && method_key(#[trigger] s1[j]) == q;
                        lemma_registry_value(s1, j);
                        if q != k {
                            assert(j != n);
                            assert(s1[j] == s0[j]);
                            lemma_registry_value(s0, j);
                        } else {
                            assert(j == n);
                        }
                    }
                    assert(registry_map(s1) =~= registry_map(s0).insert(k, fn_ptr));
                }
            },
        }
    }

    /// The function registered for the method of the type, if any.
    pub fn lookup_method(&self, ty_name: &str, protocol_name: &str, method_name: &str) -> (r:
        Option<usize>)
        requires
            self.wf(),
        ensures
            r == if self@.contains_key((ty_name@, protocol_name@, method_name@)) {
                Some(self@[(ty_name@, protocol_name@, method_name@)])
            } else {
                None::<usize>
            },
    {
        match self.find(ty_name, protocol_name, method_name) {
            Some(i) => {
                proof {
                    lemma_registry_value(self.methods@, i as int);
                }
                Some(self.methods[i].fn_ptr)
            },
            None => None,
        }
    }
}

/// After a method is registered, looking it up finds the function just
/// registered; every other key finds what it found before.
pub proof fn law_register_then_lookup(m: Map<MethodKey, usize>, k: MethodKey, f: usize, other: MethodKey)
    requires
        other != k,
    ensures
        m.insert(k, f).contains_key(k) && m.insert(k, f)[k] == f,
        m.insert(k, f).contains_key(other) == m.contains_key(other),
        m.contains_key(other) ==> m.insert(k, f)[other] == m[other],
{
}

} // verus!
