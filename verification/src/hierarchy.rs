//! Ad-hoc hierarchies (`derive`, `underive`, `isa?`, `parents`,
//! `ancestors`, `descendants`): a graph from each scalar key to its direct
//! parents. `derive` refuses an edge that would close a cycle.

use crate::hamt::HashTrieMap;
use crate::key::{Key, KeyView};
use crate::equality::{deep_eq, equals};
use crate::set::HashTrieSet;
use crate::value::Value;
use vstd::prelude::*;
use vstd::set_lib::lemma_len_subset;

verus! {

/// A hierarchy: each key's set of direct parents.
pub type Graph = Map<KeyView, Set<KeyView>>;

/// `b` is a direct parent of `a`.
pub open spec fn edge(g: Graph, a: KeyView, b: KeyView) -> bool {
    g.contains_key(a) && g[a].contains(b)
}

/// `p` is a path of parent steps from `a` to `b`.
pub open spec fn is_path(g: Graph, p: Seq<KeyView>, a: KeyView, b: KeyView) -> bool {
    &&& p.len() >= 1
    &&& p[0] == a
    &&& p.last() == b
    &&& forall|i: int| 0 <= i < p.len() - 1 ==> edge(g, #[trigger] p[i], p[i + 1])
}

/// `a` isa `b`: `b` is `a` or one of its ancestors.
pub open spec fn reaches(g: Graph, a: KeyView, b: KeyView) -> bool {
    exists|p: Seq<KeyView>| #[trigger] is_path(g, p, a, b)
}

/// `b` is a proper ancestor of `a`: reached in one or more steps.
pub open spec fn reaches_plus(g: Graph, a: KeyView, b: KeyView) -> bool {
    exists|c: KeyView| #[trigger] reaches(g, a, c) && edge(g, c, b)
}

/// Every node reaches itself.
pub proof fn lemma_reach_refl(g: Graph, a: KeyView)
    ensures
        reaches(g, a, a),
{
    assert(is_path(g, seq![a], a, a));
}

/// One more parent step extends a path.
pub proof fn lemma_reach_step(g: Graph, a: KeyView, c: KeyView, b: KeyView)
    requires
        reaches(g, a, c),
        edge(g, c, b),
    ensures
        reaches(g, a, b),
{
    let p = choose|p: Seq<KeyView>| #[trigger] is_path(g, p, a, c);
    let q = p.push(b);
    assert forall|i: int| 0 <= i < q.len() - 1 implies edge(g, #[trigger] q[i], q[i + 1]) by {
        if i < p.len() - 1 {
            assert(q[i] == p[i] && q[i + 1] == p[i + 1]);
        }
    }
    assert(is_path(g, q, a, b));
}

/// A set that holds the start of a path and every parent of its members
/// holds every node of the path from index `i` back.
proof fn lemma_closed_holds_prefix(g: Graph, s: Set<KeyView>, p: Seq<KeyView>, a: KeyView, b: KeyView, i: int)
    requires
        s.contains(a),
        forall|v: KeyView, q: KeyView| s.contains(v) && #[trigger] edge(g, v, q) ==> s.contains(q),
        is_path(g, p, a, b),
        0 <= i < p.len(),
    ensures
        s.contains(p[i]),
    decreases i,
{
    if i > 0 {
        lemma_closed_holds_prefix(g, s, p, a, b, i - 1);
        assert(edge(g, p[i - 1], p[i]));
    }
}

/// A set that holds `a` and every parent of its members holds every node
/// reached from `a`.
pub proof fn lemma_closed_holds_reached(g: Graph, s: Set<KeyView>, a: KeyView, b: KeyView)
    requires
        s.contains(a),
        forall|v: KeyView, q: KeyView| s.contains(v) && #[trigger] edge(g, v, q) ==> s.contains(q),
        reaches(g, a, b),
    ensures
        s.contains(b),
{
    let p = choose|p: Seq<KeyView>| #[trigger] is_path(g, p, a, b);
    lemma_closed_holds_prefix(g, s, p, a, b, p.len() - 1);
}

/// Reaching is reaching `b` itself or reaching it in one or more steps.
pub proof fn lemma_reaches_cases(g: Graph, a: KeyView, b: KeyView)
    ensures
        reaches(g, a, b) <==> (a == b || reaches_plus(g, a, b)),
{
    if reaches(g, a, b) && a != b {
        let p = choose|p: Seq<KeyView>| #[trigger] is_path(g, p, a, b);
        let q = p.drop_last();
        let c = q.last();
        assert forall|i: int| 0 <= i < q.len() - 1 implies edge(g, #[trigger] q[i], q[i + 1]) by {
            assert(q[i] == p[i] && q[i + 1] == p[i + 1]);
        }
        assert(is_path(g, q, a, c));
        assert(edge(g, p[p.len() - 2], p[p.len() - 1]));
        assert(reaches(g, a, c) && edge(g, c, b));
    }
    if a == b {
        lemma_reach_refl(g, a);
    }
    if reaches_plus(g, a, b) {
        let c = choose|c: KeyView| #[trigger] reaches(g, a, c) && edge(g, c, b);
        lemma_reach_step(g, a, c, b);
    }
}

/// Whether `x` is held somewhere in `s`.
pub open spec fn in_keys(s: Seq<Key>, x: KeyView) -> bool {
    exists|i: int| 0 <= i < s.len() && (#[trigger] s[i])@ == x
}

/// Ad-hoc hierarchy: each key's direct parents, and every key that the
/// hierarchy has mentioned.
pub struct Hierarchy {
    pub(crate) parents: HashTrieMap<HashTrieSet>,
    pub(crate) nodes: HashTrieSet,
}

impl Hierarchy {
    /// Each key's set of direct parents.
    pub closed spec fn view(&self) -> Graph {
        Map::new(|k: KeyView| self.parents.view().contains_key(k), |k: KeyView| self.parents.view()[k].view())
    }

    /// Every key that has been a child or a parent.
    pub closed spec fn node_set(&self) -> Set<KeyView> {
        self.nodes.view()
    }

    /// The invariant: every child and parent is a known node, and no key
    /// has an empty set of parents.
    pub closed spec fn wf(&self) -> bool {
        &&& self.nodes.view().finite()
        &&& self.nodes.view().len() + 4 <= u64::MAX
        &&& forall|k: KeyView| #[trigger] self.parents.view().contains_key(k) ==> {
            &&& self.nodes.view().contains(k)
            &&& self.parents.view()[k].view().subset_of(self.nodes.view())
            &&& !self.parents.view()[k].view().is_empty()
        }
    }

    /// An empty hierarchy.
    pub fn new() -> (r: Self)
        ensures
            r.wf(),
            r@ == Map::<KeyView, Set<KeyView>>::empty(),
    {
        let r = Hierarchy { parents: HashTrieMap::empty(), nodes: HashTrieSet::empty() };
        proof {
            assert(r@ =~= Map::<KeyView, Set<KeyView>>::empty());
        }
        r
    }

    /// Pushes the direct parents of `cur` on `stack`, or reports that
    /// `parent` is one of them.
    fn push_parents(
        &self,
        cur: &Key,
        parent: &Key,
        stack: &mut Vec<Key>,
        Ghost(child): Ghost<KeyView>,
        Ghost(univ): Ghost<Set<KeyView>>,
    ) -> (found: bool)
        requires
            self.wf(),
            reaches(self@, child, cur@),
            univ == self.node_set().insert(child),
            forall|i: int| 0 <= i < old(stack)@.len() ==> univ.contains((#[trigger] old(stack)@[i])@),
            forall|i: int| 0 <= i < old(stack)@.len() ==> reaches(self@, child, (#[trigger] old(stack)@[i])@),
        ensures
            found == edge(self@, cur@, parent@),
            found ==> reaches(self@, child, parent@),
            !found ==> forall|k: KeyView| #[trigger] edge(self@, cur@, k) ==> in_keys(final(stack)@, k),
            final(stack)@.len() >= old(stack)@.len(),
            forall|i: int| 0 <= i < old(stack)@.len() ==> #[trigger] final(stack)@[i] == old(stack)@[i],
            forall|i: int| 0 <= i < final(stack)@.len() ==> univ.contains((#[trigger] final(stack)@[i])@),
            forall|i: int| 0 <= i < final(stack)@.len() ==> reaches(self@, child, (#[trigger] final(stack)@[i])@),
    {
        let ghost g = self@;
        let ghost s1 = stack@;
        match self.parents.get(cur) {
            None => false,
            Some(ps) => {
                let pv = ps.values();
                let mut j: usize = 0;
                while j < pv.len()
                    invariant
                        self.wf(),
                        g == self@,
                        univ == self.node_set().insert(child),
                        self.parents.view().contains_key(cur@),
                        *ps == self.parents.view()[cur@],
                        reaches(g, child, cur@),
                        j <= pv@.len(),
                        forall|t: int| 0 <= t < pv@.len() ==> ps.view().contains((#[trigger] pv@[t])@),
                        forall|k: KeyView| #[trigger] ps.view().contains(k) ==> exists|t: int|
                            0 <= t < pv@.len() && (#[trigger] pv@[t])@ == k,
                        s1 == old(stack)@,
                        stack@.len() >= s1.len(),
                        forall|i: int| 0 <= i < s1.len() ==> #[trigger] stack@[i] == s1[i],
                        forall|t: int| 0 <= t < j ==> in_keys(stack@, (#[trigger] pv@[t])@),
                        forall|t: int| 0 <= t < j ==> (#[trigger] pv@[t])@ != parent@,
                        forall|i: int| 0 <= i < stack@.len() ==> univ.contains((#[trigger] stack@[i])@),
                        forall|i: int| 0 <= i < stack@.len() ==> reaches(g, child, (#[trigger] stack@[i])@),
                    decreases pv.len() - j,
                {
                    let p = &pv[j];
                    if p.equals(parent) {
                        proof {
                            assert(edge(g, cur@, parent@));
                            lemma_reach_step(g, child, cur@, parent@);
                        }
                        return true;
                    }
                    let ghost st = stack@;
                    stack.push(p.copy());
                    proof {
                        assert(edge(g, cur@, p@));
                        lemma_reach_step(g, child, cur@, p@);
                        assert(self.parents.view()[cur@].view().subset_of(self.nodes.view()));
                        assert(stack@[st.len() as int]@ == p@);
                        assert forall|t: int| 0 <= t < j + 1 implies in_keys(stack@, (#[trigger] pv@[t])@) by {
                            if t < j {
                                let i = choose|i: int| 0 <= i < st.len() && (#[trigger] st[i])@ == pv@[t]@;
                                assert(stack@[i] == st[i]);
                            }
                        }
                    }
                    j += 1;
                }
                proof {
                    assert forall|k: KeyView| #[trigger] edge(g, cur@, k) implies in_keys(stack@, k) && k != parent@ by {
                        assert(ps.view().contains(k));
                        let t = choose|t: int| 0 <= t < pv@.len() && (#[trigger] pv@[t])@ == k;
                    }
                }
                false
            },
        }
    }

    /// Whether `child` isa `parent`: they are equal or `parent` is an
    /// ancestor of `child`. A depth-first search over the parent edges.
    pub fn isa_key(&self, child: &Key, parent: &Key) -> (r: bool)
        requires
            self.wf(),
        ensures
            r == reaches(self@, child@, parent@),
    {
        let ghost g = self@;
        proof {
            lemma_reaches_cases(g, child@, parent@);
            lemma_reach_refl(g, child@);
        }
        if child.equals(parent) {
            return true;
        }
        let _ = self.nodes.count();
        let ghost univ = self.node_set().insert(child@);
        let mut visited = HashTrieSet::empty();
        let mut stack: Vec<Key> = Vec::new();
        stack.push(child.copy());
        proof {
            assert(stack@[0]@ == child@);
        }
        loop
            invariant
                self.wf(),
                g == self@,
                child@ != parent@,
                univ == self.node_set().insert(child@),
                univ.finite(),
                visited.view().subset_of(univ),
                forall|i: int| 0 <= i < stack@.len() ==> univ.contains((#[trigger] stack@[i])@),
                forall|i: int| 0 <= i < stack@.len() ==> reaches(g, child@, (#[trigger] stack@[i])@),
                forall|v: KeyView| #[trigger] visited.view().contains(v) ==> reaches(g, child@, v),
                forall|v: KeyView| #[trigger] visited.view().contains(v) ==> !edge(g, v, parent@),
                visit_closed(g, visited.view(), stack@),
                visited.view().contains(child@) || in_keys(stack@, child@),
            ensures
                !reaches(g, child@, parent@),
            decreases univ.len() - visited.view().len(), stack@.len(),
        {
            let ghost s0 = stack@;
            let ghost vis0 = visited.view();
            let cur = match stack.pop() {
                Some(k) => k,
                None => {
                    proof {
                        lemma_search_done(g, visited.view(), child@, parent@);
                    }
                    break;
                },
            };
            proof {
                assert(cur == s0.last());
                assert(stack@ =~= s0.drop_last());
                assert(univ.contains(s0[s0.len() - 1]@));
                assert(reaches(g, child@, s0[s0.len() - 1]@));
            }
            if visited.contains(&cur) {
                proof {
                    lemma_pop_visited(g, vis0, s0, child@);
                }
                continue;
            }
            proof {
                lemma_len_subset(vis0, univ);
                lemma_len_subset(vis0.insert(cur@), univ);
                assert(univ.len() <= self.node_set().len() + 1);
            }
            visited = visited.conj(cur.copy());
            let found = self.push_parents(&cur, parent, &mut stack, Ghost(child@), Ghost(univ));
            if found {
                return true;
            }
            proof {
                lemma_visit_new(g, vis0, s0, stack@, child@);
            }
        }
        false
    }
}

/// Every parent of a visited node is visited or waiting on the stack.
pub open spec fn visit_closed(g: Graph, vis: Set<KeyView>, stack: Seq<Key>) -> bool {
    forall|v: KeyView, p: KeyView|
        vis.contains(v) && #[trigger] edge(g, v, p) ==> vis.contains(p) || in_keys(stack, p)
}

/// With nothing left on the stack, the visited nodes hold everything
/// reached from `child`, and none of them has `parent` as a parent.
proof fn lemma_search_done(g: Graph, vis: Set<KeyView>, child: KeyView, parent: KeyView)
    requires
        child != parent,
        visit_closed(g, vis, Seq::<Key>::empty()),
        vis.contains(child) || in_keys(Seq::<Key>::empty(), child),
        forall|v: KeyView| #[trigger] vis.contains(v) ==> !edge(g, v, parent),
    ensures
        !reaches(g, child, parent),
{
    lemma_reaches_cases(g, child, parent);
    if reaches(g, child, parent) {
        let c = choose|c: KeyView| #[trigger] reaches(g, child, c) && edge(g, c, parent);
        assert forall|v: KeyView, q: KeyView| vis.contains(v) && #[trigger] edge(g, v, q) implies vis.contains(q) by {
            assert(!in_keys(Seq::<Key>::empty(), q));
        }
        lemma_closed_holds_reached(g, vis, child, c);
    }
}

/// Dropping the top of the stack when it was already visited keeps the
/// search's closure.
proof fn lemma_pop_visited(g: Graph, vis: Set<KeyView>, s0: Seq<Key>, child: KeyView)
    requires
        s0.len() > 0,
        vis.contains(s0.last()@),
        visit_closed(g, vis, s0),
        vis.contains(child) || in_keys(s0, child),
    ensures
        visit_closed(g, vis, s0.drop_last()),
        vis.contains(child) || in_keys(s0.drop_last(), child),
{
    let s1 = s0.drop_last();
    assert forall|v: KeyView, p: KeyView| vis.contains(v) && #[trigger] edge(g, v, p) implies vis.contains(p)
        || in_keys(s1, p) by {
        if !vis.contains(p) {
            let i = choose|i: int| 0 <= i < s0.len() && (#[trigger] s0[i])@ == p;
            assert(s1[i] == s0[i]);
        }
    }
    if !vis.contains(child) {
        let i = choose|i: int| 0 <= i < s0.len() && (#[trigger] s0[i])@ == child;
        assert(s1[i] == s0[i]);
    }
}

/// Visiting the top of the stack and pushing all of its parents keeps the
/// search's closure.
proof fn lemma_visit_new(g: Graph, vis0: Set<KeyView>, s0: Seq<Key>, s2: Seq<Key>, child: KeyView)
    requires
        s0.len() > 0,
        visit_closed(g, vis0, s0),
        vis0.contains(child) || in_keys(s0, child),
        s2.len() >= s0.len() - 1,
        forall|i: int| 0 <= i < s0.len() - 1 ==> #[trigger] s2[i] == s0[i],
        forall|k: KeyView| #[trigger] edge(g, s0.last()@, k) ==> in_keys(s2, k),
    ensures
        visit_closed(g, vis0.insert(s0.last()@), s2),
        vis0.insert(s0.last()@).contains(child) || in_keys(s2, child),
{
    let cur = s0.last()@;
    let vis1 = vis0.insert(cur);
    assert forall|v: KeyView, p: KeyView| vis1.contains(v) && #[trigger] edge(g, v, p) implies vis1.contains(p)
        || in_keys(s2, p) by {
        if v != cur && !vis1.contains(p) {
            let i = choose|i: int| 0 <= i < s0.len() && (#[trigger] s0[i])@ == p;
            if i == s0.len() - 1 {
                assert(p == cur);
            } else {
                assert(s2[i] == s0[i]);
            }
        }
    }
    if !vis0.contains(child) && child != cur {
        let i = choose|i: int| 0 <= i < s0.len() && (#[trigger] s0[i])@ == child;
        assert(i != s0.len() - 1);
        assert(s2[i] == s0[i]);
    }
}


/// The value a hierarchy key reads back as: symbols come back as
/// strings, every other key as itself.
pub open spec fn decode_key(k: KeyView) -> KeyView {
    match k {
        KeyView::Symbol(s) => KeyView::Str(s),
        _ => k,
    }
}

/// The keys of `s`, read back.
pub open spec fn decoded(s: Set<KeyView>) -> Set<KeyView> {
    Set::new(|x: KeyView| exists|k: KeyView| #[trigger] s.contains(k) && decode_key(k) == x)
}

/// The proper ancestors of `a`.
pub open spec fn ancestor_set(g: Graph, a: KeyView) -> Set<KeyView> {
    Set::new(|x: KeyView| reaches_plus(g, a, x))
}

/// The proper descendants of `a`.
pub open spec fn descendant_set(g: Graph, a: KeyView) -> Set<KeyView> {
    Set::new(|x: KeyView| x != a && reaches(g, x, a))
}

/// The hierarchy after `derive`: unchanged when the edge would join a key
/// to itself or close a cycle; otherwise `parent` joins `child`'s parents.
pub open spec fn derived(g: Graph, child: KeyView, parent: KeyView) -> Graph {
    if child == parent || reaches(g, parent, child) {
        g
    } else {
        g.insert(
            child,
            if g.contains_key(child) {
                g[child]
            } else {
                Set::empty()
            }.insert(parent),
        )
    }
}

/// The hierarchy after `underive`: `parent` leaves `child`'s parents, and
/// a key left without parents leaves the hierarchy.
pub open spec fn underived(g: Graph, child: KeyView, parent: KeyView) -> Graph {
    if g.contains_key(child) {
        if g[child].remove(parent).is_empty() {
            g.remove(child)
        } else {
            g.insert(child, g[child].remove(parent))
        }
    } else {
        g
    }
}

/// A set holding the given keys, read back.
fn keys_to_set(keys: &Vec<Key>) -> (r: HashTrieSet)
    requires
        keys@.len() <= u64::MAX,
    ensures
        r.view() == Set::new(|x: KeyView| exists|i: int| 0 <= i < keys@.len() && decode_key((#[trigger] keys@[i])@) == x),
{
    let mut out = HashTrieSet::empty();
    let mut i: usize = 0;
    while i < keys.len()
        invariant
            i <= keys@.len() <= u64::MAX,
            out.view().finite(),
            out.view().len() <= i,
            out.view() == Set::new(|x: KeyView| exists|j: int| 0 <= j < i && decode_key((#[trigger] keys@[j])@) == x),
        decreases keys.len() - i,
    {
        let k = &keys[i];
        let d = match k {
            Key::Symbol(s) => Key::Str(crate::text::copy_string(s)),
            _ => k.copy(),
        };
        let ghost before = out.view();
        out = out.conj(d);
        proof {
            assert(d@ == decode_key(keys@[i as int]@));
            assert(out.view() =~= Set::new(|x: KeyView| exists|j: int| 0 <= j < i + 1 && decode_key((#[trigger] keys@[j])@) == x)) by {
                assert forall|x: KeyView| #[trigger] out.view().contains(x) implies exists|j: int| 0 <= j < i + 1 && decode_key((#[trigger] keys@[j])@) == x by {
                    if x != d@ {
                        assert(before.contains(x));
                    }
                }
            }
        }
        i += 1;
    }
    out
}

/// In a well-formed hierarchy every key with parents is a known node.
proof fn lemma_reach_from_node(g: Graph, x: KeyView, a: KeyView)
    requires
        x != a,
        reaches(g, x, a),
    ensures
        g.contains_key(x),
{
    let p = choose|p: Seq<KeyView>| #[trigger] is_path(g, p, x, a);
    assert(edge(g, p[0], p[1]));
}

impl Hierarchy {
    /// Adds `parent` to the parents of `child`, unless they are the same
    /// key or `parent` already isa `child` (which would close a cycle).
    pub fn derive_keys(&mut self, child: Key, parent: Key)
        requires
            old(self).wf(),
            old(self).node_set().len() + 6 <= u64::MAX,
        ensures
            final(self).wf(),
            final(self)@ == derived(old(self)@, child@, parent@),
            final(self).node_set().len() <= old(self).node_set().len() + 2,
    {
        if child.equals(&parent) {
            return;
        }
        if self.isa_key(&parent, &child) {
            return;
        }
        let ghost g = self@;
        let _ = self.parents.count();
        proof {
            assert(self.parents.view().dom().subset_of(self.nodes.view()));
            lemma_len_subset(self.parents.view().dom(), self.nodes.view());
        }
        let new_set = match self.parents.get(&child) {
            Some(s) => {
                proof {
                    lemma_len_subset(s.view(), self.nodes.view());
                }
                s.conj(parent.copy())
            },
            None => HashTrieSet::empty().conj(parent.copy()),
        };
        let np = self.parents.assoc(child.copy(), new_set);
        let n1 = self.nodes.conj(child);
        let n2 = n1.conj(parent);
        self.parents = np;
        self.nodes = n2;
        proof {
            assert(self@ =~= derived(g, child@, parent@));
        }
    }

    /// Removes `parent` from the parents of `child`; a key left without
    /// parents leaves the hierarchy.
    pub fn underive_keys(&mut self, child: &Key, parent: &Key)
        requires
            old(self).wf(),
        ensures
            final(self).wf(),
            final(self)@ == underived(old(self)@, child@, parent@),
            final(self).node_set() == old(self).node_set(),
    {
        let ghost g = self@;
        let _ = self.parents.count();
        proof {
            assert(self.parents.view().dom().subset_of(self.nodes.view()));
            lemma_len_subset(self.parents.view().dom(), self.nodes.view());
        }
        match self.parents.get(child) {
            None => {},
            Some(s) => {
                let s2 = s.disj(parent);
                if s2.count() == 0 {
                    self.parents = self.parents.dissoc(child);
                } else {
                    self.parents = self.parents.assoc(child.copy(), s2);
                }
            },
        }
        proof {
            assert(self@ =~= underived(g, child@, parent@));
        }
    }

    /// The direct parents of `child`.
    pub fn parent_keys(&self, child: &Key) -> (r: Vec<Key>)
        requires
            self.wf(),
        ensures
            r@.len() < u64::MAX,
            forall|x: KeyView| (exists|i: int| 0 <= i < r@.len() && (#[trigger] r@[i])@ == x) <==> edge(self@, child@, x),
    {
        match self.parents.get(child) {
            None => Vec::new(),
            Some(s) => {
                let v = s.values();
                proof {
                    let _ = s.view().len();
                    lemma_len_subset(s.view(), self.nodes.view());
                    assert forall|a: int, b: int| 0 <= a < b < v@.len() implies v@[a]@ != v@[b]@ by {}
                    lemma_distinct_len(v@, s.view());
                }
                v
            },
        }
    }
}

/// Distinct keys drawn from a finite set are no more than its size.
proof fn lemma_distinct_len(v: Seq<Key>, s: Set<KeyView>)
    requires
        s.finite(),
        forall|j: int| 0 <= j < v.len() ==> s.contains((#[trigger] v[j])@),
        forall|a: int, b: int| 0 <= a < v.len() && 0 <= b < v.len() && a != b ==> (#[trigger] v[a])@ != (#[trigger] v[b])@,
    ensures
        v.len() <= s.len(),
{
    let vs = v.map_values(|k: Key| k@);
    assert forall|a: int, b: int| 0 <= a < vs.len() && 0 <= b < vs.len() && a != b implies vs[a] != vs[b] by {
        assert(v[a]@ != v[b]@);
    }
    assert(vs.no_duplicates());
    vs.unique_seq_to_set();
    assert(vs.to_set().subset_of(s)) by {
        assert forall|x: KeyView| vs.to_set().contains(x) implies s.contains(x) by {
            let j = choose|j: int| 0 <= j < vs.len() && vs[j] == x;
            assert(s.contains(v[j]@));
        }
    }
    lemma_len_subset(vs.to_set(), s);
}

/// Every parent of `v` is in `vis`.
pub open spec fn parents_within(g: Graph, v: KeyView, vis: Set<KeyView>) -> bool {
    forall|p: KeyView| #[trigger] edge(g, v, p) ==> vis.contains(p)
}

/// The ancestor search's invariant: everything visited is a proper
/// ancestor of `child`; the stack holds `child` or visited keys; and each
/// of `child` and the visited keys is still on the stack or has all of
/// its parents visited.
pub open spec fn ancestor_search(g: Graph, child: KeyView, vis: Set<KeyView>, stack: Seq<Key>) -> bool {
    &&& forall|v: KeyView| #[trigger] vis.contains(v) ==> reaches_plus(g, child, v)
    &&& forall|i: int| 0 <= i < stack.len() ==> (#[trigger] stack[i])@ == child || vis.contains(stack[i]@)
    &&& in_keys(stack, child) || parents_within(g, child, vis)
    &&& forall|v: KeyView| #[trigger] vis.contains(v) ==> in_keys(stack, v) || parents_within(g, v, vis)
}

impl Hierarchy {
    /// Visits the parents of `cur` not yet visited, pushing each on the
    /// stack.
    fn visit_parents(
        &self,
        cur: &Key,
        visited: &mut HashTrieSet,
        stack: &mut Vec<Key>,
        Ghost(child): Ghost<KeyView>,
        Ghost(univ): Ghost<Set<KeyView>>,
    )
        requires
            self.wf(),
            univ == self.node_set().insert(child),
            univ.finite(),
            old(visited).view().subset_of(univ),
            cur@ == child || old(visited).view().contains(cur@),
            cur@ == child || reaches_plus(self@, child, cur@),
            forall|v: KeyView| #[trigger] old(visited).view().contains(v) ==> reaches_plus(self@, child, v),
            forall|i: int| 0 <= i < old(stack)@.len() ==> (#[trigger] old(stack)@[i])@ == child || old(visited).view().contains(old(stack)@[i]@),
        ensures
            final(visited).view().subset_of(univ),
            old(visited).view().subset_of(final(visited).view()),
            parents_within(self@, cur@, final(visited).view()),
            forall|v: KeyView| #[trigger] final(visited).view().contains(v) ==> reaches_plus(self@, child, v),
            forall|i: int| 0 <= i < final(stack)@.len() ==> (#[trigger] final(stack)@[i])@ == child || final(visited).view().contains(final(stack)@[i]@),
            final(stack)@.len() >= old(stack)@.len(),
            forall|i: int| 0 <= i < old(stack)@.len() ==> #[trigger] final(stack)@[i] == old(stack)@[i],
            final(visited).view() == old(visited).view() ==> final(stack)@ == old(stack)@,
            final(visited).view() != old(visited).view() ==> final(visited).view().len() > old(visited).view().len(),
            forall|v: KeyView| #[trigger] final(visited).view().contains(v) && !old(visited).view().contains(v)
                ==> in_keys(final(stack)@, v),
    {
        let ghost g = self@;
        let ghost v0 = visited.view();
        let ghost s0 = stack@;
        proof {
            lemma_reaches_cases(g, child, cur@);
            if cur@ == child {
                lemma_reach_refl(g, child);
            }
        }
        match self.parents.get(cur) {
            None => {
                proof {
                    assert forall|p: KeyView| #[trigger] edge(g, cur@, p) implies visited.view().contains(p) by {}
                }
            },
            Some(ps) => {
                let pv = ps.values();
                let mut j: usize = 0;
                while j < pv.len()
                    invariant
                        self.wf(),
                        g == self@,
                        univ == self.node_set().insert(child),
                        univ.finite(),
                        self.parents.view().contains_key(cur@),
                        *ps == self.parents.view()[cur@],
                        reaches(g, child, cur@),
                        j <= pv@.len(),
                        forall|t: int| 0 <= t < pv@.len() ==> ps.view().contains((#[trigger] pv@[t])@),
                        forall|k: KeyView| #[trigger] ps.view().contains(k) ==> exists|t: int|
                            0 <= t < pv@.len() && (#[trigger] pv@[t])@ == k,
                        v0 == old(visited).view(),
                        s0 == old(stack)@,
                        visited.view().subset_of(univ),
                        v0.subset_of(visited.view()),
                        forall|t: int| 0 <= t < j ==> visited.view().contains((#[trigger] pv@[t])@),
                        forall|v: KeyView| #[trigger] visited.view().contains(v) ==> reaches_plus(g, child, v),
                        forall|i: int| 0 <= i < stack@.len() ==> (#[trigger] stack@[i])@ == child || visited.view().contains(stack@[i]@),
                        stack@.len() >= s0.len(),
                        forall|i: int| 0 <= i < s0.len() ==> #[trigger] stack@[i] == s0[i],
                        visited.view() == v0 ==> stack@ == s0,
                        visited.view() != v0 ==> visited.view().len() > v0.len(),
                        forall|v: KeyView| #[trigger] visited.view().contains(v) && !v0.contains(v)
                            ==> in_keys(stack@, v),
                    decreases pv.len() - j,
                {
                    let p = &pv[j];
                    if !visited.contains(p) {
                        proof {
                            assert(edge(g, cur@, p@));
                            assert(reaches_plus(g, child, p@));
                            assert(self.parents.view()[cur@].view().subset_of(self.nodes.view()));
                            lemma_len_subset(visited.view(), univ);
                            lemma_len_subset(visited.view().insert(p@), univ);
                            assert(univ.len() <= self.node_set().len() + 1);
                        }
                        let ghost vb = visited.view();
                        let ghost sb = stack@;
                        *visited = visited.conj(p.copy());
                        stack.push(p.copy());
                        proof {
                            assert(stack@[sb.len() as int]@ == p@);
                            assert(visited.view().len() == vb.len() + 1);
                            if vb == v0 {
                                assert(visited.view().contains(p@) && !v0.contains(p@));
                            }
                            assert forall|i: int| 0 <= i < stack@.len() implies (#[trigger] stack@[i])@ == child || visited.view().contains(stack@[i]@) by {
                                if i < sb.len() {
                                    assert(stack@[i] == sb[i]);
                                }
                            }
                            assert forall|v: KeyView| #[trigger] visited.view().contains(v) && !v0.contains(v)
                                implies in_keys(stack@, v) by {
                                if v != p@ {
                                    assert(vb.contains(v));
                                    let i = choose|i: int| 0 <= i < sb.len() && (#[trigger] sb[i])@ == v;
                                    assert(stack@[i] == sb[i]);
                                }
                            }
                        }
                    }
                    j += 1;
                }
                proof {
                    assert forall|k: KeyView| #[trigger] edge(g, cur@, k) implies visited.view().contains(k) by {
                        assert(ps.view().contains(k));
                        let t = choose|t: int| 0 <= t < pv@.len() && (#[trigger] pv@[t])@ == k;
                    }
                }
            },
        }
    }

    /// The proper ancestors of `child`: every key reached through one or
    /// more parent steps.
    pub fn ancestor_keys(&self, child: &Key) -> (r: HashTrieSet)
        requires
            self.wf(),
        ensures
            r.view() == ancestor_set(self@, child@),
    {
        let ghost g = self@;
        let _ = self.nodes.count();
        let ghost univ = self.node_set().insert(child@);
        let mut visited = HashTrieSet::empty();
        let mut stack: Vec<Key> = Vec::new();
        stack.push(child.copy());
        proof {
            assert(stack@[0]@ == child@);
            assert(in_keys(stack@, child@));
        }
        loop
            invariant
                self.wf(),
                g == self@,
                univ == self.node_set().insert(child@),
                univ.finite(),
                visited.view().subset_of(univ),
                ancestor_search(g, child@, visited.view(), stack@),
            ensures
                ancestor_search(g, child@, visited.view(), stack@),
                stack@.len() == 0,
            decreases univ.len() - visited.view().len(), stack@.len(),
        {
            let ghost s0 = stack@;
            let ghost vis0 = visited.view();
            let cur = match stack.pop() {
                Some(k) => k,
                None => {
                    break;
                },
            };
            proof {
                assert(cur == s0.last());
                assert(stack@ =~= s0.drop_last());
                assert(s0[s0.len() - 1]@ == child@ || vis0.contains(s0[s0.len() - 1]@));
                lemma_len_subset(vis0, univ);
            }
            let ghost s1 = stack@;
            self.visit_parents(&cur, &mut visited, &mut stack, Ghost(child@), Ghost(univ));
            proof {
                lemma_len_subset(visited.view(), univ);
                let vis1 = visited.view();
                let s2 = stack@;
                assert forall|v: KeyView| #[trigger] vis1.contains(v) implies in_keys(s2, v)
                    || parents_within(g, v, vis1) by {
                    lemma_search_step(g, vis0, vis1, s0, s1, s2, v, cur@);
                }
                lemma_search_step(g, vis0, vis1, s0, s1, s2, child@, cur@);
            }
        }
        proof {
            let vis = visited.view();
            let sset = vis.insert(child@);
            assert forall|v: KeyView, q: KeyView| sset.contains(v) && #[trigger] edge(g, v, q) implies sset.contains(q) by {
                assert(!in_keys(stack@, v));
                if v != child@ {
                    assert(vis.contains(v));
                }
                assert(parents_within(g, v, vis));
            }
            assert forall|x: KeyView| vis.contains(x) <==> #[trigger] ancestor_set(g, child@).contains(x) by {
                if reaches_plus(g, child@, x) {
                    let c = choose|c: KeyView| #[trigger] reaches(g, child@, c) && edge(g, c, x);
                    lemma_closed_holds_reached(g, sset, child@, c);
                    assert(!in_keys(stack@, c));
                    if c != child@ {
                        assert(vis.contains(c));
                    }
                    assert(parents_within(g, c, vis));
                }
            }
            assert(vis =~= ancestor_set(g, child@));
        }
        visited
    }
}

/// One step of the ancestor search keeps, for each key, that it is on
/// the stack or has all of its parents visited.
proof fn lemma_search_step(
    g: Graph,
    vis0: Set<KeyView>,
    vis1: Set<KeyView>,
    s0: Seq<Key>,
    s1: Seq<Key>,
    s2: Seq<Key>,
    v: KeyView,
    cur: KeyView,
)
    requires
        s0.len() > 0,
        cur == s0.last()@,
        s1 == s0.drop_last(),
        vis0.subset_of(vis1),
        parents_within(g, cur, vis1),
        s2.len() >= s1.len(),
        forall|i: int| 0 <= i < s1.len() ==> #[trigger] s2[i] == s1[i],
        forall|x: KeyView| #[trigger] vis1.contains(x) && !vis0.contains(x) ==> in_keys(s2, x),
        vis0.contains(v) || vis1.contains(v) || v == cur || in_keys(s0, v) || parents_within(g, v, vis0),
        vis0.contains(v) ==> in_keys(s0, v) || parents_within(g, v, vis0),
        !vis0.contains(v) && !vis1.contains(v) ==> in_keys(s0, v) || parents_within(g, v, vis0),
    ensures
        in_keys(s2, v) || parents_within(g, v, vis1),
{
    if v == cur {
    } else if vis1.contains(v) && !vis0.contains(v) {
    } else if in_keys(s0, v) {
        let i = choose|i: int| 0 <= i < s0.len() && (#[trigger] s0[i])@ == v;
        assert(i != s0.len() - 1);
        assert(s2[i] == s1[i]);
        assert(s2[i]@ == v);
    } else {
        assert forall|p: KeyView| #[trigger] edge(g, v, p) implies vis1.contains(p) by {
            assert(vis0.contains(p));
        }
    }
}

/// The keys listed in `v`, read back, are the keys of `s` read back.
proof fn lemma_decoded_keys(v: Seq<Key>, s: Set<KeyView>)
    requires
        forall|k: KeyView| (exists|i: int| 0 <= i < v.len() && (#[trigger] v[i])@ == k) <==> s.contains(k),
    ensures
        Set::new(|x: KeyView| exists|i: int| 0 <= i < v.len() && decode_key((#[trigger] v[i])@) == x) == decoded(s),
{
    let a = Set::new(|x: KeyView| exists|i: int| 0 <= i < v.len() && decode_key((#[trigger] v[i])@) == x);
    assert forall|x: KeyView| a.contains(x) <==> #[trigger] decoded(s).contains(x) by {
        if a.contains(x) {
            let i = choose|i: int| 0 <= i < v.len() && decode_key((#[trigger] v[i])@) == x;
            assert(s.contains(v[i]@));
        }
        if decoded(s).contains(x) {
            let k = choose|k: KeyView| #[trigger] s.contains(k) && decode_key(k) == x;
            let i = choose|i: int| 0 <= i < v.len() && (#[trigger] v[i])@ == k;
        }
    }
    assert(a =~= decoded(s));
}

/// The keys of a set, read back, as a set value's elements.
fn decode_set(s: &HashTrieSet) -> (r: HashTrieSet)
    ensures
        r.view() == decoded(s.view()),
{
    let _ = s.count();
    let v = s.values();
    proof {
        lemma_distinct_len(v@, s.view());
        assert forall|k: KeyView| (exists|i: int| 0 <= i < v@.len() && (#[trigger] v@[i])@ == k) <==> s.view().contains(k) by {}
        lemma_decoded_keys(v@, s.view());
    }
    keys_to_set(&v)
}

impl Hierarchy {
    /// The proper descendants of `parent`: every key that isa `parent`
    /// and is not `parent` itself.
    pub fn descendant_keys(&self, parent: &Key) -> (r: HashTrieSet)
        requires
            self.wf(),
        ensures
            r.view() == descendant_set(self@, parent@),
    {
        let ghost g = self@;
        let _ = self.nodes.count();
        let nv = self.nodes.values();
        proof {
            lemma_distinct_len(nv@, self.nodes.view());
        }
        let mut out = HashTrieSet::empty();
        let mut i: usize = 0;
        while i < nv.len()
            invariant
                self.wf(),
                g == self@,
                i <= nv@.len(),
                nv@.len() <= self.node_set().len(),
                forall|j: int| 0 <= j < nv@.len() ==> self.node_set().contains((#[trigger] nv@[j])@),
                forall|k: KeyView| #[trigger] self.node_set().contains(k) ==> exists|j: int|
                    0 <= j < nv@.len() && (#[trigger] nv@[j])@ == k,
                out.view().finite(),
                out.view().len() <= i,
                forall|x: KeyView| #[trigger] out.view().contains(x) ==> descendant_set(g, parent@).contains(x),
                forall|j: int| 0 <= j < i && descendant_set(g, parent@).contains((#[trigger] nv@[j])@)
                    ==> out.view().contains(nv@[j]@),
            decreases nv.len() - i,
        {
            let n = &nv[i];
            if !n.equals(parent) && self.isa_key(n, parent) {
                out = out.conj(n.copy());
            }
            i += 1;
        }
        proof {
            assert forall|x: KeyView| #[trigger] descendant_set(g, parent@).contains(x) implies out.view().contains(x) by {
                lemma_reach_from_node(g, x, parent@);
                assert(self.parents.view().contains_key(x));
                assert(self.node_set().contains(x));
                let j = choose|j: int| 0 <= j < nv@.len() && (#[trigger] nv@[j])@ == x;
            }
            assert(out.view() =~= descendant_set(g, parent@));
        }
        out
    }
}

/// The key that stands for a value in a hierarchy: its key when it is a
/// scalar; none otherwise.
pub open spec fn hierarchy_key(v: Value) -> Option<KeyView> {
    if v is Identity {
        None
    } else {
        v.spec_as_key()
    }
}

/// The key that stands for a value in a hierarchy (see
/// [`hierarchy_key`]).
pub fn value_key(v: &Value) -> (r: Option<Key>)
    ensures
        match r {
            Some(k) => hierarchy_key(*v) == Some(k@),
            None => hierarchy_key(*v) is None,
        },
{
    match v {
        Value::Identity(_, _) => None,
        _ => v.as_key(),
    }
}

/// The value a hierarchy key reads back as (a symbol reads back as a
/// string).
pub fn key_to_value(k: &Key) -> (r: Value)
    ensures
        r.spec_as_key() == Some(decode_key(k@)),
{
    match k {
        Key::Symbol(s) => Value::Str(crate::text::copy_string(s)),
        _ => Value::from_key(k),
    }
}

/// The hierarchy after `derive` of two values: only scalars take part.
pub open spec fn derived_values(g: Graph, child: Value, parent: Value) -> Graph {
    match (hierarchy_key(child), hierarchy_key(parent)) {
        (Some(c), Some(p)) => derived(g, c, p),
        _ => g,
    }
}

/// The hierarchy after `underive` of two values.
pub open spec fn underived_values(g: Graph, child: Value, parent: Value) -> Graph {
    match (hierarchy_key(child), hierarchy_key(parent)) {
        (Some(c), Some(p)) => underived(g, c, p),
        _ => g,
    }
}

/// `(derive child parent)`: records `parent` as a parent of `child`
/// (see [`Hierarchy::derive_keys`]) and gives back `child`.
pub fn clorus_derive(h: &mut Hierarchy, child: &Value, parent: &Value) -> (r: Value)
    requires
        old(h).wf(),
        old(h).node_set().len() + 6 <= u64::MAX,
    ensures
        final(h).wf(),
        final(h)@ == derived_values(old(h)@, *child, *parent),
        final(h).node_set().len() <= old(h).node_set().len() + 2,
        r == *child,
{
    match (value_key(child), value_key(parent)) {
        (Some(c), Some(p)) => h.derive_keys(c, p),
        _ => {},
    }
    child.copy()
}

/// `(underive child parent)`: removes `parent` from the parents of
/// `child` and gives back `child`.
pub fn clorus_underive(h: &mut Hierarchy, child: &Value, parent: &Value) -> (r: Value)
    requires
        old(h).wf(),
    ensures
        final(h).wf(),
        final(h)@ == underived_values(old(h)@, *child, *parent),
        final(h).node_set() == old(h).node_set(),
        r == *child,
{
    match (value_key(child), value_key(parent)) {
        (Some(c), Some(p)) => h.underive_keys(&c, &p),
        _ => {},
    }
    child.copy()
}

/// `(isa? child parent)`: equal values, or scalars where `parent` is an
/// ancestor of `child`.
pub open spec fn spec_isa(g: Graph, child: Value, parent: Value) -> bool {
    deep_eq(child, parent) || match (hierarchy_key(child), hierarchy_key(parent)) {
        (Some(c), Some(p)) => reaches(g, c, p),
        _ => false,
    }
}

/// `(isa? child parent)`.
pub fn clorus_isa(h: &Hierarchy, child: &Value, parent: &Value) -> (r: bool)
    requires
        h.wf(),
    ensures
        r == spec_isa(h@, *child, *parent),
{
    if equals(child, parent) {
        return true;
    }
    match (value_key(child), value_key(parent)) {
        (Some(c), Some(p)) => h.isa_key(&c, &p),
        _ => false,
    }
}

/// `(isa? child parent)` as 1 or 0.
pub fn clorus_isa_i32(h: &Hierarchy, child: &Value, parent: &Value) -> (r: i32)
    requires
        h.wf(),
    ensures
        r == if spec_isa(h@, *child, *parent) {
            1i32
        } else {
            0i32
        },
{
    if clorus_isa(h, child, parent) {
        1
    } else {
        0
    }
}

/// A set value holding the keys of `s` read back; nil for a non-scalar.
pub open spec fn key_set_value(r: Value, keyed: bool, s: Set<KeyView>) -> bool {
    if keyed {
        r matches Value::HashSet(set) && set.view() == decoded(s)
    } else {
        r == Value::Nil
    }
}

/// The direct parents of `k` (none when it has none).
pub open spec fn parent_set(g: Graph, k: KeyView) -> Set<KeyView> {
    if g.contains_key(k) {
        g[k]
    } else {
        Set::empty()
    }
}

/// `(parents child)`: the set of direct parents; nil for a non-scalar.
pub fn clorus_parents(h: &Hierarchy, child: &Value) -> (r: Value)
    requires
        h.wf(),
    ensures
        key_set_value(r, hierarchy_key(*child) is Some, parent_set(h@, hierarchy_key(*child)->0)),
{
    match value_key(child) {
        None => Value::Nil,
        Some(c) => {
            let ps = h.parent_keys(&c);
            proof {
                assert forall|k: KeyView| (exists|i: int| 0 <= i < ps@.len() && (#[trigger] ps@[i])@ == k) <==> parent_set(h@, c@).contains(k) by {
                    if parent_set(h@, c@).contains(k) {
                        assert(edge(h@, c@, k));
                    }
                    if exists|i: int| 0 <= i < ps@.len() && (#[trigger] ps@[i])@ == k {
                        assert(edge(h@, c@, k));
                    }
                }
                lemma_decoded_keys(ps@, parent_set(h@, c@));
            }
            Value::HashSet(keys_to_set(&ps))
        },
    }
}

/// `(ancestors child)`: the set of proper ancestors; nil for a non-scalar.
pub fn clorus_ancestors(h: &Hierarchy, child: &Value) -> (r: Value)
    requires
        h.wf(),
    ensures
        key_set_value(r, hierarchy_key(*child) is Some, ancestor_set(h@, hierarchy_key(*child)->0)),
{
    match value_key(child) {
        None => Value::Nil,
        Some(c) => Value::HashSet(decode_set(&h.ancestor_keys(&c))),
    }
}

/// `(descendants parent)`: the set of proper descendants; nil for a
/// non-scalar.
pub fn clorus_descendants(h: &Hierarchy, parent: &Value) -> (r: Value)
    requires
        h.wf(),
    ensures
        key_set_value(r, hierarchy_key(*parent) is Some, descendant_set(h@, hierarchy_key(*parent)->0)),
{
    match value_key(parent) {
        None => Value::Nil,
        Some(p) => Value::HashSet(decode_set(&h.descendant_keys(&p))),
    }
}

/// No key is its own proper ancestor.
pub open spec fn acyclic(g: Graph) -> bool {
    forall|a: KeyView| !#[trigger] reaches_plus(g, a, a)
}

/// Paths compose: isa is transitive.
pub proof fn law_isa_transitive(g: Graph, a: KeyView, b: KeyView, c: KeyView)
    requires
        reaches(g, a, b),
        reaches(g, b, c),
    ensures
        reaches(g, a, c),
{
    let p = choose|p: Seq<KeyView>| #[trigger] is_path(g, p, a, b);
    let q = choose|q: Seq<KeyView>| #[trigger] is_path(g, q, b, c);
    let r = p + q.drop_first();
    assert forall|i: int| 0 <= i < r.len() - 1 implies edge(g, #[trigger] r[i], r[i + 1]) by {
        if i < p.len() - 1 {
            assert(r[i] == p[i] && r[i + 1] == p[i + 1]);
        } else if i == p.len() - 1 {
            assert(r[i] == q[0]);
            assert(r[i + 1] == q[1]);
        } else {
            let k = i - p.len() + 1;
            assert(r[i] == q[k] && r[i + 1] == q[k + 1]);
        }
    }
    if q.len() == 1 {
        assert(r =~= p);
    } else {
        assert(r.last() == q.last());
    }
    assert(is_path(g, r, a, c));
}

/// Every key isa itself.
pub proof fn law_isa_reflexive(g: Graph, a: KeyView)
    ensures
        reaches(g, a, a),
{
    lemma_reach_refl(g, a);
}

/// The hierarchy with one more edge `c -> p`.
pub open spec fn with_edge(g: Graph, g2: Graph, c: KeyView, p: KeyView) -> bool {
    forall|x: KeyView, y: KeyView| #[trigger] edge(g2, x, y) ==> edge(g, x, y) || (x == c && y == p)
}

/// A path in the hierarchy with an added edge `c -> p` is an old path,
/// or an old path to `c` followed by the new edge and an old path from `p`.
proof fn lemma_path_with_edge(g: Graph, g2: Graph, c: KeyView, p: KeyView, path: Seq<KeyView>, x: KeyView, y: KeyView)
    requires
        with_edge(g, g2, c, p),
        is_path(g2, path, x, y),
    ensures
        reaches(g, x, y) || (reaches(g, x, c) && reaches(g, p, y)),
    decreases path.len(),
{
    if path.len() == 1 {
        lemma_reach_refl(g, x);
    } else {
        let pre = path.drop_last();
        let z = pre.last();
        assert forall|i: int| 0 <= i < pre.len() - 1 implies edge(g2, #[trigger] pre[i], pre[i + 1]) by {
            assert(pre[i] == path[i] && pre[i + 1] == path[i + 1]);
        }
        assert(is_path(g2, pre, x, z));
        lemma_path_with_edge(g, g2, c, p, pre, x, z);
        assert(edge(g2, path[path.len() - 2], path[path.len() - 1]));
        assert(edge(g2, z, y));
        lemma_reach_refl(g, p);
        if edge(g, z, y) {
            if reaches(g, x, z) {
                lemma_reach_step(g, x, z, y);
            } else {
                lemma_reach_step(g, p, z, y);
            }
        }
    }
}

/// Without the edge `c -> p`'s help no path leads from `p` to `c`, so
/// adding the edge closes no cycle.
proof fn lemma_edge_keeps_acyclic(g: Graph, g2: Graph, c: KeyView, p: KeyView)
    requires
        acyclic(g),
        with_edge(g, g2, c, p),
        !reaches(g, p, c),
    ensures
        acyclic(g2),
{
    assert forall|a: KeyView| !#[trigger] reaches_plus(g2, a, a) by {
        if reaches_plus(g2, a, a) {
            let z = choose|z: KeyView| #[trigger] reaches(g2, a, z) && edge(g2, z, a);
            let path = choose|path: Seq<KeyView>| #[trigger] is_path(g2, path, a, z);
            lemma_path_with_edge(g, g2, c, p, path, a, z);
            if edge(g, z, a) {
                if reaches(g, a, z) {
                    assert(reaches_plus(g, a, a));
                } else {
                    lemma_reach_step(g, p, z, a);
                    law_isa_transitive(g, p, a, c);
                }
            } else {
                assert(z == c && a == p);
                if reaches(g, a, z) {
                } else {
                    law_isa_transitive(g, p, a, c);
                }
            }
        }
    }
}

/// `derive` never closes a cycle: an acyclic hierarchy stays acyclic.
pub proof fn law_derive_keeps_acyclic(g: Graph, child: KeyView, parent: KeyView)
    requires
        acyclic(g),
    ensures
        acyclic(derived(g, child, parent)),
{
    let g2 = derived(g, child, parent);
    if !(child == parent || reaches(g, parent, child)) {
        assert forall|x: KeyView, y: KeyView| #[trigger] edge(g2, x, y) implies edge(g, x, y) || (x == child
            && y == parent) by {}
        lemma_edge_keeps_acyclic(g, g2, child, parent);
    }
}

/// Fewer edges give fewer paths.
proof fn lemma_sub_path(g: Graph, g2: Graph, path: Seq<KeyView>, x: KeyView, y: KeyView)
    requires
        forall|a: KeyView, b: KeyView| #[trigger] edge(g2, a, b) ==> edge(g, a, b),
        is_path(g2, path, x, y),
    ensures
        is_path(g, path, x, y),
{
    assert forall|i: int| 0 <= i < path.len() - 1 implies edge(g, #[trigger] path[i], path[i + 1]) by {
        assert(edge(g2, path[i], path[i + 1]));
    }
}

/// `underive` only removes edges, so it keeps a hierarchy acyclic.
pub proof fn law_underive_keeps_acyclic(g: Graph, child: KeyView, parent: KeyView)
    requires
        acyclic(g),
    ensures
        acyclic(underived(g, child, parent)),
{
    let g2 = underived(g, child, parent);
    assert forall|a: KeyView, b: KeyView| #[trigger] edge(g2, a, b) implies edge(g, a, b) by {}
    assert forall|a: KeyView| !#[trigger] reaches_plus(g2, a, a) by {
        if reaches_plus(g2, a, a) {
            let z = choose|z: KeyView| #[trigger] reaches(g2, a, z) && edge(g2, z, a);
            let path = choose|path: Seq<KeyView>| #[trigger] is_path(g2, path, a, z);
            lemma_sub_path(g, g2, path, a, z);
            assert(reaches(g, a, z));
            assert(edge(g, z, a));
            assert(reaches_plus(g, a, a));
        }
    }
}

/// `isa?` after `derive`: the child isa the parent, unless the derive
/// was refused because the parent already isa the child.
pub proof fn law_derive_then_isa(g: Graph, child: KeyView, parent: KeyView)
    ensures
        reaches(derived(g, child, parent), child, parent) || reaches(g, parent, child),
{
    let g2 = derived(g, child, parent);
    if child == parent {
        lemma_reach_refl(g2, child);
    } else if !reaches(g, parent, child) {
        lemma_reach_refl(g2, child);
        assert(edge(g2, child, parent));
        lemma_reach_step(g2, child, child, parent);
    }
}

impl Hierarchy {
    /// The number of keys the hierarchy has mentioned.
    pub fn node_count(&self) -> (r: u64)
        ensures
            r == self.node_set().len(),
    {
        self.nodes.count()
    }
}

/// `underive` removes exactly the edge from `child` to `parent`: every
/// other parent of `child`, and every other edge, stays.
pub proof fn law_underive_removes_one_edge(g: Graph, child: KeyView, parent: KeyView, x: KeyView, y: KeyView)
    ensures
        edge(underived(g, child, parent), x, y) <==> edge(g, x, y) && !(x == child && y == parent),
{
    if g.contains_key(child) && x == child {
        if g[child].remove(parent).is_empty() {
            if g[child].contains(y) && y != parent {
                assert(g[child].remove(parent).contains(y));
            }
        }
    }
}

/// `derive` adds exactly the edge from `child` to `parent`, unless it would
/// join a key to itself or close a cycle; every other edge stays as it was.
pub proof fn law_derive_adds_one_edge(g: Graph, child: KeyView, parent: KeyView, x: KeyView, y: KeyView)
    ensures
        edge(derived(g, child, parent), x, y) <==> edge(g, x, y) || (x == child && y == parent && child != parent
            && !reaches(g, parent, child)),
{
}

} // verus!
