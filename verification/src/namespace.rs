//! The REPL's namespace bookkeeping: which symbols each namespace defines,
//! the current namespace with its aliases and imports, how a `require`
//! changes them, and where the source of a namespace is found.

use crate::loading::lib_base;
use crate::strings::{split_pieces, split_text, texts_view};
use crate::text::{chars_of, push_str, replace_char, same_text, string_from, string_of_vec};
use vstd::prelude::*;

verus! {

/// The namespace whose symbols every other namespace imports.
pub open spec fn core_namespace() -> Seq<char> {
    "clorus.core"@
}

/// The symbols defined in each namespace, as (namespace, symbol) pairs.
pub struct SymbolRegistry {
    pairs: Vec<(String, String)>,
}

/// Strings as text.
pub open spec fn texts(v: Seq<String>) -> Seq<Seq<char>> {
    v.map_values(|s: String| s@)
}

/// The pairs of a registry as text.
pub open spec fn pair_texts(p: Seq<(String, String)>) -> Seq<(Seq<char>, Seq<char>)> {
    p.map_values(|e: (String, String)| (e.0@, e.1@))
}

/// The namespaces that pairs give symbols to, each with its symbols.
pub open spec fn registry_map(p: Seq<(Seq<char>, Seq<char>)>) -> Map<Seq<char>, Set<Seq<char>>> {
    Map::new(
        |ns: Seq<char>| exists|i: int| 0 <= i < p.len() && (#[trigger] p[i]).0 == ns,
        |ns: Seq<char>| Set::new(|s: Seq<char>| p.contains((ns, s))),
    )
}

impl View for SymbolRegistry {
    type V = Map<Seq<char>, Set<Seq<char>>>;

    closed spec fn view(&self) -> Map<Seq<char>, Set<Seq<char>>> {
        registry_map(pair_texts(self.pairs@))
    }
}

impl SymbolRegistry {
    /// An empty registry.
    pub fn new() -> (r: Self)
        ensures
            r@ == Map::<Seq<char>, Set<Seq<char>>>::empty(),
    {
        let r = SymbolRegistry { pairs: Vec::new() };
        proof {
            assert(r@ =~= Map::<Seq<char>, Set<Seq<char>>>::empty());
        }
        r
    }

    fn position(&self, ns: &str, sym: &str) -> (r: bool)
        ensures
            r == pair_texts(self.pairs@).contains((ns@, sym@)),
    {
        let ghost pt = pair_texts(self.pairs@);
        let mut i: usize = 0;
        while i < self.pairs.len()
            invariant
                i <= self.pairs@.len(),
                pt == pair_texts(self.pairs@),
                forall|j: int| 0 <= j < i ==> pt[j] != (ns@, sym@),
            decreases self.pairs.len() - i,
        {
            if same_text(self.pairs[i].0.as_str(), ns) && same_text(self.pairs[i].1.as_str(), sym) {
                proof {
                    assert(pt[i as int] == (ns@, sym@));
                }
                return true;
            }
            i += 1;
        }
        false
    }

    /// Records that `ns` defines `sym`.
    pub fn register(&mut self, ns: &str, sym: &str)
        ensures
            final(self)@ == old(self)@.insert(
                ns@,
                if old(self)@.contains_key(ns@) {
                    old(self)@[ns@].insert(sym@)
                } else {
                    Set::empty().insert(sym@)
                },
            ),
    {
        let ghost before = pair_texts(self.pairs@);
        if self.position(ns, sym) {
            proof {
                let m = registry_map(before);
                let k = choose|k: int| 0 <= k < before.len() && before[k] == (ns@, sym@);
                assert(before[k].0 == ns@);
                assert(m.contains_key(ns@));
                assert(m[ns@].insert(sym@) =~= m[ns@]);
                assert(m.insert(ns@, m[ns@].insert(sym@)) =~= m);
            }
            return;
        }
        self.pairs.push((string_from(ns), string_from(sym)));
        proof {
            let after = pair_texts(self.pairs@);
            assert(after =~= before.push((ns@, sym@)));
            let m0 = registry_map(before);
            let m1 = registry_map(after);
            let v = if m0.contains_key(ns@) {
                m0[ns@].insert(sym@)
            } else {
                Set::empty().insert(sym@)
            };
            assert forall|k: Seq<char>| #[trigger] m1.contains_key(k) == m0.insert(ns@, v).contains_key(k) by {
                if m1.contains_key(k) && k != ns@ {
                    let i = choose|i: int| 0 <= i < after.len() && (#[trigger] after[i]).0 == k;
                    assert(i < before.len());
                    assert(before[i].0 == k);
                }
                if m0.contains_key(k) {
                    let i = choose|i: int| 0 <= i < before.len() && (#[trigger] before[i]).0 == k;
                    assert(after[i].0 == k);
                }
                if k == ns@ {
                    assert(after[before.len() as int].0 == k);
                }
            }
            assert forall|k: Seq<char>| #[trigger] m1.contains_key(k) implies m1[k] == m0.insert(ns@, v)[k] by {
                assert forall|s: Seq<char>| #[trigger] m1[k].contains(s) == m0.insert(ns@, v)[k].contains(s) by {
                    if after.contains((k, s)) {
                        let i = choose|i: int| 0 <= i < after.len() && after[i] == (k, s);
                        if i < before.len() {
                            assert(before[i] == (k, s));
                            assert(before.contains((k, s)));
                        }
                    }
                    if before.contains((k, s)) {
                        let i = choose|i: int| 0 <= i < before.len() && before[i] == (k, s);
                        assert(after[i] == (k, s));
                        assert(before[i].0 == k);
                    }
                    if k == ns@ && s == sym@ {
                        assert(after[before.len() as int] == (k, s));
                    }
                }
                assert(m1[k] =~= m0.insert(ns@, v)[k]);
            }
            assert(m1 =~= m0.insert(ns@, v));
        }
    }

    /// The symbols that `ns` defines, each once; `None` when it defines
    /// none.
    pub fn symbols(&self, ns: &str) -> (r: Option<Vec<String>>)
        ensures
            r is None <==> !self@.contains_key(ns@),
            r matches Some(v) ==> texts(v@).to_set() == self@[ns@] && texts(v@).no_duplicates(),
    {
        let ghost pt = pair_texts(self.pairs@);
        let mut out: Vec<String> = Vec::new();
        let mut i: usize = 0;
        while i < self.pairs.len()
            invariant
                i <= self.pairs@.len(),
                pt == pair_texts(self.pairs@),
                texts(out@).no_duplicates(),
                forall|s: Seq<char>| #[trigger] texts(out@).contains(s) <==> exists|j: int|
                    0 <= j < i && pt[j] == (ns@, s),
                out@.len() == 0 <==> forall|j: int| 0 <= j < i ==> (#[trigger] pt[j]).0 != ns@,
            decreases self.pairs.len() - i,
        {
            if same_text(self.pairs[i].0.as_str(), ns) {
                let sym = self.pairs[i].1.as_str();
                let mut seen = false;
                let mut k: usize = 0;
                while k < out.len()
                    invariant
                        k <= out@.len(),
                        seen == exists|q: int| 0 <= q < k && out@[q]@ == sym@,
                    decreases out.len() - k,
                {
                    if same_text(out[k].as_str(), sym) {
                        seen = true;
                    }
                    k += 1;
                }
                let ghost ov = texts(out@);
                if !seen {
                    out.push(string_from(sym));
                }
                proof {
                    assert(pt[i as int] == (ns@, sym@));
                    let nv = texts(out@);
                    if !seen {
                        assert(nv =~= ov.push(sym@));
                        assert(!ov.contains(sym@));
                        assert forall|s: Seq<char>| #[trigger] nv.contains(s) <==> exists|j: int|
                            0 <= j < i + 1 && pt[j] == (ns@, s) by {
                            if nv.contains(s) {
                                let q = choose|q: int| 0 <= q < nv.len() && nv[q] == s;
                                if q < ov.len() {
                                    assert(ov.contains(s));
                                }
                            }
                            if exists|j: int| 0 <= j < i + 1 && pt[j] == (ns@, s) {
                                let j = choose|j: int| 0 <= j < i + 1 && pt[j] == (ns@, s);
                                if j < i {
                                    assert(ov.contains(s));
                                    let q = choose|q: int| 0 <= q < ov.len() && ov[q] == s;
                                    assert(nv[q] == s);
                                } else {
                                    assert(nv[ov.len() as int] == s);
                                }
                            }
                        }
                    } else {
                        let q = choose|q: int| 0 <= q < out@.len() && out@[q]@ == sym@;
                        assert(ov[q] == sym@);
                        assert forall|s: Seq<char>| #[trigger] nv.contains(s) <==> exists|j: int|
                            0 <= j < i + 1 && pt[j] == (ns@, s) by {
                            if exists|j: int| 0 <= j < i + 1 && pt[j] == (ns@, s) {
                                let j = choose|j: int| 0 <= j < i + 1 && pt[j] == (ns@, s);
                                if j == i {
                                    assert(nv.contains(s));
                                }
                            }
                        }
                    }
                    assert(nv.len() > 0);
                }
            } else {
                proof {
                    assert(pt[i as int].0 != ns@);
                    assert forall|s: Seq<char>| #[trigger] texts(out@).contains(s) <==> exists|j: int|
                        0 <= j < i + 1 && pt[j] == (ns@, s) by {
                        if exists|j: int| 0 <= j < i + 1 && pt[j] == (ns@, s) {
                            let j = choose|j: int| 0 <= j < i + 1 && pt[j] == (ns@, s);
                            assert(j < i);
                        }
                    }
                }
            }
            i += 1;
        }
        proof {
            let m = registry_map(pt);
            let ov = texts(out@);
            if out@.len() == 0 {
                if m.contains_key(ns@) {
                    let j = choose|j: int| 0 <= j < pt.len() && (#[trigger] pt[j]).0 == ns@;
                }
            } else {
                let j = choose|j: int| 0 <= j < pt.len() && !((#[trigger] pt[j]).0 != ns@);
                assert(m.contains_key(ns@));
                assert forall|s: Seq<char>| #[trigger] ov.to_set().contains(s) == m[ns@].contains(s) by {
                    if pt.contains((ns@, s)) {
                        let j = choose|j: int| 0 <= j < pt.len() && pt[j] == (ns@, s);
                    }
                    if ov.contains(s) {
                        let j = choose|j: int| 0 <= j < pt.len() && pt[j] == (ns@, s);
                        assert(pt.contains((ns@, s)));
                    }
                }
                assert(ov.to_set() =~= m[ns@]);
            }
        }
        if out.len() == 0 {
            None
        } else {
            Some(out)
        }
    }
}


/// A map written as entries added to `m` in order; a later entry for a key
/// replaces an earlier one.
pub open spec fn assoc_map<V>(m: Map<Seq<char>, V>, e: Seq<(Seq<char>, V)>) -> Map<Seq<char>, V>
    decreases e.len(),
{
    if e.len() == 0 {
        m
    } else {
        assoc_map(m, e.drop_last()).insert(e.last().0, e.last().1)
    }
}

/// Where entries for a key are, the last of them gives its value; where
/// there are none, the key is as in `m`.
proof fn lemma_assoc_lookup<V>(m: Map<Seq<char>, V>, e: Seq<(Seq<char>, V)>, k: Seq<char>)
    ensures
        (forall|j: int| 0 <= j < e.len() ==> (#[trigger] e[j]).0 != k) ==> (assoc_map(m, e).contains_key(k)
            == m.contains_key(k) && (m.contains_key(k) ==> assoc_map(m, e)[k] == m[k])),
        forall|j: int|
            0 <= j < e.len() && (#[trigger] e[j]).0 == k && (forall|q: int| j < q < e.len() ==> (#[trigger] e[q]).0
                != k) ==> assoc_map(m, e).contains_key(k) && assoc_map(m, e)[k] == e[j].1,
    decreases e.len(),
{
    if e.len() > 0 {
        lemma_assoc_lookup(m, e.drop_last(), k);
        assert forall|j: int|
            0 <= j < e.len() && (#[trigger] e[j]).0 == k && (forall|q: int| j < q < e.len() ==> (#[trigger] e[q]).0
                != k) implies assoc_map(m, e).contains_key(k) && assoc_map(m, e)[k] == e[j].1 by {
            if j < e.len() - 1 {
                assert(e.last().0 != k);
                assert(e.drop_last()[j] == e[j]);
                assert forall|q: int| j < q < e.drop_last().len() implies (#[trigger] e.drop_last()[q]).0 != k by {
                    assert(e.drop_last()[q] == e[q]);
                }
            }
        }
        if forall|j: int| 0 <= j < e.len() ==> (#[trigger] e[j]).0 != k {
            assert(e[e.len() - 1].0 != k);
            assert forall|j: int| 0 <= j < e.drop_last().len() implies (#[trigger] e.drop_last()[j]).0 != k by {
                assert(e.drop_last()[j] == e[j]);
            }
        }
    }
}

/// The imports that refer `module`'s symbols `syms` under their own names.
pub open spec fn refer_map(module: Seq<char>, syms: Set<Seq<char>>) -> Map<Seq<char>, (Seq<char>, Seq<char>)> {
    Map::new(|k: Seq<char>| syms.contains(k), |k: Seq<char>| (module, k))
}

/// Entries that refer each of `syms` from `module` under its own name.
pub open spec fn refer_entries(module: Seq<char>, syms: Seq<Seq<char>>) -> Seq<(Seq<char>, (Seq<char>, Seq<char>))> {
    syms.map_values(|s: Seq<char>| (s, (module, s)))
}

/// Entries that refer each `(source, local)` of `pairs` from `module` as
/// `local`.
pub open spec fn rename_entries(module: Seq<char>, pairs: Seq<(Seq<char>, Seq<char>)>) -> Seq<
    (Seq<char>, (Seq<char>, Seq<char>)),
> {
    pairs.map_values(|p: (Seq<char>, Seq<char>)| (p.1, (module, p.0)))
}

proof fn lemma_refer_all(m: Map<Seq<char>, (Seq<char>, Seq<char>)>, module: Seq<char>, syms: Seq<Seq<char>>)
    ensures
        assoc_map(m, refer_entries(module, syms)) == m.union_prefer_right(refer_map(module, syms.to_set())),
    decreases syms.len(),
{
    if syms.len() == 0 {
        assert(m.union_prefer_right(refer_map(module, syms.to_set())) =~= m);
    } else {
        let d = syms.drop_last();
        assert(refer_entries(module, syms).drop_last() =~= refer_entries(module, d));
        lemma_refer_all(m, module, d);
        assert(syms.to_set() =~= d.to_set().insert(syms.last())) by {
            assert(syms =~= d.push(syms.last()));
            d.lemma_push_to_set_commute(syms.last());
        }
        assert(assoc_map(m, refer_entries(module, syms)) =~= m.union_prefer_right(refer_map(module, syms.to_set())));
    }
}

/// The module that holds the functions of the Rust library `library`:
/// `rust.` and its name with underscores for dashes.
pub fn rust_module_of(library: &str) -> (r: String)
    ensures
        r@ == "rust."@ + lib_base(library@),
{
    let mut module = string_from("rust.");
    let base = replace_char(library, '-', '_');
    push_str(&mut module, base.as_str());
    module
}

/// Where an imported symbol comes from.
pub struct ImportBinding {
    pub namespace: String,
    pub symbol: String,
}

/// One library of a `require`: its module, an alias, and the symbols it
/// refers (all of them, some by name, or some under new names).
pub struct RequireSpec {
    pub module: String,
    pub alias: Option<String>,
    pub refer_all: bool,
    pub refer: Vec<String>,
    /// `(source, local)`: the module's `source` is known here as `local`.
    pub rename: Vec<(String, String)>,
}

/// The namespace being evaluated in, with the aliases and imports that are
/// in force there.
pub struct NamespaceState {
    current: String,
    aliases: Vec<(String, String)>,
    imports: Vec<(String, ImportBinding)>,
}

/// Alias entries as text.
pub open spec fn alias_texts(a: Seq<(String, String)>) -> Seq<(Seq<char>, Seq<char>)> {
    a.map_values(|e: (String, String)| (e.0@, e.1@))
}

/// Import entries as text.
pub open spec fn import_texts(a: Seq<(String, ImportBinding)>) -> Seq<(Seq<char>, (Seq<char>, Seq<char>))> {
    a.map_values(|e: (String, ImportBinding)| (e.0@, (e.1.namespace@, e.1.symbol@)))
}

/// The imports that entering a namespace brings: the core namespace's
/// symbols, except in the core namespace itself.
pub open spec fn entry_imports(ns: Seq<char>, reg: Map<Seq<char>, Set<Seq<char>>>) -> Map<
    Seq<char>,
    (Seq<char>, Seq<char>),
> {
    if ns != core_namespace() && reg.contains_key(core_namespace()) {
        refer_map(core_namespace(), reg[core_namespace()])
    } else {
        Map::empty()
    }
}

/// The imports after a `require` of `spec`.
pub open spec fn required_imports(
    old_imports: Map<Seq<char>, (Seq<char>, Seq<char>)>,
    module: Seq<char>,
    refer_all: bool,
    refer: Seq<Seq<char>>,
    rename: Seq<(Seq<char>, Seq<char>)>,
    reg: Map<Seq<char>, Set<Seq<char>>>,
) -> Map<Seq<char>, (Seq<char>, Seq<char>)> {
    if refer_all {
        if reg.contains_key(module) {
            old_imports.union_prefer_right(refer_map(module, reg[module]))
        } else {
            old_imports
        }
    } else {
        assoc_map(assoc_map(old_imports, refer_entries(module, refer)), rename_entries(module, rename))
    }
}

impl NamespaceState {
    /// The name of the namespace.
    pub closed spec fn name_view(&self) -> Seq<char> {
        self.current@
    }

    /// The name of the namespace.
    pub fn current_name(&self) -> (r: &str)
        ensures
            r@ == self.name_view(),
    {
        self.current.as_str()
    }

    /// The aliases in force: alias to module.
    pub closed spec fn alias_view(&self) -> Map<Seq<char>, Seq<char>> {
        assoc_map(Map::empty(), alias_texts(self.aliases@))
    }

    /// The imports in force: local name to (namespace, symbol).
    pub closed spec fn import_view(&self) -> Map<Seq<char>, (Seq<char>, Seq<char>)> {
        assoc_map(Map::empty(), import_texts(self.imports@))
    }

    /// The namespace `name`, with no aliases or imports.
    pub fn new(name: &str) -> (r: Self)
        ensures
            r.name_view() == name@,
            r.alias_view() == Map::<Seq<char>, Seq<char>>::empty(),
            r.import_view() == Map::<Seq<char>, (Seq<char>, Seq<char>)>::empty(),
    {
        let r = NamespaceState { current: string_from(name), aliases: Vec::new(), imports: Vec::new() };
        proof {
            assert(alias_texts(r.aliases@).len() == 0);
            assert(import_texts(r.imports@).len() == 0);
        }
        r
    }

    fn add_import(&mut self, local: &str, namespace: &str, symbol: &str)
        ensures
            final(self).name_view() == old(self).name_view(),
            final(self).alias_view() == old(self).alias_view(),
            final(self).import_view() == old(self).import_view().insert(local@, (namespace@, symbol@)),
    {
        let ghost before = import_texts(self.imports@);
        self.imports.push(
            (string_from(local), ImportBinding { namespace: string_from(namespace), symbol: string_from(symbol) }),
        );
        proof {
            assert(import_texts(self.imports@).drop_last() =~= before);
        }
    }

    fn add_alias(&mut self, alias: &str, module: &str)
        ensures
            final(self).name_view() == old(self).name_view(),
            final(self).import_view() == old(self).import_view(),
            final(self).alias_view() == old(self).alias_view().insert(alias@, module@),
    {
        let ghost before = alias_texts(self.aliases@);
        self.aliases.push((string_from(alias), string_from(module)));
        proof {
            assert(alias_texts(self.aliases@).drop_last() =~= before);
        }
    }

    /// Refers each of `syms` from `module` under its own name.
    fn refer_each(&mut self, module: &str, syms: &Vec<String>)
        ensures
            final(self).name_view() == old(self).name_view(),
            final(self).alias_view() == old(self).alias_view(),
            final(self).import_view() == assoc_map(old(self).import_view(), refer_entries(module@, texts(syms@))),
    {
        let ghost sv = texts(syms@);
        let mut i: usize = 0;
        while i < syms.len()
            invariant
                i <= syms@.len(),
                sv == texts(syms@),
                self.name_view() == old(self).name_view(),
                self.alias_view() == old(self).alias_view(),
                self.import_view() == assoc_map(old(self).import_view(), refer_entries(module@, sv.take(i as int))),
            decreases syms.len() - i,
        {
            self.add_import(syms[i].as_str(), module, syms[i].as_str());
            proof {
                assert(refer_entries(module@, sv.take(i + 1)).drop_last() =~= refer_entries(module@, sv.take(i as int)));
                assert(refer_entries(module@, sv.take(i + 1)).last() == (sv[i as int], (module@, sv[i as int])));
            }
            i += 1;
        }
        proof {
            assert(sv.take(syms@.len() as int) =~= sv);
        }
    }

    /// Enters the namespace `ns`: no aliases, and the core namespace's
    /// symbols imported (outside the core namespace itself).
    pub fn set_namespace(&mut self, ns: &str, registry: &SymbolRegistry)
        ensures
            final(self).name_view() == ns@,
            final(self).alias_view() == Map::<Seq<char>, Seq<char>>::empty(),
            final(self).import_view() == entry_imports(ns@, registry@),
    {
        *self = NamespaceState::new(ns);
        proof {
            reveal_strlit("clorus.core");
        }
        if !same_text(ns, "clorus.core") {
            match registry.symbols("clorus.core") {
                Some(syms) => {
                    self.refer_each("clorus.core", &syms);
                    proof {
                        lemma_refer_all(Map::empty(), core_namespace(), texts(syms@));
                        assert(Map::<Seq<char>, (Seq<char>, Seq<char>)>::empty().union_prefer_right(
                            refer_map(core_namespace(), registry@[core_namespace()]),
                        ) =~= refer_map(core_namespace(), registry@[core_namespace()]));
                    }
                },
                None => {},
            }
        }
    }

    /// Applies a `require`: the alias, then the symbols it refers.
    pub fn process_require(&mut self, spec: &RequireSpec, registry: &SymbolRegistry)
        ensures
            final(self).name_view() == old(self).name_view(),
            final(self).alias_view() == match spec.alias {
                Some(a) => old(self).alias_view().insert(a@, spec.module@),
                None => old(self).alias_view(),
            },
            final(self).import_view() == required_imports(
                old(self).import_view(),
                spec.module@,
                spec.refer_all,
                texts(spec.refer@),
                alias_texts(spec.rename@),
                registry@,
            ),
    {
        match &spec.alias {
            Some(a) => self.add_alias(a.as_str(), spec.module.as_str()),
            None => {},
        }
        if spec.refer_all {
            match registry.symbols(spec.module.as_str()) {
                Some(syms) => {
                    let ghost before = self.import_view();
                    self.refer_each(spec.module.as_str(), &syms);
                    proof {
                        lemma_refer_all(before, spec.module@, texts(syms@));
                    }
                },
                None => {},
            }
        } else {
            self.refer_each(spec.module.as_str(), &spec.refer);
            let ghost mid = self.import_view();
            let ghost rv = alias_texts(spec.rename@);
            let mut i: usize = 0;
            while i < spec.rename.len()
                invariant
                    i <= spec.rename@.len(),
                    rv == alias_texts(spec.rename@),
                    self.name_view() == old(self).name_view(),
                    self.alias_view() == match spec.alias {
                        Some(a) => old(self).alias_view().insert(a@, spec.module@),
                        None => old(self).alias_view(),
                    },
                    self.import_view() == assoc_map(mid, rename_entries(spec.module@, rv.take(i as int))),
                decreases spec.rename.len() - i,
            {
                let (source, local) = (&spec.rename[i].0, &spec.rename[i].1);
                self.add_import(local.as_str(), spec.module.as_str(), source.as_str());
                proof {
                    assert(rename_entries(spec.module@, rv.take(i + 1)).drop_last() =~= rename_entries(
                        spec.module@,
                        rv.take(i as int),
                    ));
                    assert(rv[i as int] == (source@, local@));
                }
                i += 1;
            }
            proof {
                assert(rv.take(spec.rename@.len() as int) =~= rv);
            }
        }
    }

    /// Makes `alias` stand for the Rust library `library`, whose functions
    /// live in the module `rust.` and its name with underscores.
    pub fn add_rust_alias(&mut self, alias: &str, library: &str)
        ensures
            final(self).name_view() == old(self).name_view(),
            final(self).import_view() == old(self).import_view(),
            final(self).alias_view() == old(self).alias_view().insert(alias@, "rust."@ + lib_base(library@)),
    {
        let module = rust_module_of(library);
        self.add_alias(alias, module.as_str());
    }

    /// The alias entries in the order they were made; made again in that
    /// order, a later one replacing an earlier one, they give the aliases.
    pub fn alias_entries(&self) -> (r: Vec<(String, String)>)
        ensures
            assoc_map(Map::empty(), alias_texts(r@)) == self.alias_view(),
    {
        let mut out: Vec<(String, String)> = Vec::new();
        let mut i: usize = 0;
        while i < self.aliases.len()
            invariant
                i <= self.aliases@.len(),
                alias_texts(out@) == alias_texts(self.aliases@).take(i as int),
            decreases self.aliases.len() - i,
        {
            let ghost prev = out@;
            out.push((string_from(self.aliases[i].0.as_str()), string_from(self.aliases[i].1.as_str())));
            proof {
                assert(alias_texts(out@) =~= alias_texts(prev).push(alias_texts(self.aliases@)[i as int]));
                assert(alias_texts(out@) =~= alias_texts(self.aliases@).take(i + 1));
            }
            i += 1;
        }
        proof {
            assert(alias_texts(out@) =~= alias_texts(self.aliases@));
        }
        out
    }

    /// The import entries in the order they were made; made again in that
    /// order, a later one replacing an earlier one, they give the imports.
    pub fn import_entries(&self) -> (r: Vec<(String, ImportBinding)>)
        ensures
            assoc_map(Map::empty(), import_texts(r@)) == self.import_view(),
    {
        let mut out: Vec<(String, ImportBinding)> = Vec::new();
        let mut i: usize = 0;
        while i < self.imports.len()
            invariant
                i <= self.imports@.len(),
                import_texts(out@) == import_texts(self.imports@).take(i as int),
            decreases self.imports.len() - i,
        {
            let e = &self.imports[i];
            let ghost prev = out@;
            out.push(
                (
                    string_from(e.0.as_str()),
                    ImportBinding { namespace: string_from(e.1.namespace.as_str()), symbol: string_from(e.1.symbol.as_str()) },
                ),
            );
            proof {
                assert(import_texts(out@) =~= import_texts(prev).push(import_texts(self.imports@)[i as int]));
                assert(import_texts(out@) =~= import_texts(self.imports@).take(i + 1));
            }
            i += 1;
        }
        proof {
            assert(import_texts(out@) =~= import_texts(self.imports@));
        }
        out
    }

    /// The module that `alias` stands for.
    pub fn alias_target(&self, alias: &str) -> (r: Option<String>)
        ensures
            r is None <==> !self.alias_view().contains_key(alias@),
            r matches Some(m) ==> self.alias_view()[alias@] == m@,
    {
        let ghost av = alias_texts(self.aliases@);
        let mut i: usize = self.aliases.len();
        while i > 0
            invariant
                i <= self.aliases@.len(),
                av == alias_texts(self.aliases@),
                forall|q: int| i <= q < av.len() ==> (#[trigger] av[q]).0 != alias@,
            decreases i,
        {
            i -= 1;
            if same_text(self.aliases[i].0.as_str(), alias) {
                proof {
                    lemma_assoc_lookup(Map::empty(), av, alias@);
                    assert(av[i as int].0 == alias@);
                }
                return Some(string_from(self.aliases[i].1.as_str()));
            }
        }
        proof {
            lemma_assoc_lookup(Map::empty(), av, alias@);
        }
        None
    }

    /// Where the local name `sym` is imported from.
    pub fn import_of(&self, sym: &str) -> (r: Option<ImportBinding>)
        ensures
            r is None <==> !self.import_view().contains_key(sym@),
            r matches Some(b) ==> self.import_view()[sym@] == (b.namespace@, b.symbol@),
    {
        let ghost iv = import_texts(self.imports@);
        let mut i: usize = self.imports.len();
        while i > 0
            invariant
                i <= self.imports@.len(),
                iv == import_texts(self.imports@),
                forall|q: int| i <= q < iv.len() ==> (#[trigger] iv[q]).0 != sym@,
            decreases i,
        {
            i -= 1;
            if same_text(self.imports[i].0.as_str(), sym) {
                proof {
                    lemma_assoc_lookup(Map::empty(), iv, sym@);
                    assert(iv[i as int].0 == sym@);
                }
                let b = &self.imports[i].1;
                return Some(
                    ImportBinding { namespace: string_from(b.namespace.as_str()), symbol: string_from(b.symbol.as_str()) },
                );
            }
        }
        proof {
            lemma_assoc_lookup(Map::empty(), iv, sym@);
        }
        None
    }
}


proof fn lemma_split_nonempty(s: Seq<char>, d: Seq<char>)
    ensures
        split_text(s, d).len() >= 1,
{
    reveal(split_text);
}

/// Where the source of the namespace `ns` lies: whether it is a standard
/// library module (its first part is `clorus`), and the path's components.
/// `demos.shapes-demo` is `src/demos/shapes-demo.clrs` below the project;
/// `clorus.string.utils` is `clorus/string/utils.clr` below a standard
/// library directory.
pub open spec fn spec_module_file(ns: Seq<char>) -> (bool, Seq<Seq<char>>) {
    let parts = split_text(ns, seq!['.']);
    let n = parts.len();
    let dirs = parts.take(n - 1);
    if parts[0] == "clorus"@ {
        (true, dirs.push(parts[n - 1] + ".clr"@))
    } else {
        (false, seq!["src"@] + dirs.push(parts[n - 1] + ".clrs"@))
    }
}

/// Where the source of the namespace `ns` lies (see [`spec_module_file`]).
pub fn module_file(ns: &str) -> (r: (bool, Vec<String>))
    ensures
        r.0 == spec_module_file(ns@).0,
        texts(r.1@) == spec_module_file(ns@).1,
{
    let cs = chars_of(ns);
    let mut ds: Vec<char> = Vec::new();
    ds.push('.');
    let parts = split_pieces(&cs, &ds);
    let ghost pv = texts_view(parts@);
    proof {
        assert(ds@ =~= seq!['.']);
        lemma_split_nonempty(ns@, seq!['.']);
        reveal_strlit("clorus");
        reveal_strlit("src");
    }
    let n = parts.len();
    let first = string_of_vec(&parts[0]);
    let stdlib = same_text(first.as_str(), "clorus");
    let mut out: Vec<String> = Vec::new();
    if !stdlib {
        out.push(string_from("src"));
    }
    let ghost base = texts(out@);
    let mut i: usize = 0;
    while i + 1 < n
        invariant
            n == parts@.len(),
            n >= 1,
            i < n,
            pv == texts_view(parts@),
            texts(out@) == base + pv.take(i as int),
        decreases n - i,
    {
        let ghost prev = texts(out@);
        let piece = string_of_vec(&parts[i]);
        out.push(piece);
        proof {
            assert(pv[i as int] == parts@[i as int]@);
            assert(texts(out@) =~= prev.push(pv[i as int]));
            assert(pv.take(i + 1) =~= pv.take(i as int).push(pv[i as int]));
            assert(texts(out@) =~= base + pv.take(i + 1));
        }
        i += 1;
    }
    let mut last = string_of_vec(&parts[n - 1]);
    if stdlib {
        push_str(&mut last, ".clr");
    } else {
        push_str(&mut last, ".clrs");
    }
    let ghost mid = texts(out@);
    out.push(last);
    proof {
        assert(pv[n - 1] == parts@[n - 1]@);
        assert(pv[0] == parts@[0]@);
        assert(texts(out@) =~= mid.push(pv[n - 1] + if stdlib { ".clr"@ } else { ".clrs"@ }));
        if stdlib {
            assert(base =~= Seq::<Seq<char>>::empty());
            assert(texts(out@) =~= spec_module_file(ns@).1);
        } else {
            assert(base =~= seq!["src"@]);
            assert(texts(out@) =~= spec_module_file(ns@).1);
        }
    }
    (stdlib, out)
}

} // verus!
