//! What a REPL session remembers between inputs, apart from compiled code:
//! the symbols of each namespace, the current namespace, the modules that
//! were loaded, the namespaces that `.clip` packages provide, and whether the
//! standard library was loaded.

use crate::namespace::{core_namespace, texts, NamespaceState, RequireSpec, SymbolRegistry};
use crate::repl::EvalKind;
use crate::text::{has_prefix, same_text, starts_with_text, string_from};
use vstd::prelude::*;

verus! {

/// The shape of a top-level form, as far as the session's bookkeeping
/// reads it.
pub enum FormKind {
    /// `(ns name ...)`.
    Ns(String),
    /// `(require ...)`.
    Require,
    /// `(use ...)`.
    Use,
    /// `(declare ...)`.
    Declare,
    /// `(def name ...)`.
    Def(String),
    /// `(defn name ...)`.
    Defn(String),
    /// `(defmacro name ...)`.
    Defmacro(String),
    /// Any other form.
    Other,
}

/// Whether `k` is how a REPL shows the form `f`.
pub open spec fn eval_kind_for(f: FormKind, k: EvalKind) -> bool {
    match f {
        FormKind::Def(n) => k matches EvalKind::Def(m) && m@ == n@,
        FormKind::Defn(n) => k matches EvalKind::Defn(m) && m@ == n@,
        FormKind::Defmacro(n) => k matches EvalKind::Defmacro(m) && m@ == n@,
        FormKind::Ns(_) => k is Namespace,
        FormKind::Require | FormKind::Use => k is Import,
        _ => k is Value,
    }
}

/// How the REPL shows the result of the form `f`.
pub fn eval_kind_of(f: &FormKind) -> (r: EvalKind)
    ensures
        eval_kind_for(*f, r),
{
    match f {
        FormKind::Def(n) => EvalKind::Def(string_from(n.as_str())),
        FormKind::Defn(n) => EvalKind::Defn(string_from(n.as_str())),
        FormKind::Defmacro(n) => EvalKind::Defmacro(string_from(n.as_str())),
        FormKind::Ns(_) => EvalKind::Namespace,
        FormKind::Require => EvalKind::Import,
        FormKind::Use => EvalKind::Import,
        _ => EvalKind::Value,
    }
}

/// The namespace in force after the first `n` forms, starting in `start`.
pub open spec fn ns_after(forms: Seq<FormKind>, start: Seq<char>, n: int) -> Seq<char>
    decreases n,
{
    if n <= 0 {
        start
    } else {
        match forms[n - 1] {
            FormKind::Ns(name) => name@,
            _ => ns_after(forms, start, n - 1),
        }
    }
}

/// The name that a form defines in its namespace (`def` and `defn`).
pub open spec fn defined_name(f: FormKind) -> Option<Seq<char>> {
    match f {
        FormKind::Def(n) => Some(n@),
        FormKind::Defn(n) => Some(n@),
        _ => None,
    }
}

/// The (namespace, name) of each definition among the first `n` forms.
pub open spec fn definitions(forms: Seq<FormKind>, start: Seq<char>, n: int) -> Seq<(Seq<char>, Seq<char>)>
    decreases n,
{
    if n <= 0 {
        Seq::empty()
    } else {
        let prev = definitions(forms, start, n - 1);
        match defined_name(forms[n - 1]) {
            Some(name) => prev.push((ns_after(forms, start, n - 1), name)),
            None => prev,
        }
    }
}

/// Forms that only direct loading and have nothing to run.
pub open spec fn is_directive(f: FormKind) -> bool {
    f is Ns || f is Require || f is Use || f is Declare
}

/// The position and namespace of each of the first `n` forms that is run
/// when the standard library is replayed.
pub open spec fn replayed(forms: Seq<FormKind>, start: Seq<char>, n: int) -> Seq<(int, Seq<char>)>
    decreases n,
{
    if n <= 0 {
        Seq::empty()
    } else {
        let prev = replayed(forms, start, n - 1);
        if is_directive(forms[n - 1]) {
            prev
        } else {
            prev.push((n - 1, ns_after(forms, start, n - 1)))
        }
    }
}

/// A registry after recording that `ns` defines `s`.
pub open spec fn registry_add(m: Map<Seq<char>, Set<Seq<char>>>, ns: Seq<char>, s: Seq<char>) -> Map<
    Seq<char>,
    Set<Seq<char>>,
> {
    m.insert(
        ns,
        if m.contains_key(ns) {
            m[ns].insert(s)
        } else {
            Set::empty().insert(s)
        },
    )
}

/// A registry after recording each (namespace, symbol) of `e` in order.
pub open spec fn registry_add_all(m: Map<Seq<char>, Set<Seq<char>>>, e: Seq<(Seq<char>, Seq<char>)>) -> Map<
    Seq<char>,
    Set<Seq<char>>,
>
    decreases e.len(),
{
    if e.len() == 0 {
        m
    } else {
        registry_add(registry_add_all(m, e.drop_last()), e.last().0, e.last().1)
    }
}

/// Positions and namespaces as text.
pub open spec fn placed_texts(v: Seq<(usize, String)>) -> Seq<(int, Seq<char>)> {
    v.map_values(|p: (usize, String)| (p.0 as int, p.1@))
}

/// The bookkeeping of a REPL session.
pub struct ReplState {
    pub registry: SymbolRegistry,
    pub namespace: NamespaceState,
    /// Modules loaded (or being loaded) from source.
    pub loaded: Vec<String>,
    /// Namespaces (and prefixes of namespaces) that `.clip` packages provide.
    pub clip_namespaces: Vec<String>,
    pub stdlib_loaded: bool,
}

/// Whether `ns` lies under one of the `.clip` namespaces `clips`.
pub open spec fn from_clip(ns: Seq<char>, clips: Seq<Seq<char>>) -> bool {
    exists|i: int| 0 <= i < clips.len() && has_prefix(ns, #[trigger] clips[i])
}

impl ReplState {
    /// The modules loaded from source.
    pub open spec fn loaded_view(&self) -> Set<Seq<char>> {
        texts(self.loaded@).to_set()
    }

    /// The namespaces that `.clip` packages provide.
    pub open spec fn clip_view(&self) -> Set<Seq<char>> {
        texts(self.clip_namespaces@).to_set()
    }

    /// A new session in the namespace `user`.
    pub fn new() -> (r: Self)
        ensures
            r.registry@ == Map::<Seq<char>, Set<Seq<char>>>::empty(),
            r.namespace.name_view() == "user"@,
            r.namespace.alias_view() == Map::<Seq<char>, Seq<char>>::empty(),
            r.namespace.import_view() == Map::<Seq<char>, (Seq<char>, Seq<char>)>::empty(),
            r.loaded_view() == Set::<Seq<char>>::empty(),
            r.clip_view() == Set::<Seq<char>>::empty(),
            !r.stdlib_loaded,
    {
        let r = ReplState {
            registry: SymbolRegistry::new(),
            namespace: NamespaceState::new("user"),
            loaded: Vec::new(),
            clip_namespaces: Vec::new(),
            stdlib_loaded: false,
        };
        proof {
            assert(r.loaded_view() =~= Set::<Seq<char>>::empty());
            assert(r.clip_view() =~= Set::<Seq<char>>::empty());
        }
        r
    }

    /// The name of the current namespace.
    pub fn current_namespace(&self) -> (r: &str)
        ensures
            r@ == self.namespace.name_view(),
    {
        self.namespace.current_name()
    }

    /// Records that a `.clip` package provides the namespace `ns`.
    pub fn register_clip_namespace(&mut self, ns: &str)
        ensures
            final(self).clip_view() == old(self).clip_view().insert(ns@),
            final(self).loaded_view() == old(self).loaded_view(),
            final(self).registry@ == old(self).registry@,
            final(self).stdlib_loaded == old(self).stdlib_loaded,
    {
        let ghost before = texts(self.clip_namespaces@);
        self.clip_namespaces.push(string_from(ns));
        proof {
            assert(texts(self.clip_namespaces@) =~= before.push(ns@));
            before.lemma_push_to_set_commute(ns@);
        }
    }

    /// Records that the module `ns` was loaded.
    pub fn mark_loaded(&mut self, ns: &str)
        ensures
            final(self).loaded_view() == old(self).loaded_view().insert(ns@),
            final(self).clip_view() == old(self).clip_view(),
            final(self).registry@ == old(self).registry@,
            final(self).stdlib_loaded == old(self).stdlib_loaded,
    {
        let ghost before = texts(self.loaded@);
        self.loaded.push(string_from(ns));
        proof {
            assert(texts(self.loaded@) =~= before.push(ns@));
            before.lemma_push_to_set_commute(ns@);
        }
    }

    /// Whether the module `ns` is to be loaded from source: not when it was
    /// loaded already, nor when a `.clip` package provides it. A module to
    /// be loaded is recorded as loaded at once, so that a cycle of
    /// `require`s ends.
    pub fn begin_module_load(&mut self, ns: &str) -> (r: bool)
        ensures
            r == (!old(self).loaded_view().contains(ns@) && !from_clip(ns@, texts(old(self).clip_namespaces@))),
            final(self).loaded_view() == if r {
                old(self).loaded_view().insert(ns@)
            } else {
                old(self).loaded_view()
            },
            final(self).clip_view() == old(self).clip_view(),
            final(self).registry@ == old(self).registry@,
            final(self).stdlib_loaded == old(self).stdlib_loaded,
    {
        let ghost lv = texts(self.loaded@);
        let mut i: usize = 0;
        while i < self.loaded.len()
            invariant
                i <= self.loaded@.len(),
                lv == texts(self.loaded@),
                forall|j: int| 0 <= j < i ==> lv[j] != ns@,
            decreases self.loaded.len() - i,
        {
            if same_text(self.loaded[i].as_str(), ns) {
                proof {
                    assert(lv[i as int] == ns@);
                    assert(lv.contains(ns@));
                }
                return false;
            }
            i += 1;
        }
        let ghost cv = texts(self.clip_namespaces@);
        let mut k: usize = 0;
        while k < self.clip_namespaces.len()
            invariant
                k <= self.clip_namespaces@.len(),
                cv == texts(self.clip_namespaces@),
                forall|j: int| 0 <= j < k ==> !has_prefix(ns@, #[trigger] cv[j]),
            decreases self.clip_namespaces.len() - k,
        {
            if starts_with_text(ns, self.clip_namespaces[k].as_str()) {
                proof {
                    assert(has_prefix(ns@, cv[k as int]));
                }
                return false;
            }
            k += 1;
        }
        proof {
            assert(!lv.contains(ns@));
        }
        self.mark_loaded(ns);
        true
    }

    /// Enters the namespace `ns` (see [`NamespaceState::set_namespace`]).
    pub fn set_namespace(&mut self, ns: &str)
        ensures
            final(self).namespace.name_view() == ns@,
            final(self).namespace.alias_view() == Map::<Seq<char>, Seq<char>>::empty(),
            final(self).namespace.import_view() == crate::namespace::entry_imports(ns@, old(self).registry@),
            final(self).registry@ == old(self).registry@,
            final(self).loaded_view() == old(self).loaded_view(),
            final(self).clip_view() == old(self).clip_view(),
            final(self).stdlib_loaded == old(self).stdlib_loaded,
    {
        self.namespace.set_namespace(ns, &self.registry);
    }

    /// Applies a `require` to the current namespace (see
    /// [`NamespaceState::process_require`]).
    pub fn process_require(&mut self, spec: &RequireSpec)
        ensures
            final(self).namespace.name_view() == old(self).namespace.name_view(),
            final(self).namespace.alias_view() == match spec.alias {
                Some(a) => old(self).namespace.alias_view().insert(a@, spec.module@),
                None => old(self).namespace.alias_view(),
            },
            final(self).namespace.import_view() == crate::namespace::required_imports(
                old(self).namespace.import_view(),
                spec.module@,
                spec.refer_all,
                texts(spec.refer@),
                crate::namespace::alias_texts(spec.rename@),
                old(self).registry@,
            ),
            final(self).registry@ == old(self).registry@,
            final(self).loaded_view() == old(self).loaded_view(),
            final(self).clip_view() == old(self).clip_view(),
            final(self).stdlib_loaded == old(self).stdlib_loaded,
    {
        self.namespace.process_require(spec, &self.registry);
    }

    /// Records the definitions among `forms`, read from the namespace
    /// `clorus.core` on; gives their number and the forms to replay.
    fn register_definitions(&mut self, forms: &Vec<FormKind>) -> (r: (usize, Vec<(usize, String)>))
        ensures
            r.0 == definitions(forms@, core_namespace(), forms@.len() as int).len(),
            placed_texts(r.1@) == replayed(forms@, core_namespace(), forms@.len() as int),
            final(self).registry@ == registry_add_all(
                old(self).registry@,
                definitions(forms@, core_namespace(), forms@.len() as int),
            ),
            final(self).loaded_view() == old(self).loaded_view(),
            final(self).clip_view() == old(self).clip_view(),
            final(self).stdlib_loaded == old(self).stdlib_loaded,
            final(self).namespace == old(self).namespace,
    {
        let ghost start = core_namespace();
        let mut current = string_from("clorus.core");
        proof {
            reveal_strlit("clorus.core");
        }
        let mut count: usize = 0;
        let mut kept: Vec<(usize, String)> = Vec::new();
        let mut i: usize = 0;
        while i < forms.len()
            invariant
                i <= forms@.len(),
                current@ == ns_after(forms@, start, i as int),
                count == definitions(forms@, start, i as int).len(),
                count <= i,
                placed_texts(kept@) == replayed(forms@, start, i as int),
                self.registry@ == registry_add_all(old(self).registry@, definitions(forms@, start, i as int)),
                self.loaded_view() == old(self).loaded_view(),
                self.clip_view() == old(self).clip_view(),
                self.stdlib_loaded == old(self).stdlib_loaded,
                self.namespace == old(self).namespace,
            decreases forms.len() - i,
        {
            let ghost defs = definitions(forms@, start, i as int);
            let ghost before = placed_texts(kept@);
            match &forms[i] {
                FormKind::Ns(name) => {
                    current = string_from(name.as_str());
                },
                FormKind::Require => {},
                FormKind::Use => {},
                FormKind::Declare => {},
                FormKind::Def(name) => {
                    self.registry.register(current.as_str(), name.as_str());
                    count += 1;
                    kept.push((i, string_from(current.as_str())));
                    proof {
                        let nd = definitions(forms@, start, i + 1);
                        assert(nd.drop_last() =~= defs);
                        assert(placed_texts(kept@) =~= before.push((i as int, current@)));
                    }
                },
                FormKind::Defn(name) => {
                    self.registry.register(current.as_str(), name.as_str());
                    count += 1;
                    kept.push((i, string_from(current.as_str())));
                    proof {
                        let nd = definitions(forms@, start, i + 1);
                        assert(nd.drop_last() =~= defs);
                        assert(placed_texts(kept@) =~= before.push((i as int, current@)));
                    }
                },
                _ => {
                    kept.push((i, string_from(current.as_str())));
                    proof {
                        assert(placed_texts(kept@) =~= before.push((i as int, current@)));
                    }
                },
            }
            i += 1;
        }
        (count, kept)
    }

    /// Loads the standard library's forms once: records their definitions
    /// (reading from `clorus.core` on, switching at each `ns`), marks
    /// `clorus.core` as loaded, and enters `user` again. Gives the number
    /// of definitions and, for each form to run, its position and
    /// namespace. A second call, or one with no forms, changes nothing and
    /// gives nothing.
    pub fn load_stdlib_batch(&mut self, forms: &Vec<FormKind>) -> (r: (usize, Vec<(usize, String)>))
        ensures
            old(self).stdlib_loaded || forms@.len() == 0 ==> r.0 == 0 && r.1@.len() == 0 && *final(self) == *old(
                self,
            ),
            !old(self).stdlib_loaded && forms@.len() > 0 ==> {
                let defs = definitions(forms@, core_namespace(), forms@.len() as int);
                let reg = registry_add_all(old(self).registry@, defs);
                &&& r.0 == defs.len()
                &&& placed_texts(r.1@) == replayed(forms@, core_namespace(), forms@.len() as int)
                &&& final(self).registry@ == reg
                &&& final(self).stdlib_loaded
                &&& final(self).loaded_view() == old(self).loaded_view().insert(core_namespace())
                &&& final(self).clip_view() == old(self).clip_view()
                &&& final(self).namespace.name_view() == "user"@
                &&& final(self).namespace.alias_view() == Map::<Seq<char>, Seq<char>>::empty()
                &&& final(self).namespace.import_view() == crate::namespace::entry_imports("user"@, reg)
            },
    {
        if self.stdlib_loaded || forms.len() == 0 {
            return (0, Vec::new());
        }
        let r = self.register_definitions(forms);
        self.stdlib_loaded = true;
        self.mark_loaded("clorus.core");
        proof {
            reveal_strlit("clorus.core");
        }
        self.set_namespace("user");
        r
    }

    /// Records the standard library's definitions without loading its code
    /// (another library provides it): as [`ReplState::load_stdlib_batch`],
    /// but the library is not marked as loaded and nothing is replayed.
    pub fn load_stdlib_symbols_only(&mut self, forms: &Vec<FormKind>) -> (r: usize)
        ensures
            old(self).stdlib_loaded || forms@.len() == 0 ==> r == 0 && *final(self) == *old(self),
            !old(self).stdlib_loaded && forms@.len() > 0 ==> {
                let defs = definitions(forms@, core_namespace(), forms@.len() as int);
                let reg = registry_add_all(old(self).registry@, defs);
                &&& r == defs.len()
                &&& final(self).registry@ == reg
                &&& !final(self).stdlib_loaded
                &&& final(self).loaded_view() == old(self).loaded_view().insert(core_namespace())
                &&& final(self).clip_view() == old(self).clip_view()
                &&& final(self).namespace.name_view() == "user"@
                &&& final(self).namespace.alias_view() == Map::<Seq<char>, Seq<char>>::empty()
                &&& final(self).namespace.import_view() == crate::namespace::entry_imports("user"@, reg)
            },
    {
        if self.stdlib_loaded || forms.len() == 0 {
            return 0;
        }
        let r = self.register_definitions(forms);
        self.mark_loaded("clorus.core");
        proof {
            reveal_strlit("clorus.core");
        }
        self.set_namespace("user");
        r.0
    }
}

} // verus!
