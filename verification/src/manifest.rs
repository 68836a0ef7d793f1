//! A project's `Clorus.toml` as the REPL reads it at start-up: the Rust
//! dependencies whose FFI libraries it loads, the static libraries that
//! `.clip` packages are linked with, the frameworks named under `[link]`,
//! and the `.clip` packages among the dependencies.

use crate::loading::{ffi_static_library_path, spec_ffi_static_library_path};
use crate::namespace::texts;
use crate::text::{ends_with_text, has_suffix, same_text, string_from};
use toml::Value as TomlAny;
use vstd::prelude::*;

verus! {

/// `toml::Value`, a parsed TOML value.
#[verifier::external_type_specification]
#[verifier::external_body]
pub struct ExTomlValue(TomlAny);

/// A TOML value as plain values: strings, integers, booleans, arrays and
/// tables (each key with its value, in the order the table lists them);
/// floats and datetimes are `Other`.
pub enum TomlValue {
    Str(String),
    Int(i64),
    Bool(bool),
    Array(Vec<TomlValue>),
    Table(Vec<(String, TomlValue)>),
    Other,
}

/// The document that the `toml` crate parses `text` into, if it is valid
/// TOML.
pub uninterp spec fn toml_document(text: Seq<char>) -> Option<TomlValue>;

/// `toml::Value` converted, variant by variant, into a [`TomlValue`].
#[verifier::external_body]
fn toml_plain(v: &TomlAny) -> (r: TomlValue) {
    match v {
        TomlAny::String(s) => TomlValue::Str(s.clone()),
        TomlAny::Integer(n) => TomlValue::Int(*n),
        TomlAny::Boolean(b) => TomlValue::Bool(*b),
        TomlAny::Array(a) => TomlValue::Array(a.iter().map(toml_plain).collect()),
        TomlAny::Table(t) => TomlValue::Table(t.iter().map(|(k, x)| (k.clone(), toml_plain(x))).collect()),
        _ => TomlValue::Other,
    }
}

/// `toml::from_str::<TomlAny>`, the document converted to plain
/// values. Claimed: the result is determined by the text alone (it is
/// named `toml_document` of it); tables list their keys in the crate's map
/// order, which is sorted unless its `preserve_order` feature is on.
#[verifier::external_body]
fn parse_toml(text: &str) -> (r: Option<TomlValue>)
    ensures
        r == toml_document(text@),
{
    toml::from_str::<TomlAny>(text).ok().map(|v| toml_plain(&v))
}

/// The value under `key` in the entries of a table: the first entry with
/// that key.
pub open spec fn table_get(t: Seq<(String, TomlValue)>, key: Seq<char>) -> Option<TomlValue>
    decreases t.len(),
{
    if t.len() == 0 {
        None
    } else if t[0].0@ == key {
        Some(t[0].1)
    } else {
        table_get(t.drop_first(), key)
    }
}

/// The value under `key` when `v` is a table.
pub open spec fn value_get(v: TomlValue, key: Seq<char>) -> Option<TomlValue> {
    match v {
        TomlValue::Table(t) => table_get(t@, key),
        _ => None,
    }
}

/// The entries of the table under `key` in `v`; none when it is missing
/// or no table.
pub open spec fn table_entries(v: TomlValue, key: Seq<char>) -> Seq<(String, TomlValue)> {
    match value_get(v, key) {
        Some(TomlValue::Table(t)) => t@,
        _ => Seq::empty(),
    }
}

/// The text of `v` when it is a string.
pub open spec fn str_of(v: Option<TomlValue>) -> Option<Seq<char>> {
    match v {
        Some(TomlValue::Str(s)) => Some(s@),
        _ => None,
    }
}

/// For each Rust dependency with a `path`: that path and its static FFI
/// library below the path's directory.
pub open spec fn ffi_libs_of(es: Seq<(String, TomlValue)>) -> Seq<(Seq<char>, Seq<char>)>
    decreases es.len(),
{
    if es.len() == 0 {
        Seq::empty()
    } else {
        let prev = ffi_libs_of(es.drop_last());
        match str_of(value_get(es.last().1, "path"@)) {
            Some(p) => prev.push((p, spec_ffi_static_library_path(es.last().0@))),
            None => prev,
        }
    }
}

/// The strings among the items of an array.
pub open spec fn strings_of(items: Seq<TomlValue>) -> Seq<Seq<char>>
    decreases items.len(),
{
    if items.len() == 0 {
        Seq::empty()
    } else {
        let prev = strings_of(items.drop_last());
        match items.last() {
            TomlValue::Str(s) => prev.push(s@),
            _ => prev,
        }
    }
}

/// The `.clip` paths among the dependencies: each `path` that ends in
/// `.clip`.
pub open spec fn clip_paths_of(es: Seq<(String, TomlValue)>) -> Seq<Seq<char>>
    decreases es.len(),
{
    if es.len() == 0 {
        Seq::empty()
    } else {
        let prev = clip_paths_of(es.drop_last());
        match str_of(value_get(es.last().1, "path"@)) {
            Some(p) => if has_suffix(p, ".clip"@) {
                prev.push(p)
            } else {
                prev
            },
            None => prev,
        }
    }
}

/// The frameworks listed under `[link]`.
pub open spec fn frameworks_of(doc: TomlValue) -> Seq<Seq<char>> {
    match value_get(doc, "link"@) {
        Some(link) => match value_get(link, "frameworks"@) {
            Some(TomlValue::Array(a)) => strings_of(a@),
            _ => Seq::empty(),
        },
        None => Seq::empty(),
    }
}

/// What the REPL loads for a project, read from its manifest.
pub struct ClipManifest {
    /// The names of the Rust dependencies, whose FFI libraries are loaded.
    pub rust_dependencies: Vec<String>,
    /// For each Rust dependency with a `path`: the path, and its static FFI
    /// library relative to the path's directory.
    pub rust_ffi_libs: Vec<(String, String)>,
    /// The frameworks listed under `[link]`.
    pub frameworks: Vec<String>,
    /// The `.clip` packages among the dependencies.
    pub clip_paths: Vec<String>,
}

/// Pairs of strings as text.
pub open spec fn pair_texts(v: Seq<(String, String)>) -> Seq<(Seq<char>, Seq<char>)> {
    v.map_values(|p: (String, String)| (p.0@, p.1@))
}

/// What a manifest is read as, by its text.
pub struct ManifestView {
    pub rust_dependencies: Seq<Seq<char>>,
    pub rust_ffi_libs: Seq<(Seq<char>, Seq<char>)>,
    pub frameworks: Seq<Seq<char>>,
    pub clip_paths: Seq<Seq<char>>,
}

impl ClipManifest {
    /// The manifest's fields as text.
    pub open spec fn view(&self) -> ManifestView {
        ManifestView {
            rust_dependencies: texts(self.rust_dependencies@),
            rust_ffi_libs: pair_texts(self.rust_ffi_libs@),
            frameworks: texts(self.frameworks@),
            clip_paths: texts(self.clip_paths@),
        }
    }
}

/// What the REPL loads for the manifest document `doc`.
pub open spec fn spec_clip_manifest(doc: TomlValue) -> ManifestView {
    let deps = table_entries(doc, "rust-dependencies"@);
    ManifestView {
        rust_dependencies: deps.map_values(|e: (String, TomlValue)| e.0@),
        rust_ffi_libs: ffi_libs_of(deps),
        frameworks: frameworks_of(doc),
        clip_paths: clip_paths_of(table_entries(doc, "dependencies"@)),
    }
}

/// The value under `key` in a table's entries (see [`table_get`]).
fn get_in<'a>(t: &'a Vec<(String, TomlValue)>, key: &str) -> (r: Option<&'a TomlValue>)
    ensures
        match r {
            Some(v) => table_get(t@, key@) == Some(*v),
            None => table_get(t@, key@) is None,
        },
{
    let mut i: usize = 0;
    proof {
        assert(t@.skip(0) =~= t@);
    }
    while i < t.len()
        invariant
            i <= t@.len(),
            table_get(t@, key@) == table_get(t@.skip(i as int), key@),
        decreases t.len() - i,
    {
        proof {
            assert(t@.skip(i as int)[0] == t@[i as int]);
            assert(t@.skip(i as int).drop_first() =~= t@.skip(i + 1));
        }
        if same_text(t[i].0.as_str(), key) {
            return Some(&t[i].1);
        }
        i += 1;
    }
    proof {
        assert(t@.skip(i as int).len() == 0);
    }
    None
}

/// The value under `key` when `v` is a table (see [`value_get`]).
fn get<'a>(v: &'a TomlValue, key: &str) -> (r: Option<&'a TomlValue>)
    ensures
        match r {
            Some(x) => value_get(*v, key@) == Some(*x),
            None => value_get(*v, key@) is None,
        },
{
    match v {
        TomlValue::Table(t) => get_in(t, key),
        _ => None,
    }
}

/// The entries of the table under `key` (see [`table_entries`]).
fn entries_of<'a>(v: &'a TomlValue, key: &str) -> (r: Option<&'a Vec<(String, TomlValue)>>)
    ensures
        match r {
            Some(t) => table_entries(*v, key@) == t@,
            None => table_entries(*v, key@) == Seq::<(String, TomlValue)>::empty(),
        },
{
    match get(v, key) {
        Some(TomlValue::Table(t)) => Some(t),
        _ => None,
    }
}

/// The `path` string of a dependency's value, if it has one.
fn path_of(v: &TomlValue) -> (r: Option<&String>)
    ensures
        match r {
            Some(s) => str_of(value_get(*v, "path"@)) == Some(s@),
            None => str_of(value_get(*v, "path"@)) is None,
        },
{
    proof {
        reveal_strlit("path");
    }
    match get(v, "path") {
        Some(TomlValue::Str(s)) => Some(s),
        _ => None,
    }
}

/// What the REPL loads for the manifest document `doc` (see
/// [`spec_clip_manifest`]).
pub fn clip_manifest(doc: &TomlValue) -> (r: ClipManifest)
    ensures
        r.view() == spec_clip_manifest(*doc),
{
    proof {
        reveal_strlit("rust-dependencies");
        reveal_strlit("dependencies");
        reveal_strlit("link");
        reveal_strlit("frameworks");
        reveal_strlit(".clip");
    }
    let mut rust_dependencies: Vec<String> = Vec::new();
    let mut rust_ffi_libs: Vec<(String, String)> = Vec::new();
    match entries_of(doc, "rust-dependencies") {
        Some(deps) => {
            let mut i: usize = 0;
            while i < deps.len()
                invariant
                    i <= deps@.len(),
                    texts(rust_dependencies@) == deps@.take(i as int).map_values(|e: (String, TomlValue)| e.0@),
                    pair_texts(rust_ffi_libs@) == ffi_libs_of(deps@.take(i as int)),
                decreases deps.len() - i,
            {
                let ghost names = texts(rust_dependencies@);
                let ghost libs = pair_texts(rust_ffi_libs@);
                let name = &deps[i].0;
                rust_dependencies.push(string_from(name.as_str()));
                proof {
                    assert(deps@.take(i + 1).drop_last() =~= deps@.take(i as int));
                    assert(texts(rust_dependencies@) =~= names.push(name@));
                    assert(deps@.take(i + 1).map_values(|e: (String, TomlValue)| e.0@) =~= deps@.take(
                        i as int,
                    ).map_values(|e: (String, TomlValue)| e.0@).push(name@));
                }
                match path_of(&deps[i].1) {
                    Some(p) => {
                        let lib = ffi_static_library_path(name.as_str());
                        rust_ffi_libs.push((string_from(p.as_str()), lib));
                        proof {
                            assert(pair_texts(rust_ffi_libs@) =~= libs.push(
                                (p@, spec_ffi_static_library_path(name@)),
                            ));
                        }
                    },
                    None => {},
                }
                i += 1;
            }
            proof {
                assert(deps@.take(deps@.len() as int) =~= deps@);
            }
        },
        None => {
            proof {
                assert(texts(rust_dependencies@) =~= Seq::<Seq<char>>::empty());
                assert(pair_texts(rust_ffi_libs@) =~= Seq::<(Seq<char>, Seq<char>)>::empty());
            }
        },
    }
    let mut frameworks: Vec<String> = Vec::new();
    match get(doc, "link") {
        Some(link) => match get(link, "frameworks") {
            Some(TomlValue::Array(items)) => {
                let mut i: usize = 0;
                while i < items.len()
                    invariant
                        i <= items@.len(),
                        texts(frameworks@) == strings_of(items@.take(i as int)),
                    decreases items.len() - i,
                {
                    let ghost prev = texts(frameworks@);
                    proof {
                        assert(items@.take(i + 1).drop_last() =~= items@.take(i as int));
                    }
                    match &items[i] {
                        TomlValue::Str(s) => {
                            frameworks.push(string_from(s.as_str()));
                            proof {
                                assert(texts(frameworks@) =~= prev.push(s@));
                            }
                        },
                        _ => {},
                    }
                    i += 1;
                }
                proof {
                    assert(items@.take(items@.len() as int) =~= items@);
                }
            },
            _ => {
                proof {
                    assert(texts(frameworks@) =~= Seq::<Seq<char>>::empty());
                }
            },
        },
        None => {
            proof {
                assert(texts(frameworks@) =~= Seq::<Seq<char>>::empty());
            }
        },
    }
    let mut clip_paths: Vec<String> = Vec::new();
    match entries_of(doc, "dependencies") {
        Some(deps) => {
            let mut i: usize = 0;
            while i < deps.len()
                invariant
                    i <= deps@.len(),
                    texts(clip_paths@) == clip_paths_of(deps@.take(i as int)),
                decreases deps.len() - i,
            {
                let ghost prev = texts(clip_paths@);
                proof {
                    assert(deps@.take(i + 1).drop_last() =~= deps@.take(i as int));
                }
                match path_of(&deps[i].1) {
                    Some(p) => {
                        if ends_with_text(p.as_str(), ".clip") {
                            clip_paths.push(string_from(p.as_str()));
                            proof {
                                assert(texts(clip_paths@) =~= prev.push(p@));
                            }
                        }
                    },
                    None => {},
                }
                i += 1;
            }
            proof {
                assert(deps@.take(deps@.len() as int) =~= deps@);
            }
        },
        None => {
            proof {
                assert(texts(clip_paths@) =~= Seq::<Seq<char>>::empty());
            }
        },
    }
    let r = ClipManifest { rust_dependencies, rust_ffi_libs, frameworks, clip_paths };
    proof {
        let sv = spec_clip_manifest(*doc);
        assert(r.view().rust_dependencies == sv.rust_dependencies);
        assert(r.view().rust_ffi_libs == sv.rust_ffi_libs);
        assert(r.view().frameworks == sv.frameworks);
        assert(r.view().clip_paths == sv.clip_paths);
    }
    r
}

/// What the REPL loads for a manifest with the text `text`; none when the
/// text is not valid TOML.
pub fn clip_manifest_of_text(text: &str) -> (r: Option<ClipManifest>)
    ensures
        match toml_document(text@) {
            Some(doc) => r matches Some(m) && m.view() == spec_clip_manifest(doc),
            None => r is None,
        },
{
    match parse_toml(text) {
        Some(doc) => Some(clip_manifest(&doc)),
        None => None,
    }
}

/// The string under `key` in the `[package]` table of a document.
pub open spec fn package_str(doc: TomlValue, key: Seq<char>) -> Option<Seq<char>> {
    match value_get(doc, "package"@) {
        Some(p) => str_of(value_get(p, key)),
        None => None,
    }
}

/// The name and version of a `.clip` package, read from the text of its
/// `clip.toml`: an error when the text is not TOML, or when the
/// `[package]` table lacks a string name (checked first) or version.
pub fn clip_package_of_text(text: &str) -> (r: Result<(String, String), String>)
    ensures
        toml_document(text@) is None ==> (r matches Err(e) && e@ == "Failed to parse clip.toml"@),
        toml_document(text@) matches Some(doc) ==> match (package_str(doc, "name"@), package_str(doc, "version"@)) {
            (Some(n), Some(v)) => r matches Ok(p) && p.0@ == n && p.1@ == v,
            (None, _) => r matches Err(e) && e@ == "Missing package name in clip.toml"@,
            (Some(_), None) => r matches Err(e) && e@ == "Missing package version in clip.toml"@,
        },
{
    proof {
        reveal_strlit("package");
        reveal_strlit("name");
        reveal_strlit("version");
    }
    let doc = match parse_toml(text) {
        Some(d) => d,
        None => {
            return Err(string_from("Failed to parse clip.toml"));
        },
    };
    let name = match get(&doc, "package") {
        Some(p) => match get(p, "name") {
            Some(TomlValue::Str(n)) => Some(n),
            _ => None,
        },
        None => None,
    };
    let version = match get(&doc, "package") {
        Some(p) => match get(p, "version") {
            Some(TomlValue::Str(v)) => Some(v),
            _ => None,
        },
        None => None,
    };
    match (name, version) {
        (Some(n), Some(v)) => Ok((string_from(n.as_str()), string_from(v.as_str()))),
        (None, _) => Err(string_from("Missing package name in clip.toml")),
        (Some(_), None) => Err(string_from("Missing package version in clip.toml")),
    }
}

} // verus!
