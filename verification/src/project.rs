//! Project configuration (`Clorus.toml`) and the namespace a project's
//! entry file defines.

use crate::printer::join_texts;
use crate::text::{push_str, replace_char, replace_char_seq, same_text, string_from};
use vstd::prelude::*;

verus! {

/// The `[package]` table.
pub struct Package {
    pub name: String,
    pub version: String,
}

/// The `[build]` table.
pub struct Build {
    pub entry: String,
}

/// A project's configuration.
pub struct ProjectConfig {
    pub package: Package,
    pub build: Build,
}

/// The entry file used when none is configured.
pub fn default_entry() -> (r: String)
    ensures
        r@ == "src/main.clrs"@,
{
    string_from("src/main.clrs")
}

impl Default for Build {
    fn default() -> (r: Self)
        ensures
            r.entry@ == "src/main.clrs"@,
    {
        Build { entry: default_entry() }
    }
}

/// The components of a path as `std::path::Path::components` splits it,
/// each as its text.
pub uninterp spec fn path_component_texts(p: Seq<char>) -> Seq<Seq<char>>;

/// `std::path::Path::components`, each component converted to its text.
/// Claimed: the result is determined by the path's text (it is named
/// `path_component_texts` of it); how the path is split is not restated.
#[verifier::external_body]
fn path_components(p: &str) -> (r: Vec<String>)
    ensures
        r@.len() == path_component_texts(p@).len(),
        forall|i: int| 0 <= i < r@.len() ==> (#[trigger] r@[i])@ == path_component_texts(p@)[i],
{
    std::path::Path::new(p).components().map(|c| c.as_os_str().to_string_lossy().into_owned()).collect()
}

/// The position of the last `.` in `s`.
pub open spec fn last_dot(s: Seq<char>) -> Option<int>
    decreases s.len(),
{
    if s.len() == 0 {
        None
    } else if s.last() == '.' {
        Some(s.len() - 1)
    } else {
        last_dot(s.drop_last())
    }
}

/// The stem of a path component, as `std::path::Path::file_stem`
/// documents it: none for a component that names no file (empty, `.`,
/// `..` or the root `/`); the whole name when it has no `.` but at its
/// start; otherwise the part before the last `.`.
pub open spec fn component_stem(c: Seq<char>) -> Option<Seq<char>> {
    if c.len() == 0 || c == "."@ || c == ".."@ || c == "/"@ {
        None
    } else {
        match last_dot(c) {
            Some(i) => if i > 0 {
                Some(c.take(i))
            } else {
                Some(c)
            },
            None => Some(c),
        }
    }
}

/// The stem of a path component (see [`component_stem`]).
pub fn file_stem_of(c: &str) -> (r: Option<String>)
    ensures
        match r {
            Some(s) => component_stem(c@) == Some(s@),
            None => component_stem(c@) is None,
        },
{
    proof {
        reveal_strlit(".");
        reveal_strlit("..");
        reveal_strlit("/");
    }
    let cs = crate::text::chars_of(c);
    if cs.len() == 0 || same_text(c, ".") || same_text(c, "..") || same_text(c, "/") {
        return None;
    }
    let mut i: usize = cs.len();
    proof {
        assert(cs@.take(i as int) =~= cs@);
    }
    while i > 0
        invariant
            i <= cs@.len(),
            cs@ == c@,
            !(c@.len() == 0 || c@ == "."@ || c@ == ".."@ || c@ == "/"@),
            last_dot(c@) == last_dot(cs@.take(i as int)),
        decreases i,
    {
        proof {
            assert(cs@.take(i as int).last() == cs@[i - 1]);
            assert(cs@.take(i as int).drop_last() =~= cs@.take(i - 1));
        }
        if cs[i - 1] == '.' {
            if i - 1 > 0 {
                let mut stem = String::new();
                let mut k: usize = 0;
                while k < i - 1
                    invariant
                        k <= i - 1,
                        i <= cs@.len(),
                        stem@ == cs@.take(k as int),
                    decreases i - 1 - k,
                {
                    crate::text::push_char(&mut stem, cs[k]);
                    proof {
                        assert(stem@ =~= cs@.take(k + 1));
                    }
                    k += 1;
                }
                proof {
                    assert(last_dot(cs@.take(i as int)) == Some(i - 1));
                    assert(cs@.take(i - 1) =~= c@.take(i - 1));
                }
                return Some(stem);
            }
            proof {
                assert(last_dot(cs@.take(i as int)) == Some(0int));
            }
            return Some(string_from(c));
        }
        i -= 1;
    }
    proof {
        assert(cs@.take(0) =~= Seq::<char>::empty());
        assert(last_dot(c@) is None);
    }
    Some(string_from(c))
}

/// The namespace parts of the components `comps`, where `last` is the
/// entry file's component: `src` is skipped, the file contributes its
/// stem, and underscores become dashes.
pub open spec fn namespace_parts(comps: Seq<Seq<char>>, last: Seq<char>) -> Seq<Seq<char>>
    decreases comps.len(),
{
    if comps.len() == 0 {
        Seq::empty()
    } else {
        let before = namespace_parts(comps.drop_last(), last);
        let c = comps.last();
        if c == "src"@ {
            before
        } else if c == last {
            match component_stem(c) {
                Some(stem) => before.push(replace_char_seq(stem, '_', '-')),
                None => before,
            }
        } else {
            before.push(replace_char_seq(c, '_', '-'))
        }
    }
}

/// The namespace of a project: its entry file's path without `src`, with
/// dots between the parts (`src/gui_demo/core.clrs` is `gui-demo.core`);
/// the package name, dashed, when the path gives no part.
pub open spec fn spec_namespace(entry: Seq<char>, package: Seq<char>) -> Seq<char> {
    namespace_text(path_component_texts(entry), package)
}

/// The namespace given by an entry path's components (see
/// [`spec_namespace`]).
pub open spec fn namespace_text(comps: Seq<Seq<char>>, package: Seq<char>) -> Seq<char> {
    let parts = if comps.len() == 0 {
        Seq::<Seq<char>>::empty()
    } else {
        namespace_parts(comps, comps.last())
    };
    if parts.len() == 0 {
        replace_char_seq(package, '_', '-')
    } else {
        join_texts(parts, seq!['.'])
    }
}

/// The namespace given by an entry path's components `comps`, or by the
/// package name `package` when they give no part (see [`namespace_text`]).
pub fn namespace_of_components(comps: &Vec<String>, package: &str) -> (r: String)
    ensures
        r@ == namespace_text(comps@.map_values(|c: String| c@), package@),
{
    let ghost cv = comps@.map_values(|c: String| c@);
    let mut parts: Vec<Vec<char>> = Vec::new();
    if comps.len() > 0 {
        let last_index = comps.len() - 1;
        let mut i: usize = 0;
        proof {
            reveal_strlit("src");
            assert(cv.subrange(0, 0) =~= Seq::<Seq<char>>::empty());
        }
        while i < comps.len()
            invariant
                i <= comps@.len(),
                comps@.len() == cv.len(),
                comps@.len() > 0,
                last_index == comps@.len() - 1,
                forall|q: int| 0 <= q < comps@.len() ==> (#[trigger] comps@[q])@ == cv[q],
                parts@.map_values(|p: Vec<char>| p@) == namespace_parts(cv.subrange(0, i as int), cv.last()),
            decreases comps.len() - i,
        {
            let c = &comps[i];
            let ghost before = parts@.map_values(|p: Vec<char>| p@);
            proof {
                assert(cv.subrange(0, i + 1).drop_last() =~= cv.subrange(0, i as int));
                assert(cv.subrange(0, i + 1).last() == cv[i as int]);
                assert(cv.last() == cv[last_index as int]);
            }
            if same_text(c.as_str(), "src") {
            } else if same_text(c.as_str(), comps[last_index].as_str()) {
                match file_stem_of(c.as_str()) {
                    Some(stem) => {
                        let dashed = replace_char(stem.as_str(), '_', '-');
                        parts.push(crate::text::chars_of(dashed.as_str()));
                        proof {
                            assert(parts@.map_values(|p: Vec<char>| p@) =~= before.push(
                                replace_char_seq(stem@, '_', '-'),
                            ));
                        }
                    },
                    None => {},
                }
            } else {
                let dashed = replace_char(c.as_str(), '_', '-');
                parts.push(crate::text::chars_of(dashed.as_str()));
                proof {
                    assert(parts@.map_values(|p: Vec<char>| p@) =~= before.push(
                        replace_char_seq(cv[i as int], '_', '-'),
                    ));
                }
            }
            i += 1;
        }
        proof {
            assert(cv.subrange(0, cv.len() as int) =~= cv);
        }
    } else {
        proof {
            assert(parts@.map_values(|p: Vec<char>| p@) =~= Seq::<Seq<char>>::empty());
        }
    }
    if parts.len() == 0 {
        replace_char(package, '_', '-')
    } else {
        let mut out = String::new();
        crate::printer::push_joined(&mut out, &parts, ".");
        proof {
            reveal_strlit(".");
            assert("."@ =~= seq!['.']);
            assert(out@ =~= namespace_text(cv, package@));
        }
        out
    }
}

impl ProjectConfig {
    /// The namespace of the project (see [`spec_namespace`]).
    pub fn namespace(&self) -> (r: String)
        ensures
            r@ == spec_namespace(self.build.entry@, self.package.name@),
    {
        let comps = path_components(self.build.entry.as_str());
        proof {
            assert(comps@.map_values(|c: String| c@) =~= path_component_texts(self.build.entry@));
        }
        namespace_of_components(&comps, self.package.name.as_str())
    }
}

} // verus!
