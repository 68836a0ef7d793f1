//! Where the REPL looks for what it loads at start-up: the file names of a
//! project's Rust FFI libraries and of `.clip` packages built for the REPL,
//! the module path of a package source file, the symbol that initialises a
//! package, the environment switches, and the lines that summarise what was
//! loaded.

use crate::text::{decimal, has_suffix, push_decimal, push_str, replace_char, replace_char_seq, same_text, string_from};
use vstd::prelude::*;

verus! {

/// The platform whose dynamic-library naming is used.
#[derive(PartialEq, Eq, Clone, Copy, Debug)]
pub enum Platform {
    MacOs,
    Linux,
    Windows,
}

/// A package or dependency name as it appears in a library file name:
/// dashes become underscores.
pub open spec fn lib_base(name: Seq<char>) -> Seq<char> {
    replace_char_seq(name, '-', '_')
}

/// The file name of a dynamic library called `stem` on `p`.
pub open spec fn spec_dylib_file(stem: Seq<char>, p: Platform) -> Seq<char> {
    match p {
        Platform::MacOs => "lib"@ + stem + ".dylib"@,
        Platform::Linux => "lib"@ + stem + ".so"@,
        Platform::Windows => stem + ".dll"@,
    }
}

fn dylib_file(stem: &str, p: Platform) -> (r: String)
    ensures
        r@ == spec_dylib_file(stem@, p),
{
    match p {
        Platform::MacOs => {
            let mut out = string_from("lib");
            push_str(&mut out, stem);
            push_str(&mut out, ".dylib");
            out
        },
        Platform::Linux => {
            let mut out = string_from("lib");
            push_str(&mut out, stem);
            push_str(&mut out, ".so");
            out
        },
        Platform::Windows => {
            let mut out = string_from(stem);
            push_str(&mut out, ".dll");
            out
        },
    }
}

/// The file name of the FFI library built for the Rust dependency `dep`
/// (`egui-hello` gives `libegui_hello_ffi.so` on Linux).
pub open spec fn spec_ffi_library_file(dep: Seq<char>, p: Platform) -> Seq<char> {
    spec_dylib_file(lib_base(dep) + "_ffi"@, p)
}

/// The file name of the FFI library built for the Rust dependency `dep`.
pub fn ffi_library_file(dep: &str, p: Platform) -> (r: String)
    ensures
        r@ == spec_ffi_library_file(dep@, p),
{
    let mut stem = replace_char(dep, '-', '_');
    push_str(&mut stem, "_ffi");
    dylib_file(stem.as_str(), p)
}

/// The paths tried, in order, for the FFI library of `dep`.
pub open spec fn spec_ffi_library_candidates(dep: Seq<char>, p: Platform) -> Seq<Seq<char>> {
    let file = spec_ffi_library_file(dep, p);
    let base = lib_base(dep);
    seq![
        "target/debug/"@ + file,
        "target/release/"@ + file,
        "target/rust-ffi/"@ + base + "_ffi/target/release/"@ + file,
        "target/rust-ffi/"@ + base + "_ffi/target/debug/"@ + file,
    ]
}

fn joined2(a: &str, b: &str) -> (r: String)
    ensures
        r@ == a@ + b@,
{
    let mut out = string_from(a);
    push_str(&mut out, b);
    out
}

fn joined3(a: &str, b: &str, c: &str) -> (r: String)
    ensures
        r@ == a@ + b@ + c@,
{
    let mut out = string_from(a);
    push_str(&mut out, b);
    push_str(&mut out, c);
    out
}

/// The paths tried, in order, for the FFI library of `dep`.
pub fn ffi_library_candidates(dep: &str, p: Platform) -> (r: Vec<String>)
    ensures
        r@.len() == 4,
        forall|i: int| 0 <= i < 4 ==> #[trigger] r@[i]@ == spec_ffi_library_candidates(dep@, p)[i],
{
    let file = ffi_library_file(dep, p);
    let base = replace_char(dep, '-', '_');
    let mut out: Vec<String> = Vec::new();
    out.push(joined2("target/debug/", file.as_str()));
    out.push(joined2("target/release/", file.as_str()));
    let release = joined3("target/rust-ffi/", base.as_str(), "_ffi/target/release/");
    out.push(joined2(release.as_str(), file.as_str()));
    let debug = joined3("target/rust-ffi/", base.as_str(), "_ffi/target/debug/");
    out.push(joined2(debug.as_str(), file.as_str()));
    proof {
        let s = spec_ffi_library_candidates(dep@, p);
        assert(out@[0]@ =~= s[0]);
        assert(out@[1]@ =~= s[1]);
        assert(out@[2]@ =~= s[2]);
        assert(out@[3]@ =~= s[3]);
    }
    out
}

/// Where the static FFI library of the Rust dependency `dep` is built,
/// below the directory that holds its crate.
pub open spec fn spec_ffi_static_library_path(dep: Seq<char>) -> Seq<char> {
    "target/rust-ffi/"@ + lib_base(dep) + "_ffi/target/release/lib"@ + lib_base(dep) + "_ffi.a"@
}

/// Where the static FFI library of the Rust dependency `dep` is built
/// (see [`spec_ffi_static_library_path`]).
pub fn ffi_static_library_path(dep: &str) -> (r: String)
    ensures
        r@ == spec_ffi_static_library_path(dep@),
{
    let base = replace_char(dep, '-', '_');
    let head = joined3("target/rust-ffi/", base.as_str(), "_ffi/target/release/lib");
    joined3(head.as_str(), base.as_str(), "_ffi.a")
}

/// The interface file that lists the functions of the Rust dependency `dep`.
pub fn interface_file_path(dep: &str) -> (r: String)
    ensures
        r@ == "interfaces/"@ + dep@ + ".clorus-ffi"@,
{
    joined3("interfaces/", dep, ".clorus-ffi")
}

/// The generated wrapper source of the Rust dependency `dep`, read when it
/// has no interface file.
pub fn wrapper_source_path(dep: &str) -> (r: String)
    ensures
        r@ == "target/rust-ffi/"@ + lib_base(dep@) + "_ffi/src/lib.rs"@,
{
    let base = replace_char(dep, '-', '_');
    joined3("target/rust-ffi/", base.as_str(), "_ffi/src/lib.rs")
}

/// The module name under which the functions of `dep` are registered.
pub fn rust_module_name(dep: &str) -> (r: String)
    ensures
        r@ == "rust."@ + dep@,
{
    joined2("rust.", dep)
}

/// The symbol that initialises the `.clip` package `name`.
pub fn clip_init_symbol(name: &str) -> (r: String)
    ensures
        r@ == "clorus_"@ + lib_base(name@) + "_init"@,
{
    let base = replace_char(name, '-', '_');
    joined3("clorus_", base.as_str(), "_init")
}

/// The file name of the dynamic library built for the `.clip` package
/// `name`.
pub fn clip_dylib_file(name: &str, p: Platform) -> (r: String)
    ensures
        r@ == spec_dylib_file(lib_base(name@), p),
{
    let base = replace_char(name, '-', '_');
    dylib_file(base.as_str(), p)
}

/// Whether a dependency's path names a `.clip` package.
pub fn is_clip_path(path: &str) -> (r: bool)
    ensures
        r == has_suffix(path@, ".clip"@),
{
    crate::text::ends_with_text(path, ".clip")
}

/// The module path of a package source file, given its path below the
/// package's `src` without the extension: separators become dots. The entry
/// point `lib` has none.
pub open spec fn spec_source_module_name(stem: Seq<char>) -> Option<Seq<char>> {
    let m = replace_char_seq(replace_char_seq(stem, '/', '.'), '\\', '.');
    if m == "lib"@ {
        None
    } else {
        Some(m)
    }
}

/// The module path of a package source file (see [`spec_source_module_name`]).
pub fn source_module_name(stem: &str) -> (r: Option<String>)
    ensures
        r matches Some(m) ==> spec_source_module_name(stem@) == Some(m@),
        r is None ==> spec_source_module_name(stem@) is None,
{
    let slashes = replace_char(stem, '/', '.');
    let m = replace_char(slashes.as_str(), '\\', '.');
    if same_text(m.as_str(), "lib") {
        None
    } else {
        Some(m)
    }
}

/// Whether an environment switch that is on unless set to `0` is on.
pub fn switch_on(value: &str) -> (r: bool)
    ensures
        r == (value@ != "0"@),
{
    !same_text(value, "0")
}

/// Whether the value of the switch that turns off loading the project's
/// entry file asks for that.
pub fn auto_load_off(value: &str) -> (r: bool)
    ensures
        r == (value@ == "1"@ || value@ == "true"@ || value@ == "TRUE"@ || value@ == "yes"@ || value@
            == "YES"@),
{
    same_text(value, "1") || same_text(value, "true") || same_text(value, "TRUE") || same_text(value, "yes")
        || same_text(value, "YES")
}

/// One line of a preview list: numbered from one, or as a dash item.
pub open spec fn preview_line(item: Seq<char>, i: int, numbered: bool) -> Seq<char> {
    if numbered {
        "  "@ + decimal(i + 1) + ". "@ + item
    } else {
        "  - "@ + item
    }
}

/// The first `limit` items, one line each, then a line that counts the
/// rest when there is one.
pub open spec fn spec_preview(items: Seq<Seq<char>>, limit: nat, numbered: bool) -> Seq<Seq<char>> {
    let shown = if items.len() < limit {
        items.len()
    } else {
        limit
    };
    let head = Seq::new(shown, |i: int| preview_line(items[i], i, numbered));
    if items.len() > limit {
        head.push("  ... and "@ + decimal(items.len() - limit) + " more"@)
    } else {
        head
    }
}

/// Lines that show the first `limit` of `items` (see [`spec_preview`]):
/// the names of the functions registered from a library, or the errors
/// met while loading a project.
pub fn preview_lines(items: &Vec<String>, limit: usize, numbered: bool) -> (r: Vec<String>)
    requires
        items@.len() <= i64::MAX,
    ensures
        r@.map_values(|s: String| s@) == spec_preview(items@.map_values(|s: String| s@), limit as nat, numbered),
{
    let ghost iv = items@.map_values(|s: String| s@);
    let shown: usize = if items.len() < limit {
        items.len()
    } else {
        limit
    };
    let mut out: Vec<String> = Vec::new();
    let mut i: usize = 0;
    while i < shown
        invariant
            shown <= items@.len(),
            shown <= limit,
            i <= shown,
            items@.len() <= i64::MAX,
            iv == items@.map_values(|s: String| s@),
            out@.map_values(|s: String| s@) =~= Seq::new(i as nat, |j: int| preview_line(iv[j], j, numbered)),
        decreases shown - i,
    {
        let mut line = if numbered {
            let mut l = string_from("  ");
            push_decimal(&mut l, (i + 1) as i64);
            push_str(&mut l, ". ");
            l
        } else {
            string_from("  - ")
        };
        push_str(&mut line, items[i].as_str());
        proof {
            assert(iv[i as int] == items@[i as int]@);
            assert(((i + 1) as i64) as int == i + 1);
            if numbered {
                assert(line@ =~= preview_line(iv[i as int], i as int, numbered));
            } else {
                assert(line@ =~= preview_line(iv[i as int], i as int, numbered));
            }
        }
        let ghost prev = out@;
        let ghost lv = line@;
        proof {
            assert(prev.map_values(|s: String| s@).len() == i);
            assert(prev.len() == i);
        }
        out.push(line);
        proof {
            assert forall|j: int| 0 <= j < i + 1 implies #[trigger] out@[j]@ == preview_line(iv[j], j, numbered) by {
                if j < i {
                    assert(out@[j] == prev[j]);
                    assert(prev.map_values(|s: String| s@)[j] == prev[j]@);
                }
            }
            assert(out@.map_values(|s: String| s@) =~= Seq::new(
                (i + 1) as nat,
                |j: int| preview_line(iv[j], j, numbered),
            ));
        }
        i += 1;
    }
    if items.len() > limit {
        let mut line = string_from("  ... and ");
        push_decimal(&mut line, (items.len() - limit) as i64);
        push_str(&mut line, " more");
        out.push(line);
        proof {
            assert(out@.map_values(|s: String| s@) =~= spec_preview(iv, limit as nat, numbered));
        }
    } else {
        proof {
            assert(out@.map_values(|s: String| s@) =~= spec_preview(iv, limit as nat, numbered));
        }
    }
    out
}

} // verus!
