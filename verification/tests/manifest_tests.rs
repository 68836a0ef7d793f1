use clorus_runtime::manifest::{clip_manifest, clip_manifest_of_text, TomlValue};

fn s(x: &str) -> String {
    x.to_string()
}

#[test]
fn manifest_from_text() {
    let text = r#"
[package]
name = "demo"
version = "0.1.0"

[dependencies]
ui = { path = "../dist/ui.clip" }
util = { path = "../util" }
plain = "1.0"

[rust-dependencies]
coral-gfx = { path = "rust/coral" }
egui-hello = "0.1"

[link]
frameworks = ["Metal", 3, "AppKit"]
"#;
    let m = clip_manifest_of_text(text).unwrap();
    assert_eq!(m.rust_dependencies, vec![s("coral-gfx"), s("egui-hello")]);
    assert_eq!(
        m.rust_ffi_libs,
        vec![(s("rust/coral"), s("target/rust-ffi/coral_gfx_ffi/target/release/libcoral_gfx_ffi.a"))]
    );
    assert_eq!(m.frameworks, vec![s("Metal"), s("AppKit")]);
    assert_eq!(m.clip_paths, vec![s("../dist/ui.clip")]);
}

#[test]
fn invalid_manifest_text() {
    assert!(clip_manifest_of_text("[package\nname = ").is_none());
}

#[test]
fn empty_manifest_loads_nothing() {
    let m = clip_manifest_of_text("").unwrap();
    assert!(m.rust_dependencies.is_empty() && m.rust_ffi_libs.is_empty());
    assert!(m.frameworks.is_empty() && m.clip_paths.is_empty());
}

#[test]
fn manifest_from_plain_document() {
    let doc = TomlValue::Table(vec![
        (s("dependencies"), TomlValue::Table(vec![(s("a"), TomlValue::Table(vec![(s("path"), TomlValue::Str(s("x.clip")))]))])),
        (s("link"), TomlValue::Int(3)),
    ]);
    let m = clip_manifest(&doc);
    assert_eq!(m.clip_paths, vec![s("x.clip")]);
    assert!(m.frameworks.is_empty());
    assert!(m.rust_dependencies.is_empty());
}

#[test]
fn clip_package_name_and_version() {
    use_clip_package();
}

fn use_clip_package() {
    use_it("[package]\nname = \"ui\"\nversion = \"0.2.0\"\n", Ok((s("ui"), s("0.2.0"))));
    use_it("[package]\nversion = \"0.2.0\"\n", Err(s("Missing package name in clip.toml")));
    use_it("[package]\nname = \"ui\"\n", Err(s("Missing package version in clip.toml")));
    use_it("[package]\nname = 3\nversion = \"1\"\n", Err(s("Missing package name in clip.toml")));
    use_it("name = ", Err(s("Failed to parse clip.toml")));
}

fn use_it(text: &str, expected: Result<(String, String), String>) {
    assert_eq!(clorus_runtime::manifest::clip_package_of_text(text), expected);
}
