use clorus_runtime::loading::{
    auto_load_off, clip_dylib_file, clip_init_symbol, ffi_library_candidates, ffi_library_file, interface_file_path,
    is_clip_path, preview_lines, rust_module_name, source_module_name, switch_on, wrapper_source_path, Platform,
};

#[test]
fn ffi_library_file_per_platform() {
    assert_eq!(ffi_library_file("egui-hello", Platform::Linux), "libegui_hello_ffi.so");
    assert_eq!(ffi_library_file("egui-hello", Platform::MacOs), "libegui_hello_ffi.dylib");
    assert_eq!(ffi_library_file("egui-hello", Platform::Windows), "egui_hello_ffi.dll");
}

#[test]
fn ffi_library_candidates_in_order() {
    let c = ffi_library_candidates("coral-gfx", Platform::Linux);
    assert_eq!(
        c,
        vec![
            "target/debug/libcoral_gfx_ffi.so".to_string(),
            "target/release/libcoral_gfx_ffi.so".to_string(),
            "target/rust-ffi/coral_gfx_ffi/target/release/libcoral_gfx_ffi.so".to_string(),
            "target/rust-ffi/coral_gfx_ffi/target/debug/libcoral_gfx_ffi.so".to_string(),
        ]
    );
}

#[test]
fn interface_and_wrapper_paths() {
    assert_eq!(interface_file_path("egui-hello"), "interfaces/egui-hello.clorus-ffi");
    assert_eq!(wrapper_source_path("egui-hello"), "target/rust-ffi/egui_hello_ffi/src/lib.rs");
    assert_eq!(rust_module_name("egui-hello"), "rust.egui-hello");
}

#[test]
fn clip_names() {
    assert_eq!(clip_init_symbol("my-ui"), "clorus_my_ui_init");
    assert_eq!(clip_dylib_file("my-ui", Platform::Linux), "libmy_ui.so");
    assert_eq!(clip_dylib_file("my-ui", Platform::MacOs), "libmy_ui.dylib");
    assert_eq!(clip_dylib_file("my-ui", Platform::Windows), "my_ui.dll");
    assert!(is_clip_path("dist/my-ui.clip"));
    assert!(!is_clip_path("../my-ui"));
}

#[test]
fn module_names_of_source_files() {
    assert_eq!(source_module_name("components/button"), Some("components.button".to_string()));
    assert_eq!(source_module_name("utils\\text"), Some("utils.text".to_string()));
    assert_eq!(source_module_name("lib"), None);
    assert_eq!(source_module_name("core"), Some("core".to_string()));
}

#[test]
fn environment_switches() {
    assert!(switch_on("1"));
    assert!(switch_on(""));
    assert!(!switch_on("0"));
    for v in ["1", "true", "TRUE", "yes", "YES"] {
        assert!(auto_load_off(v));
    }
    assert!(!auto_load_off("0"));
    assert!(!auto_load_off("Yes"));
}

#[test]
fn preview_numbered_with_rest() {
    let items: Vec<String> = ["a", "b", "c", "d", "e"].iter().map(|s| s.to_string()).collect();
    let lines = preview_lines(&items, 3, true);
    assert_eq!(lines, vec!["  1. a", "  2. b", "  3. c", "  ... and 2 more"]);
}

#[test]
fn preview_dashed_short_list() {
    let items: Vec<String> = ["f", "g"].iter().map(|s| s.to_string()).collect();
    let lines = preview_lines(&items, 10, false);
    assert_eq!(lines, vec!["  - f", "  - g"]);
    let none: Vec<String> = Vec::new();
    assert!(preview_lines(&none, 3, true).is_empty());
}

#[test]
fn static_ffi_library_path() {
    assert_eq!(
        clorus_runtime::loading::ffi_static_library_path("coral-gfx"),
        "target/rust-ffi/coral_gfx_ffi/target/release/libcoral_gfx_ffi.a"
    );
}
