use clorus_runtime::ffi_interface::{parse_fn_form, parse_interface_file, parse_wrapper_source};

#[test]
fn reads_an_fn_form() {
    let f = parse_fn_form("(fn show-gui [title :string w :f64 h] :bool \"doc\")").unwrap().unwrap();
    assert_eq!(f.name, "show_gui");
    let params: Vec<(String, String)> = f.params.iter().map(|p| (p.name.clone(), p.param_type.clone())).collect();
    assert_eq!(
        params,
        vec![
            ("title".to_string(), "String".to_string()),
            ("w".to_string(), "f64".to_string()),
            ("h".to_string(), "Value*".to_string()),
        ]
    );
    assert_eq!(f.return_type, "bool");
    assert!(parse_fn_form("(def x 1)").unwrap().is_none());
    let g = parse_fn_form("(fn ping)").unwrap().unwrap();
    assert_eq!(g.name, "ping");
    assert!(g.params.is_empty());
    assert_eq!(g.return_type, "Value*");
}

#[test]
fn reads_an_interface_file() {
    let content = ";; demo\n(interface demo\n  (fn open-window [title :string] :i32 \"Open\")\n  (fn close [])\n)\n";
    let lib = parse_interface_file(content, "demo").unwrap();
    assert_eq!(lib.name, "demo");
    let names: Vec<String> = lib.functions.iter().map(|f| f.name.clone()).collect();
    assert_eq!(names, vec!["open_window".to_string(), "close".to_string()]);
    assert_eq!(lib.functions[0].return_type, "i32");
    assert_eq!(lib.functions[0].params[0].param_type, "String");
}

#[test]
fn reads_wrapper_source() {
    let content = "use std::ffi::c_char;\n\n#[no_mangle]\npub extern \"C\" fn clorus_draw_rect(handle: *mut u8, x: f64, name: *mut c_char) -> i32 {\n    0\n}\n\n#[no_mangle]\npub extern \"C\" fn reset_all() {\n}\n";
    let lib = parse_wrapper_source(content, "gfx").unwrap();
    assert_eq!(lib.name, "gfx");
    assert_eq!(lib.functions.len(), 2);
    let f = &lib.functions[0];
    assert_eq!(f.name, "draw-rect");
    let params: Vec<(String, String)> = f.params.iter().map(|p| (p.name.clone(), p.param_type.clone())).collect();
    assert_eq!(
        params,
        vec![
            ("handle".to_string(), "*mut u8".to_string()),
            ("x".to_string(), "f64".to_string()),
            ("name".to_string(), "String".to_string()),
        ]
    );
    assert_eq!(f.return_type, "i32");
    assert_eq!(lib.functions[1].name, "reset-all");
    assert!(lib.functions[1].params.is_empty());
    assert_eq!(lib.functions[1].return_type, "()");
}
