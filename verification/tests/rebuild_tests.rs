use canary::rebuild::scan_build_output;

#[test]
fn scan_collects_error_lines_in_order() {
    let stderr = "main.c:3: error: undefined reference to `foo'\nwarning: unused\r\nfatal error: x.h: No such file\n";
    // "error LNK2019:" carries none of the error markers; "fatal error" does.
    let stdout = "core.obj : error LNK2019: unresolved external symbol\nlink: fatal error LNK2019: _main\nprog.cpp(7): error C2027: use of undefined type\nok\n";
    let r = scan_build_output(stderr, stdout);
    assert_eq!(
        r.diagnostics,
        vec![
            "main.c:3: error: undefined reference to `foo'".to_string(),
            "fatal error: x.h: No such file".to_string(),
            "link: fatal error LNK2019: _main".to_string(),
            "prog.cpp(7): error C2027: use of undefined type".to_string(),
        ]
    );
    assert_eq!(r.control_flow_failures, 2);
    assert_eq!(r.type_inference_failures, 1);
}

#[test]
fn scan_of_clean_build_is_empty() {
    let r = scan_build_output("", "Build succeeded.\n0 Warning(s)\n");
    assert!(r.diagnostics.is_empty());
    assert_eq!(r.control_flow_failures, 0);
    assert_eq!(r.type_inference_failures, 0);
}

#[test]
fn incomplete_type_without_error_marker_is_ignored() {
    let r = scan_build_output("note: incomplete type 'Foo'\nx.c: error: incomplete type 'Bar'", "");
    assert_eq!(r.diagnostics, vec!["x.c: error: incomplete type 'Bar'".to_string()]);
    assert_eq!(r.type_inference_failures, 1);
    assert_eq!(r.control_flow_failures, 0);
}
