use canary::project_files::{build_project_files, EmittedFunction, ImportDecl, ProjectFile};

fn func(module: &str, name: &str, addr: u64, code: &str) -> EmittedFunction {
    EmittedFunction {
        module_name: module.to_string(),
        func_name: name.to_string(),
        entry_addr: addr,
        code: code.to_string(),
    }
}

fn import(sym: &str, lib: &str) -> ImportDecl {
    ImportDecl { symbol_name: sym.to_string(), lib_name: lib.to_string() }
}

fn sample() -> Vec<ProjectFile> {
    let fns = vec![
        func("core", "b", 0x20, "int b(void) {\n  return 0;\n}\n"),
        func("core", "a", 0x10, "/* Provenance: Unknown */\nint a(int x) {\n}\n"),
        func(".text", "c", 0x30, "void c(void) {\n}\n"),
    ];
    let imports = vec![
        import("CreateFileW", "kernel32.dll"),
        import("MessageBoxW", "user32.dll"),
        import("CreateFileW", "kernel32.dll"),
        import("ExitProcess", "kernel32.dll"),
    ];
    build_project_files(fns, &imports, "PE", "/tmp/app.exe")
}

#[test]
fn project_file_set_and_order() {
    let files = sample();
    let paths: Vec<&str> = files.iter().map(|f| f.path.as_str()).collect();
    assert_eq!(
        paths,
        vec!["src/_text.cpp", "src/core.cpp", "include/program.h", "include/imports.h", "CMakeLists.txt"]
    );
}

#[test]
fn module_file_lists_functions_by_address() {
    let files = sample();
    let core = &files[1].content;
    let expected = "/* Module: core \u{2014} reconstructed by Canary */\n#include \"program.h\"\n#include \"imports.h\"\n\n\
/* Function: a @ 0x10 */\n/* Provenance: Unknown */\nint a(int x) {\n}\n\n\n\
/* Function: b @ 0x20 */\nint b(void) {\n  return 0;\n}\n\n\n";
    assert_eq!(core, expected);
    assert!(files[0].content.starts_with("/* Module: .text "));
}

#[test]
fn program_header_holds_signatures_by_address() {
    let files = sample();
    let h = &files[2].content;
    assert!(h.starts_with("/* program.h \u{2014} all recovered function signatures */\n"));
    assert!(h.ends_with("/* --- Function Declarations --- */\n\nint a(int x);\nint b(void);\nvoid c(void);\n"));
}

#[test]
fn imports_header_dedups_and_groups_by_library() {
    let files = sample();
    let h = &files[3].content;
    assert!(h.ends_with(
        "/* IAT imports \u{2014} these are resolved at link time */\n\n\
/* From: kernel32.dll */\nextern void* CreateFileW; /* kernel32.dll */\nextern void* ExitProcess; /* kernel32.dll */\n\n\
/* From: user32.dll */\nextern void* MessageBoxW; /* user32.dll */\n\n"
    ));
}

#[test]
fn cmake_lists_sources_and_libraries() {
    let files = sample();
    let c = &files[4].content;
    assert!(c.starts_with("cmake_minimum_required(VERSION 3.20)\nproject(app C)\n"));
    assert!(c.contains("set(SOURCES\n    src/_text.cpp\n    src/core.cpp\n)\n\nadd_executable(app ${SOURCES})"));
    assert!(c.contains("    # kernel32.dll (link manually if needed)\n    # user32.dll (link manually if needed)\n"));
}

#[test]
fn empty_project_has_only_headers_and_cmake() {
    let files = build_project_files(Vec::new(), &[], "ELF", "lib.so");
    let paths: Vec<&str> = files.iter().map(|f| f.path.as_str()).collect();
    assert_eq!(paths, vec!["include/program.h", "include/imports.h", "CMakeLists.txt"]);
    assert!(files[1].content.ends_with("resolved at link time */\n\n"));
    assert!(files[2].content.contains("add_library(lib ${SOURCES})"));
}
