use canary::class_emit::{emit_classes, recovered_classes_header, RecoveredStruct};
use canary::export::{dot_text, graphml_text, test_harness_text};
use canary::project_layout::{FieldInfo, FileEntry, FileType};
use canary::recovered_types::SdbFunction;
use canary::subsystem::CallGraphView;
use indexmap::IndexMap;

fn graph() -> CallGraphView {
    CallGraphView {
        nodes: vec![16, 32, 48],
        callees: vec![(16, vec![32, 48]), (32, vec![48])],
        callers: vec![(32, vec![16]), (48, vec![16, 32])],
    }
}

#[test]
fn dot_export_lists_nodes_then_edges() {
    assert_eq!(
        dot_text(&graph()),
        "digraph CallGraph {\n  node_16 [label=\"0x10\"];\n  node_32 [label=\"0x20\"];\n  node_48 [label=\"0x30\"];\n  node_16 -> node_32;\n  node_16 -> node_48;\n  node_32 -> node_48;\n}\n"
    );
}

#[test]
fn graphml_export_lists_nodes_then_edges() {
    let empty = CallGraphView { nodes: vec![], callees: vec![], callers: vec![] };
    assert_eq!(
        graphml_text(&empty),
        "<?xml version=\"1.0\" encoding=\"UTF-8\"?>\n<graphml xmlns=\"http://graphml.graphdrawing.org/xmlns\">\n  <graph id=\"CallGraph\" edgedefault=\"directed\">\n  </graph>\n</graphml>\n"
    );
    let text = graphml_text(&graph());
    assert!(text.contains("    <node id=\"n_48\"/>\n    <edge source=\"n_16\" target=\"n_32\"/>\n"));
    assert!(text.ends_with("    <edge source=\"n_32\" target=\"n_48\"/>\n  </graph>\n</graphml>\n"));
}

#[test]
fn test_harness_names_the_function() {
    let mut functions = IndexMap::new();
    functions.insert(0x1000u64, SdbFunction { name: Some("parse".to_string()), xrefs_out: vec![], call_signature: None });
    functions.insert(0x2abc, SdbFunction { name: None, xrefs_out: vec![], call_signature: None });
    let named = test_harness_text(&functions, 0x1000);
    assert!(named.starts_with("// Test Harness for parse\n#include <stdio.h>\n#include <assert.h>\n\nextern void* parse(void* arg1);\n"));
    assert!(named.contains("    // void* result = parse(NULL);\n"));
    assert!(named.ends_with("    return 0;\n}\n"));
    assert!(test_harness_text(&functions, 0x2abc).contains("extern void* sub_2abc(void* arg1);"));
    assert_eq!(test_harness_text(&functions, 0x3000), "// Function not found in SDB.\n");
}

fn shapes() -> Vec<RecoveredStruct> {
    vec![
        RecoveredStruct {
            name: "Widget".to_string(),
            fields: vec![FieldInfo { name: Some("vptr".to_string()), ty_hint: Some("void*".to_string()), offset: 0, size: 8 }],
            has_vtable_evidence: true,
        },
        RecoveredStruct {
            name: "Pair".to_string(),
            fields: vec![FieldInfo { name: None, ty_hint: None, offset: 0x1c, size: 1 }],
            has_vtable_evidence: false,
        },
    ]
}

#[test]
fn classes_header_distinguishes_classes_and_structs() {
    assert_eq!(
        recovered_classes_header(&shapes()),
        "#ifndef CANARY_RECOVERED_CLASSES_H\n#define CANARY_RECOVERED_CLASSES_H\n\n#include \"common_types.h\"\n\nclass Widget {\npublic:\n    virtual ~Widget() = default;\n\n    void* vptr; // offset 0x0\n};\n\nstruct Pair {\n    uint8_t field_unknown; // offset 0x1c\n};\n\n#endif // CANARY_RECOVERED_CLASSES_H\n"
    );
}

fn file(path: &str) -> FileEntry {
    FileEntry {
        path: path.to_string(),
        file_type: FileType::Source,
        content: String::new(),
        includes: vec![],
        symbol_addresses: vec![],
    }
}

#[test]
fn emit_classes_adds_or_replaces_the_header() {
    let mut none: Option<Vec<FileEntry>> = None;
    emit_classes(&shapes(), &mut none);
    assert!(none.is_none());

    let mut layout = Some(vec![file("src/a.cpp")]);
    emit_classes(&shapes(), &mut layout);
    let files = layout.as_ref().unwrap();
    assert_eq!(files.len(), 2);
    assert_eq!(files[1].path, "include/recovered_classes.h");
    assert_eq!(files[1].file_type, FileType::Header);
    assert_eq!(files[1].includes, vec!["include/common_types.h".to_string()]);

    let mut layout = Some(vec![file("include/recovered_classes.h"), file("src/a.cpp")]);
    emit_classes(&[].to_vec(), &mut layout);
    let files = layout.unwrap();
    assert_eq!(files.len(), 2);
    assert_eq!(files[0].path, "include/recovered_classes.h");
    assert!(files[0].content.contains("#include \"common_types.h\"\n\n#endif"));
    assert_eq!(files[1].path, "src/a.cpp");
}
