use canary::include_graph::circular_include_feedback;
use canary::project_layout::{FileEntry, FileType};
use canary::refinement::RefinementAction;

fn file(path: &str, includes: &[&str]) -> FileEntry {
    FileEntry {
        path: path.to_string(),
        file_type: FileType::Header,
        content: String::new(),
        includes: includes.iter().map(|s| s.to_string()).collect(),
        symbol_addresses: Vec::new(),
    }
}

fn description(files: Vec<FileEntry>) -> Option<String> {
    circular_include_feedback(&files).map(|f| f.description)
}

#[test]
fn mutual_includes_are_reported() {
    let files = vec![file("a.h", &["b.h"]), file("b.h", &["a.h"])];
    let found = circular_include_feedback(&files).expect("a cycle");
    assert_eq!(found.description, "Circular dependency detected: a.h -> b.h -> a.h");
    match found.action {
        RefinementAction::RenameSymbol { address, old_name, new_name } => {
            assert_eq!(address, 0);
            assert!(old_name.is_empty());
            assert!(new_name.is_empty());
        }
        _ => panic!("unexpected action"),
    }
}

#[test]
fn acyclic_chain_is_clean() {
    let files = vec![file("a.h", &["b.h"]), file("b.h", &["c.h"]), file("c.h", &[])];
    assert_eq!(description(files), None);
}

#[test]
fn cycle_reported_from_its_first_path() {
    let files = vec![
        file("main.c", &["a.h"]),
        file("a.h", &["b.h"]),
        file("b.h", &["a.h"]),
    ];
    assert_eq!(
        description(files),
        Some("Circular dependency detected: a.h -> b.h -> a.h".to_string())
    );
}

#[test]
fn self_include_is_a_cycle() {
    let files = vec![file("x.h", &["x.h"])];
    assert_eq!(description(files), Some("Circular dependency detected: x.h -> x.h".to_string()));
}

#[test]
fn include_outside_the_project_is_clean() {
    let files = vec![file("a.h", &["stdio.h"])];
    assert_eq!(description(files), None);
}

#[test]
fn diamond_is_not_a_cycle() {
    let files = vec![
        file("a.h", &["b.h", "c.h"]),
        file("b.h", &["d.h"]),
        file("c.h", &["d.h"]),
        file("d.h", &[]),
    ];
    assert_eq!(description(files), None);
}

#[test]
fn longer_cycle_lists_every_path() {
    let files = vec![
        file("a.h", &["b.h"]),
        file("b.h", &["c.h"]),
        file("c.h", &["d.h"]),
        file("d.h", &["b.h"]),
    ];
    assert_eq!(
        description(files),
        Some("Circular dependency detected: b.h -> c.h -> d.h -> b.h".to_string())
    );
}

#[test]
fn empty_project_is_clean() {
    assert_eq!(description(Vec::new()), None);
}
