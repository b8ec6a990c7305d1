use canary::diff::{DatabaseSnapshot, DiffReport, FunctionSnapshot, SemanticDiff};

fn f(address: u64, cfg_blocks: usize, xrefs_out: usize) -> FunctionSnapshot {
    FunctionSnapshot { address, cfg_blocks, xrefs_out }
}

fn strings(v: &[&str]) -> Vec<String> {
    v.iter().map(|s| s.to_string()).collect()
}

fn sorted<T: Ord + Clone>(v: &[T]) -> Vec<T> {
    let mut v = v.to_vec();
    v.sort();
    v
}

#[test]
fn compare_reports_added_removed_and_modified() {
    let old = DatabaseSnapshot {
        functions: vec![f(0x1000, 3, 1), f(0x2000, 5, 2), f(0x3000, 1, 0)],
        types: strings(&["Point", "Rect"]),
        modules: strings(&[".text", ".data"]),
        resources: strings(&["hello"]),
    };
    let new = DatabaseSnapshot {
        functions: vec![f(0x1000, 3, 1), f(0x2000, 6, 2), f(0x4000, 2, 2)],
        types: strings(&["Point", "Size", "Size"]),
        modules: strings(&[".text", ".data", ".rsrc"]),
        resources: strings(&[]),
    };
    let r = SemanticDiff::compare(&old, &new);
    assert_eq!(r.added_functions, vec![0x4000]);
    assert_eq!(r.removed_functions, vec![0x3000]);
    assert_eq!(r.modified_functions, vec![0x2000]);
    assert_eq!(r.added_types, strings(&["Size"]));
    assert_eq!(r.removed_types, strings(&["Rect"]));
    assert_eq!(r.added_modules, strings(&[".rsrc"]));
    assert!(r.removed_modules.is_empty());
    assert!(r.added_resources.is_empty());
    assert_eq!(r.removed_resources, strings(&["hello"]));
}

#[test]
fn compare_identical_snapshots_is_empty() {
    let snap = || DatabaseSnapshot {
        functions: vec![f(1, 1, 1), f(2, 2, 2)],
        types: strings(&["A"]),
        modules: strings(&["B"]),
        resources: strings(&["C"]),
    };
    let r = SemanticDiff::compare(&snap(), &snap());
    assert!(r.added_functions.is_empty());
    assert!(r.removed_functions.is_empty());
    assert!(r.modified_functions.is_empty());
    assert!(r.added_types.is_empty() && r.removed_types.is_empty());
    assert!(r.added_modules.is_empty() && r.removed_modules.is_empty());
    assert!(r.added_resources.is_empty() && r.removed_resources.is_empty());
}

#[test]
fn compare_xref_count_change_is_modification() {
    let old = DatabaseSnapshot { functions: vec![f(5, 1, 1), f(6, 1, 1)], types: vec![], modules: vec![], resources: vec![] };
    let new = DatabaseSnapshot { functions: vec![f(6, 1, 2), f(5, 1, 1)], types: vec![], modules: vec![], resources: vec![] };
    let r = SemanticDiff::compare(&old, &new);
    assert_eq!(sorted(&r.modified_functions), vec![6]);
}

#[test]
fn markdown_lists_counts() {
    let report = DiffReport {
        added_functions: vec![1, 2],
        removed_functions: vec![3],
        modified_functions: vec![],
        added_types: strings(&["T"]),
        removed_types: vec![],
        added_modules: vec![],
        removed_modules: strings(&["M", "N"]),
        added_resources: vec![],
        removed_resources: vec![],
    };
    let md = SemanticDiff::to_markdown(&report);
    assert_eq!(
        md,
        "# Semantic Diff Report\n\n## Functions\n- **Added**: 2\n- **Removed**: 1\n- **Modified**: 0\n\n## Types\n- **Added**: 1\n- **Removed**: 0\n\n## Modules\n- **Added**: 0\n- **Removed**: 2\n\n## Resources\n- **Added**: 0\n- **Removed**: 0\n\n"
    );
}
