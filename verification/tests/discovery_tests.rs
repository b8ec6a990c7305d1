use canary::cfg::{ControlFlowGraph, FlowInstr};
use canary::discovery::{
    code_ranges_from_sections, MappedSection,
    extract_callees, function_end_address, is_in_code, DiscoveryResult, GlobalXrefKind,
    SdbGlobalXref,
};
use indexmap::{IndexMap, IndexSet};

fn make_cfg_with_call(call_target: u64) -> ControlFlowGraph {
    let mut cfg = ControlFlowGraph::new();
    let b0 = cfg.alloc_block(0x1000);
    cfg.set_entry(b0);
    cfg.set_end_addr(b0, 0x1010);
    cfg.push_instr(b0, 0x1000, FlowInstr::Call { target: Some(call_target) });
    cfg
}

#[test]
fn test_extract_direct_call() {
    let cfg = make_cfg_with_call(0x2000);
    let import_map = IndexMap::new();
    let visited = IndexSet::new();
    let code_ranges = vec![(0x1000, 0x5000)];

    let result = extract_callees(&cfg, 0x1000, 0x1010, &import_map, &visited, &code_ranges);
    assert!(result.new_functions.contains(&0x2000), "should discover call target");
    assert!(result.call_xrefs.iter().any(|&(_, to)| to == 0x2000));
}

#[test]
fn test_import_not_enqueued() {
    let cfg = make_cfg_with_call(0x7ffa0000);
    let mut import_map = IndexMap::new();
    import_map.insert(0x7ffa0000u64, "CreateWindowExA".to_string());
    let visited = IndexSet::new();
    let code_ranges = vec![(0x1000, 0x5000), (0x7ffa0000, 0x7ffb0000)];

    let result = extract_callees(&cfg, 0x1000, 0x1010, &import_map, &visited, &code_ranges);
    assert!(result.new_functions.is_empty(), "imports should NOT be enqueued as functions");
    assert!(result.call_xrefs.iter().any(|&(_, to)| to == 0x7ffa0000));
}

#[test]
fn test_already_visited_not_added() {
    let cfg = make_cfg_with_call(0x2000);
    let import_map = IndexMap::new();
    let mut visited = IndexSet::new();
    visited.insert(0x2000u64);
    let code_ranges = vec![(0x1000, 0x5000)];

    let result = extract_callees(&cfg, 0x1000, 0x1010, &import_map, &visited, &code_ranges);
    assert!(result.new_functions.is_empty(), "already-visited addresses should not be re-added");
}

#[test]
fn tail_calls_and_branches_leaving_the_function() {
    let mut cfg = ControlFlowGraph::new();
    let b0 = cfg.alloc_block(0x1000);
    let b1 = cfg.alloc_block(0x1008);
    cfg.set_entry(b0);
    cfg.set_end_addr(b0, 0x1008);
    cfg.set_end_addr(b1, 0x1020);
    cfg.push_instr(b0, 0x1000, FlowInstr::Other);
    cfg.push_instr(b0, 0x1004, FlowInstr::If { true_target: 0x1008, false_target: 0x3000 });
    cfg.push_instr(b1, 0x1008, FlowInstr::Call { target: Some(0x3000) });
    cfg.push_instr(b1, 0x100c, FlowInstr::Call { target: None });
    cfg.push_instr(b1, 0x1010, FlowInstr::Goto { target: 0x4000 });
    cfg.push_instr(b1, 0x1014, FlowInstr::Goto { target: 0x1000 });
    cfg.push_instr(b1, 0x1018, FlowInstr::Goto { target: 0x9000 });
    cfg.push_instr(b1, 0x101c, FlowInstr::Call { target: Some(0) });

    let end = function_end_address(&cfg);
    assert_eq!(end, 0x1020);

    let import_map = IndexMap::new();
    let visited = IndexSet::new();
    let code_ranges = vec![(0x1000, 0x5000)];
    let result = extract_callees(&cfg, 0x1000, end, &import_map, &visited, &code_ranges);

    assert_eq!(result.call_xrefs, vec![(0x1008, 0x3000)]);
    assert_eq!(result.tail_call_xrefs, vec![(0x1004, 0x3000), (0x1010, 0x4000)]);
    assert!(result.goto_xrefs.is_empty());
    assert_eq!(result.new_functions, vec![0x3000, 0x4000]);
}

#[test]
fn instruction_without_recorded_address_uses_block_start() {
    let mut cfg = ControlFlowGraph::new();
    let b0 = cfg.alloc_block(0x1000);
    cfg.push_instr(b0, 0x1000, FlowInstr::Other);
    // Second block: its call has no recorded address of its own.
    let b1 = cfg.alloc_block(0x2000);
    cfg.push_instr(b1, 0x2000, FlowInstr::Other);
    let import_map = IndexMap::new();
    let visited = IndexSet::new();
    let result = extract_callees(&cfg, 0x1000, 0x3000, &import_map, &visited, &[(0, 0x10000)]);
    assert!(result.call_xrefs.is_empty());
    assert!(result.new_functions.is_empty());
}

#[test]
fn is_in_code_uses_half_open_ranges() {
    let ranges = [(0x1000u64, 0x2000u64), (0x5000, 0x5001)];
    assert!(is_in_code(0x1000, &ranges));
    assert!(is_in_code(0x1fff, &ranges));
    assert!(!is_in_code(0x2000, &ranges));
    assert!(is_in_code(0x5000, &ranges));
    assert!(!is_in_code(0x4fff, &ranges));
    assert!(!is_in_code(0x1000, &[]));
}

#[test]
fn function_end_address_of_empty_graph_is_zero() {
    let cfg = ControlFlowGraph::new();
    assert_eq!(function_end_address(&cfg), 0);
}

#[test]
fn to_sdb_xrefs_lists_calls_then_tail_calls_then_gotos() {
    let mut result = DiscoveryResult::default();
    result.call_xrefs.push((1, 2));
    result.tail_call_xrefs.push((3, 4));
    result.goto_xrefs.push((5, 6));
    result.call_xrefs.push((7, 8));
    let xrefs = result.to_sdb_xrefs();
    assert_eq!(
        xrefs,
        vec![
            SdbGlobalXref { from_address: 1, to_address: 2, kind: GlobalXrefKind::Call },
            SdbGlobalXref { from_address: 7, to_address: 8, kind: GlobalXrefKind::Call },
            SdbGlobalXref { from_address: 3, to_address: 4, kind: GlobalXrefKind::TailCall },
            SdbGlobalXref { from_address: 5, to_address: 6, kind: GlobalXrefKind::Goto },
        ]
    );
}

#[test]
fn code_ranges_span_each_section() {
    let ranges = code_ranges_from_sections(&[
        MappedSection { address: 0x1000, size: 0x200 },
        MappedSection { address: 0x4000, size: 0 },
    ]);
    assert_eq!(ranges, vec![(0x1000, 0x1200), (0x4000, 0x4000)]);
}
