use canary::cfg::{ControlFlowGraph, EdgeKind};
use canary::dominators::{compute_dominators, intersect, mark_back_edges};

#[test]
fn intersect_finds_nearest_common_ancestor() {
    // Post-order numbering of a diamond: 0 = merge, 1 = right, 2 = left, 3 = entry.
    let idom = vec![Some(3), Some(3), Some(3), Some(3)];
    assert_eq!(intersect(&idom, 1, 2), 3);
    assert_eq!(intersect(&idom, 0, 0), 0);

    // A chain 0 -> 1 -> 2 -> 4 and 3 -> 4 (4 is the entry).
    let idom = vec![Some(1), Some(2), Some(4), Some(4), Some(4)];
    assert_eq!(intersect(&idom, 0, 2), 2);
    assert_eq!(intersect(&idom, 1, 0), 1);
    assert_eq!(intersect(&idom, 0, 3), 4);
}

#[test]
fn intersect_ignores_unassigned_nodes_off_the_chains() {
    let idom = vec![Some(2), None, Some(3), Some(3)];
    assert_eq!(intersect(&idom, 0, 2), 2);
    assert_eq!(intersect(&idom, 0, 3), 3);
}

#[test]
fn intersect_needs_only_the_two_chains() {
    let idom = vec![Some(1), Some(3), Some(3), Some(3)];
    assert_eq!(intersect(&idom, 0, 2), 3);
    assert_eq!(intersect(&idom, 0, 1), 1);
    assert_eq!(intersect(&idom, 2, 0), 3);
    let partial = vec![None, Some(3), Some(3), Some(3)];
    assert_eq!(intersect(&partial, 1, 2), 3);
}

fn simple_diamond() -> ControlFlowGraph {
    let mut cfg = ControlFlowGraph::new();
    let entry = cfg.alloc_block(0x1000);
    let left = cfg.alloc_block(0x1010);
    let right = cfg.alloc_block(0x1020);
    let merge = cfg.alloc_block(0x1030);
    cfg.set_entry(entry);
    cfg.add_edge(entry, left, EdgeKind::True);
    cfg.add_edge(entry, right, EdgeKind::False);
    cfg.add_edge(left, merge, EdgeKind::Unconditional);
    cfg.add_edge(right, merge, EdgeKind::Unconditional);
    cfg
}

#[test]
fn diamond_dominators() {
    let cfg = simple_diamond();
    let info = compute_dominators(&cfg).expect("dominators should compute");
    let entry = cfg.entry().unwrap();

    // Entry dominates everything
    for block in cfg.blocks.iter() {
        assert!(
            info.dominates(entry, block.id),
            "entry should dominate all blocks"
        );
    }
}

#[test]
fn diamond_branches_do_not_dominate_the_merge() {
    let cfg = simple_diamond();
    let info = compute_dominators(&cfg).unwrap();
    assert!(!info.dominates(1, 3));
    assert!(!info.dominates(2, 3));
    assert!(!info.dominates(1, 2));
    assert!(info.dominates(3, 3));
    assert!(info.strictly_dominates(0, 3));
    assert!(!info.strictly_dominates(3, 3));
    assert!(!info.dominates(3, 0));
    assert_eq!(info.tree.idom, vec![None, Some(0), Some(0), Some(0)]);
    assert_eq!(info.tree.children[0], vec![1, 2, 3]);
    assert!(info.tree.children[1].is_empty());
    assert_eq!(info.postorder, vec![3, 1, 2, 0]);
}

#[test]
fn chain_dominance_follows_the_chain() {
    // 0 -> 1 -> 2 -> 3, and 1 -> 3.
    let mut cfg = ControlFlowGraph::new();
    for i in 0..4u64 {
        cfg.alloc_block(0x2000 + 0x10 * i);
    }
    cfg.set_entry(0);
    cfg.add_edge(0, 1, EdgeKind::Unconditional);
    cfg.add_edge(1, 2, EdgeKind::True);
    cfg.add_edge(2, 3, EdgeKind::Unconditional);
    cfg.add_edge(1, 3, EdgeKind::False);
    let info = compute_dominators(&cfg).unwrap();
    assert!(info.dominates(1, 3));
    assert!(!info.dominates(2, 3));
    assert_eq!(info.tree.idom, vec![None, Some(0), Some(1), Some(1)]);
}

#[test]
fn unreachable_block_is_dominated_only_by_itself() {
    let mut cfg = ControlFlowGraph::new();
    let a = cfg.alloc_block(0x10);
    let b = cfg.alloc_block(0x20);
    let orphan = cfg.alloc_block(0x30);
    cfg.set_entry(a);
    cfg.add_edge(a, b, EdgeKind::Unconditional);
    cfg.add_edge(orphan, b, EdgeKind::Unconditional);
    let info = compute_dominators(&cfg).unwrap();
    assert!(!info.dominates(a, orphan));
    assert!(info.dominates(orphan, orphan));
    assert!(info.dominates(a, b));
    assert_eq!(info.tree.idom[orphan as usize], None);
    assert_eq!(info.postorder, vec![b, a]);
    // Blocks outside the graph dominate nothing but themselves.
    assert!(!info.dominates(7, b));
    assert!(info.dominates(7, 7));
}

#[test]
fn no_entry_gives_no_dominators() {
    let mut cfg = ControlFlowGraph::new();
    cfg.alloc_block(0x10);
    assert!(compute_dominators(&cfg).is_none());
}

#[test]
fn loop_edge_is_marked_back() {
    // 0 -> 1 -> 2 -> 1 (loop), 2 -> 3.
    let mut cfg = ControlFlowGraph::new();
    for i in 0..4u64 {
        cfg.alloc_block(0x3000 + 0x10 * i);
    }
    cfg.set_entry(0);
    cfg.add_edge(0, 1, EdgeKind::Unconditional);
    cfg.add_edge(1, 2, EdgeKind::Unconditional);
    cfg.add_edge(2, 1, EdgeKind::True);
    cfg.add_edge(2, 3, EdgeKind::False);
    let info = compute_dominators(&cfg).unwrap();
    mark_back_edges(&mut cfg, &info);
    assert_eq!(cfg.blocks[2].successors[0].kind, EdgeKind::Back);
    assert_eq!(cfg.blocks[2].successors[1].kind, EdgeKind::False);
    assert_eq!(cfg.blocks[0].successors[0].kind, EdgeKind::Unconditional);
    assert_eq!(cfg.blocks[1].successors[0].kind, EdgeKind::Unconditional);
}

#[test]
fn every_reachable_block_but_the_entry_has_an_idom() {
    let mut cfg = simple_diamond();
    let orphan = cfg.alloc_block(0x1040);
    let info = compute_dominators(&cfg).unwrap();
    for &b in info.postorder.iter() {
        if b != 0 {
            assert!(info.tree.idom[b as usize].is_some());
        }
    }
    assert_eq!(info.tree.idom[0], None);
    assert_eq!(info.tree.idom[orphan as usize], None);
    assert!(!info.postorder.contains(&orphan));
}
