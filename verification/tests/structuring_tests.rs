use canary::cfg::{ControlFlowGraph, EdgeKind};
use canary::dominators::{compute_dominators, mark_back_edges};
use canary::structuring::{structural_analysis, HighLevelControlFlow};

fn make_diamond_cfg() -> ControlFlowGraph {
    let mut cfg = ControlFlowGraph::new();
    let b0 = cfg.alloc_block(0);
    let b1 = cfg.alloc_block(0);
    let b2 = cfg.alloc_block(0);
    let b3 = cfg.alloc_block(0);

    cfg.set_entry(b0);
    cfg.add_edge(b0, b1, EdgeKind::True);
    cfg.add_edge(b0, b2, EdgeKind::False);
    cfg.add_edge(b1, b3, EdgeKind::Unconditional);
    cfg.add_edge(b2, b3, EdgeKind::Unconditional);
    cfg
}

#[test]
fn test_if_then_else() {
    let mut cfg = make_diamond_cfg();
    let dom_info = compute_dominators(&cfg).unwrap();
    mark_back_edges(&mut cfg, &dom_info);

    let ast = structural_analysis(&cfg, &dom_info.tree, &dom_info);

    if let HighLevelControlFlow::Sequence(items) = ast {
        assert_eq!(items.len(), 2);
        assert!(matches!(items[0], HighLevelControlFlow::Block(0)));

        if let HighLevelControlFlow::IfElse { cond, .. } = &items[1] {
            assert_eq!(*cond, 0);
        } else {
            panic!("Expected IfElse");
        }
    } else {
        panic!("Expected Seq");
    }
}

#[test]
fn test_while_loop() {
    let mut cfg = ControlFlowGraph::new();
    let b0 = cfg.alloc_block(0); // entry
    let b1 = cfg.alloc_block(0); // loop header (cond)
    let b2 = cfg.alloc_block(0); // loop body
    let b3 = cfg.alloc_block(0); // exit

    cfg.set_entry(b0);
    cfg.add_edge(b0, b1, EdgeKind::Unconditional);
    cfg.add_edge(b1, b2, EdgeKind::True);
    cfg.add_edge(b1, b3, EdgeKind::False);
    cfg.add_edge(b2, b1, EdgeKind::Unconditional); // back edge

    let dom_info = compute_dominators(&cfg).unwrap();
    mark_back_edges(&mut cfg, &dom_info);

    let ast = structural_analysis(&cfg, &dom_info.tree, &dom_info);

    if let HighLevelControlFlow::Sequence(items) = ast {
        assert!(matches!(items[0], HighLevelControlFlow::Block(0)));
        if let HighLevelControlFlow::Sequence(inner) = &items[1] {
            if let HighLevelControlFlow::While { cond, .. } = &inner[0] {
                assert_eq!(*cond, 1);
                return;
            }
        }
        panic!("Expected While loop");
    } else {
        panic!("Expected Seq");
    }
}

#[test]
fn diamond_branches_jump_to_the_merge() {
    let mut cfg = make_diamond_cfg();
    let dom_info = compute_dominators(&cfg).unwrap();
    mark_back_edges(&mut cfg, &dom_info);
    let ast = structural_analysis(&cfg, &dom_info.tree, &dom_info);
    let HighLevelControlFlow::Sequence(items) = ast else { panic!("Expected Seq") };
    let HighLevelControlFlow::IfElse { then_branch, else_branch, .. } = &items[1] else {
        panic!("Expected IfElse")
    };
    let HighLevelControlFlow::Sequence(t) = then_branch.as_ref() else { panic!("then") };
    assert!(matches!(t[0], HighLevelControlFlow::Block(1)));
    assert!(matches!(t[1], HighLevelControlFlow::Goto(3)));
    let HighLevelControlFlow::Sequence(e) = else_branch.as_ref() else { panic!("else") };
    assert!(matches!(e[0], HighLevelControlFlow::Block(2)));
    assert!(matches!(e[1], HighLevelControlFlow::Goto(3)));
}

#[test]
fn while_loop_body_and_exit() {
    let mut cfg = ControlFlowGraph::new();
    for _ in 0..4 {
        cfg.alloc_block(0);
    }
    cfg.set_entry(0);
    cfg.add_edge(0, 1, EdgeKind::Unconditional);
    cfg.add_edge(1, 2, EdgeKind::True);
    cfg.add_edge(1, 3, EdgeKind::False);
    cfg.add_edge(2, 1, EdgeKind::Unconditional);
    let dom_info = compute_dominators(&cfg).unwrap();
    mark_back_edges(&mut cfg, &dom_info);
    let ast = structural_analysis(&cfg, &dom_info.tree, &dom_info);
    let HighLevelControlFlow::Sequence(items) = ast else { panic!("Seq") };
    let HighLevelControlFlow::Sequence(inner) = &items[1] else { panic!("inner") };
    assert_eq!(inner.len(), 2);
    let HighLevelControlFlow::While { body, .. } = &inner[0] else { panic!("While") };
    let HighLevelControlFlow::Sequence(b) = body.as_ref() else { panic!("body") };
    assert!(matches!(b[0], HighLevelControlFlow::Block(2)));
    assert!(matches!(b[1], HighLevelControlFlow::Goto(1)));
    assert!(matches!(inner[1], HighLevelControlFlow::Block(3)));
}

#[test]
fn no_entry_gives_an_empty_sequence() {
    let cfg = ControlFlowGraph::new();
    let mut one = ControlFlowGraph::new();
    one.alloc_block(0);
    one.set_entry(0);
    let dom_info = compute_dominators(&one).unwrap();
    let ast = structural_analysis(&cfg, &dom_info.tree, &dom_info);
    assert!(matches!(ast, HighLevelControlFlow::Sequence(ref v) if v.is_empty()));
    let single = structural_analysis(&one, &dom_info.tree, &dom_info);
    assert!(matches!(single, HighLevelControlFlow::Block(0)));
}

fn collect_heads(ast: &HighLevelControlFlow, out: &mut Vec<u32>) {
    match ast {
        HighLevelControlFlow::Sequence(items) => {
            for item in items {
                collect_heads(item, out);
            }
        }
        HighLevelControlFlow::Block(b) => out.push(*b),
        HighLevelControlFlow::If { then_branch, .. } => collect_heads(then_branch, out),
        HighLevelControlFlow::IfElse { then_branch, else_branch, .. } => {
            collect_heads(then_branch, out);
            collect_heads(else_branch, out);
        }
        HighLevelControlFlow::While { cond, body } | HighLevelControlFlow::DoWhile { body, cond } => {
            out.push(*cond);
            collect_heads(body, out);
        }
        _ => {}
    }
}

#[test]
fn no_block_is_structured_twice() {
    let mut cfg = ControlFlowGraph::new();
    for _ in 0..6 {
        cfg.alloc_block(0);
    }
    cfg.set_entry(0);
    cfg.add_edge(0, 1, EdgeKind::Unconditional);
    cfg.add_edge(1, 2, EdgeKind::True);
    cfg.add_edge(1, 5, EdgeKind::False);
    cfg.add_edge(2, 3, EdgeKind::True);
    cfg.add_edge(2, 4, EdgeKind::False);
    cfg.add_edge(3, 1, EdgeKind::Unconditional);
    cfg.add_edge(4, 1, EdgeKind::Unconditional);
    let dom_info = compute_dominators(&cfg).unwrap();
    mark_back_edges(&mut cfg, &dom_info);
    let ast = structural_analysis(&cfg, &dom_info.tree, &dom_info);
    let mut heads = Vec::new();
    collect_heads(&ast, &mut heads);
    let mut sorted = heads.clone();
    sorted.sort();
    sorted.dedup();
    assert_eq!(sorted.len(), heads.len());
    assert_eq!(heads, vec![0, 1, 2, 3, 4, 5]);
}
