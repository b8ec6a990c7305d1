use canary::cfg::{ControlFlowGraph, EdgeKind};
use canary::dominators::compute_dominators;
use canary::ssa::{
    validate_ssa, SsaBuilder, OperandSize, PhiNode, PhiOperand, SsaBlock, SsaDest, SsaError, SsaExpr,
    SsaFunction, SsaInstr, SsaName,
};

fn diamond() -> ControlFlowGraph {
    let mut cfg = ControlFlowGraph::new();
    for i in 0..4u64 {
        cfg.alloc_block(0x1000 + 0x10 * i);
    }
    cfg.set_entry(0);
    cfg.add_edge(0, 1, EdgeKind::True);
    cfg.add_edge(0, 2, EdgeKind::False);
    cfg.add_edge(1, 3, EdgeKind::Unconditional);
    cfg.add_edge(2, 3, EdgeKind::Unconditional);
    cfg
}

fn name(reg: u32, version: u32) -> SsaName {
    SsaName { reg, version }
}

fn def(n: SsaName, value: u64) -> SsaInstr {
    SsaInstr::Assign {
        dest: SsaDest::Reg(n),
        expr: SsaExpr::Const { value, size: OperandSize::Bits64 },
    }
}

fn ret(n: SsaName) -> SsaInstr {
    SsaInstr::Return { value: Some(SsaExpr::Reg { reg: n }) }
}

fn block(id: u32, phis: Vec<PhiNode>, instrs: Vec<SsaInstr>) -> SsaBlock {
    SsaBlock { id, phis, instrs }
}

fn func(blocks: Vec<SsaBlock>) -> SsaFunction {
    SsaFunction { entry_addr: 0x1000, name: "f".to_string(), blocks }
}

fn merge_phi(operands: Vec<PhiOperand>) -> PhiNode {
    PhiNode { result: name(0, 3), operands }
}

#[test]
fn well_formed_diamond_has_no_errors() {
    let cfg = diamond();
    let dom = compute_dominators(&cfg).unwrap();
    let f = func(vec![
        block(0, vec![], vec![def(name(1, 1), 7)]),
        block(1, vec![], vec![def(name(0, 1), 1)]),
        block(2, vec![], vec![def(name(0, 2), 2)]),
        block(
            3,
            vec![merge_phi(vec![
                PhiOperand { name: name(0, 1), block: 1 },
                PhiOperand { name: name(0, 2), block: 2 },
            ])],
            vec![ret(name(0, 3)), ret(name(1, 1)), ret(name(5, 0))],
        ),
    ]);
    assert_eq!(validate_ssa(&f, &cfg, &dom), vec![]);
}

#[test]
fn each_kind_of_error_is_reported_in_order() {
    let cfg = diamond();
    let dom = compute_dominators(&cfg).unwrap();
    let f = func(vec![
        block(0, vec![], vec![def(name(1, 1), 7), def(name(1, 1), 8)]),
        block(1, vec![], vec![def(name(0, 1), 1)]),
        block(2, vec![], vec![]),
        block(
            3,
            vec![merge_phi(vec![PhiOperand { name: name(0, 1), block: 1 }])],
            vec![ret(name(0, 1)), ret(name(9, 4))],
        ),
    ]);
    assert_eq!(
        validate_ssa(&f, &cfg, &dom),
        vec![
            SsaError::MultipleDefs(name(1, 1)),
            SsaError::PhiOperandCountMismatch(3, 1, 2),
            SsaError::DefDoesNotDominateUse(name(0, 1), 1, 3),
            SsaError::UndefinedUse(name(9, 4)),
        ]
    );
}

#[test]
fn uses_inside_expressions_are_checked() {
    let cfg = diamond();
    let dom = compute_dominators(&cfg).unwrap();
    let load = SsaExpr::Load {
        addr: Box::new(SsaExpr::Reg { reg: name(2, 1) }),
        size: OperandSize::Bits32,
    };
    let f = func(vec![block(
        0,
        vec![],
        vec![SsaInstr::Store { addr: load, value: SsaExpr::Reg { reg: name(3, 1) }, size: OperandSize::Bits32 }],
    )]);
    assert_eq!(
        validate_ssa(&f, &cfg, &dom),
        vec![SsaError::UndefinedUse(name(2, 1)), SsaError::UndefinedUse(name(3, 1))]
    );
}

#[test]
fn phi_goes_to_the_join_of_two_definitions() {
    let cfg = diamond();
    let dom = compute_dominators(&cfg).unwrap();
    let builder = SsaBuilder::new(&cfg, &dom);
    let df = vec![vec![], vec![3], vec![3], vec![]];
    let phis = builder.place_phi_nodes(7, &[1, 2], &df);
    assert_eq!(phis.len(), 1);
    assert_eq!(phis[0].0, 3);
    assert_eq!(phis[0].1.result, name(7, 0));
    assert!(phis[0].1.operands.is_empty());
    assert!(builder.place_phi_nodes(7, &[0], &df).is_empty());
}

#[test]
fn phi_placement_iterates_the_frontier() {
    let cfg = diamond();
    let dom = compute_dominators(&cfg).unwrap();
    let builder = SsaBuilder::new(&cfg, &dom);
    let df = vec![vec![], vec![2], vec![3], vec![1]];
    let phis = builder.place_phi_nodes(1, &[1, 1], &df);
    let blocks: Vec<u32> = phis.iter().map(|p| p.0).collect();
    assert_eq!(blocks, vec![2, 3, 1]);
    // A block past the end of the frontier table has an empty frontier.
    assert!(builder.place_phi_nodes(1, &[9], &df).is_empty());
}

#[test]
fn diamond_frontiers_are_the_merge() {
    let cfg = diamond();
    let dom = compute_dominators(&cfg).unwrap();
    let builder = SsaBuilder::new(&cfg, &dom);
    let df = builder.dominance_frontiers();
    assert_eq!(df, vec![vec![], vec![3], vec![3], vec![]]);
    let phis = builder.place_phi_nodes(4, &[1], &df);
    assert_eq!(phis.len(), 1);
    assert_eq!(phis[0].0, 3);
}

#[test]
fn loop_header_is_in_its_own_frontier() {
    let mut cfg = ControlFlowGraph::new();
    for i in 0..4u64 {
        cfg.alloc_block(0x2000 + 0x10 * i);
    }
    cfg.set_entry(0);
    cfg.add_edge(0, 1, EdgeKind::Unconditional);
    cfg.add_edge(1, 2, EdgeKind::True);
    cfg.add_edge(2, 1, EdgeKind::Unconditional);
    cfg.add_edge(1, 3, EdgeKind::False);
    let dom = compute_dominators(&cfg).unwrap();
    let builder = SsaBuilder::new(&cfg, &dom);
    let df = builder.dominance_frontiers();
    assert_eq!(df, vec![vec![], vec![1], vec![1], vec![]]);
}
