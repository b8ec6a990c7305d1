use canary::calling_conv::{CallParam, CallSignature, CallingConvention, IrType, ParamLocation};
use canary::mlil::{lower_to_mlil, MlilDest, MlilExpr, MlilInstr, VarSource};
use canary::semantic_lower::SemanticFunction;
use canary::ssa::{
    BinOp, FlagCondition, OperandSize, PhiNode, PhiOperand, SsaBlock, SsaDest, SsaExpr,
    SsaFunction, SsaInstr, SsaName,
};
use canary::stack_vars::StackVar;
use std::collections::BTreeMap;

fn n(reg: u32, version: u32) -> SsaName {
    SsaName { reg, version }
}

fn reg(reg: u32, version: u32) -> SsaExpr {
    SsaExpr::Reg { reg: n(reg, version) }
}

fn konst(value: u64) -> SsaExpr {
    SsaExpr::Const { value, size: OperandSize::Bits64 }
}

fn sig_one_param() -> CallSignature {
    CallSignature {
        convention: CallingConvention::Win64Fastcall,
        params: vec![CallParam {
            name: "a".to_string(),
            ty: IrType::Int { bit_width: 32, signed: true },
            location: ParamLocation::Register(2),
        }],
        return_type: IrType::Void,
        is_variadic: false,
    }
}

fn diamond() -> SsaFunction {
    let frame_slot = SsaExpr::BinOp {
        op: BinOp::Sub,
        lhs: Box::new(reg(6, 1)),
        rhs: Box::new(konst(8)),
    };
    SsaFunction {
        entry_addr: 0x1000,
        name: "f".to_string(),
        blocks: vec![
            SsaBlock {
                id: 0,
                phis: vec![],
                instrs: vec![
                    SsaInstr::Store { addr: frame_slot, value: konst(5), size: OperandSize::Bits64 },
                    SsaInstr::SetFlags { op: BinOp::Sub, lhs: reg(0, 1), rhs: konst(0) },
                    SsaInstr::If {
                        cond: SsaExpr::FlagCond { cond: FlagCondition::Equal },
                        true_target: 1,
                        false_target: 2,
                    },
                ],
            },
            SsaBlock {
                id: 1,
                phis: vec![],
                instrs: vec![
                    SsaInstr::Assign { dest: SsaDest::Reg(n(0, 2)), expr: konst(1) },
                    SsaInstr::Goto { target: 3 },
                ],
            },
            SsaBlock {
                id: 2,
                phis: vec![],
                instrs: vec![SsaInstr::Assign { dest: SsaDest::Reg(n(0, 3)), expr: konst(2) }],
            },
            SsaBlock {
                id: 3,
                phis: vec![PhiNode {
                    result: n(0, 4),
                    operands: vec![
                        PhiOperand { name: n(0, 2), block: 1 },
                        PhiOperand { name: n(0, 3), block: 2 },
                    ],
                }],
                instrs: vec![SsaInstr::Return { value: Some(reg(0, 4)) }],
            },
        ],
    }
}

fn lower(f: &SsaFunction) -> canary::mlil::MlilFunction {
    let stack = vec![StackVar {
        offset: -8,
        size: 8,
        name: "x".to_string(),
        ty: IrType::Int { bit_width: 64, signed: false },
    }];
    lower_to_mlil(f, &sig_one_param(), &stack, SemanticFunction { blocks: BTreeMap::new() }, &["ssa", "mlil_lowering"])
}

#[test]
fn variables_come_from_parameters_frame_and_names_in_order() {
    let m = lower(&diamond());
    let names: Vec<&str> = m.vars.iter().map(|v| v.name.as_str()).collect();
    assert_eq!(names, vec!["arg_0", "local_8", "v0_1", "v0_2", "v0_3", "v0_4"]);
    assert_eq!(m.vars[0].source, VarSource::Parameter(0));
    assert_eq!(m.vars[0].ty, IrType::Int { bit_width: 32, signed: true });
    assert_eq!(m.vars[1].source, VarSource::StackOffset(-8));
    assert_eq!(m.vars[1].ty, IrType::Int { bit_width: 64, signed: false });
    assert_eq!(m.vars[2].source, VarSource::Register(0));
    assert_eq!(m.scheduled_order, vec!["ssa".to_string(), "mlil_lowering".to_string()]);
    assert!(m.semantic.is_some());
}

#[test]
fn frame_store_becomes_stack_variable_and_flags_become_comparison() {
    let m = lower(&diamond());
    let b0 = &m.blocks[0].instrs;
    assert_eq!(b0.len(), 2);
    assert!(matches!(&b0[0], MlilInstr::Assign { dest: MlilDest::Var(1), expr: MlilExpr::Const { value: 5, .. } }));
    match &b0[1] {
        MlilInstr::If { cond: MlilExpr::BinOp { op, lhs, rhs }, true_target: 1, false_target: 2 } => {
            assert_eq!(*op, BinOp::CmpE);
            assert!(matches!(**lhs, MlilExpr::Var(2)));
            assert!(matches!(**rhs, MlilExpr::Const { value: 0, .. }));
        }
        other => panic!("expected a comparison branch, got {:?}", other),
    }
}

#[test]
fn phi_copies_go_before_the_terminator_of_each_predecessor() {
    let m = lower(&diamond());
    let b1 = &m.blocks[1].instrs;
    assert_eq!(b1.len(), 3);
    assert!(matches!(&b1[0], MlilInstr::Assign { dest: MlilDest::Var(3), expr: MlilExpr::Const { value: 1, .. } }));
    assert!(matches!(&b1[1], MlilInstr::Assign { dest: MlilDest::Var(5), expr: MlilExpr::Var(3) }));
    assert!(matches!(&b1[2], MlilInstr::Goto { target: 3 }));
    let b2 = &m.blocks[2].instrs;
    assert_eq!(b2.len(), 2);
    assert!(matches!(&b2[1], MlilInstr::Assign { dest: MlilDest::Var(5), expr: MlilExpr::Var(4) }));
    assert!(matches!(&m.blocks[3].instrs[0], MlilInstr::Return { value: Some(MlilExpr::Var(5)) }));
}

#[test]
fn memory_assignment_off_the_frame_keeps_its_address() {
    let f = SsaFunction {
        entry_addr: 0,
        name: "g".to_string(),
        blocks: vec![SsaBlock {
            id: 0,
            phis: vec![],
            instrs: vec![SsaInstr::Assign {
                dest: SsaDest::Mem { addr: reg(3, 1), size: OperandSize::Bits32 },
                expr: reg(1, 1),
            }],
        }],
    };
    let m = lower(&f);
    match &m.blocks[0].instrs[0] {
        MlilInstr::Assign { dest: MlilDest::Mem { addr, .. }, expr: MlilExpr::Var(3) } => {
            assert!(matches!(**addr, MlilExpr::Var(2)));
        }
        other => panic!("unexpected {:?}", other),
    }
}
