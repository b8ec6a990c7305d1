use canary::calling_conv::IrType;
use canary::ssa::{OperandSize, SsaBlock, SsaExpr, SsaFunction, SsaInstr, SsaName};
use canary::stack_vars::recover_stack_vars;
use canary::vsa::{PtrBase, ValueSet, VsaResult};
use indexmap::IndexMap;

fn make_test_vsa() -> VsaResult {
    let mut values = IndexMap::new();
    values.insert(SsaName { reg: 6, version: 0 }, ValueSet::PtrOffset { base: PtrBase::StackFrame, offset: 0 });
    values.insert(SsaName { reg: 1, version: 1 }, ValueSet::PtrOffset { base: PtrBase::StackFrame, offset: -8 });
    values.insert(SsaName { reg: 2, version: 1 }, ValueSet::PtrOffset { base: PtrBase::StackFrame, offset: -16 });
    values.insert(SsaName { reg: 3, version: 1 }, ValueSet::PtrOffset { base: PtrBase::StackFrame, offset: -24 });
    values.insert(SsaName { reg: 4, version: 1 }, ValueSet::PtrOffset { base: PtrBase::StackFrame, offset: -4 });
    VsaResult { values }
}

fn store_through(reg: u32, size: OperandSize) -> SsaInstr {
    SsaInstr::Store {
        addr: SsaExpr::Reg { reg: SsaName { reg, version: 1 } },
        value: SsaExpr::Const { value: 0, size },
        size,
    }
}

fn func(instrs: Vec<SsaInstr>) -> SsaFunction {
    SsaFunction { entry_addr: 0, name: "".into(), blocks: vec![SsaBlock { id: 0, phis: vec![], instrs }] }
}

#[test]
fn stack_single_local() {
    let vsa = make_test_vsa();
    let f = func(vec![store_through(1, OperandSize::Bits64)]);
    let frame = recover_stack_vars(&f, &vsa);
    assert_eq!(frame.vars.len(), 1);
    assert_eq!(frame.vars[0].offset, -8);
    assert_eq!(frame.vars[0].size, 8);
    assert_eq!(frame.vars[0].name, "local_0x8");
    assert_eq!(frame.frame_size, 8);
}

#[test]
fn stack_multiple_locals() {
    let vsa = make_test_vsa();
    let f = func(vec![store_through(1, OperandSize::Bits64), store_through(2, OperandSize::Bits64)]);
    let frame = recover_stack_vars(&f, &vsa);
    assert_eq!(frame.vars.len(), 2);
}

#[test]
fn stack_overlapping_accesses() {
    let vsa = make_test_vsa();
    let f = func(vec![store_through(1, OperandSize::Bits64), store_through(4, OperandSize::Bits32)]);
    let frame = recover_stack_vars(&f, &vsa);
    assert_eq!(frame.vars.len(), 1);
    assert_eq!(frame.vars[0].offset, -8);
    assert_eq!(frame.vars[0].size, 8);
}

#[test]
fn stack_no_stack_frame() {
    let vsa = make_test_vsa();
    let f = SsaFunction { entry_addr: 0, name: "".into(), blocks: vec![] };
    let frame = recover_stack_vars(&f, &vsa);
    assert_eq!(frame.vars.len(), 0);
    assert_eq!(frame.frame_size, 0);
}

#[test]
fn locals_come_out_in_offset_order_with_widest_size() {
    let vsa = make_test_vsa();
    let load = SsaExpr::Load { addr: Box::new(SsaExpr::Reg { reg: SsaName { reg: 2, version: 1 } }), size: OperandSize::Bits32 };
    let f = func(vec![
        store_through(1, OperandSize::Bits64),
        SsaInstr::Return { value: Some(load) },
        store_through(3, OperandSize::Bits16),
        store_through(2, OperandSize::Bits64),
    ]);
    let frame = recover_stack_vars(&f, &vsa);
    let offsets: Vec<(i64, u8)> = frame.vars.iter().map(|v| (v.offset, v.size)).collect();
    assert_eq!(offsets, vec![(-24, 2), (-16, 8), (-8, 8)]);
    assert_eq!(frame.vars[1].name, "local_0x10");
    assert_eq!(frame.vars[1].ty, IrType::Int { bit_width: 64, signed: false });
    assert_eq!(frame.frame_size, 24);
}

#[test]
fn merged_accesses_extend_to_the_furthest_end() {
    let mut values = IndexMap::new();
    values.insert(SsaName { reg: 1, version: 1 }, ValueSet::PtrOffset { base: PtrBase::StackFrame, offset: -12 });
    values.insert(SsaName { reg: 2, version: 1 }, ValueSet::PtrOffset { base: PtrBase::StackFrame, offset: -8 });
    values.insert(SsaName { reg: 3, version: 1 }, ValueSet::PtrOffset { base: PtrBase::StackFrame, offset: 16 });
    let vsa = VsaResult { values };
    let f = func(vec![
        store_through(1, OperandSize::Bits64),
        store_through(2, OperandSize::Bits64),
        store_through(3, OperandSize::Bits32),
    ]);
    let frame = recover_stack_vars(&f, &vsa);
    let offsets: Vec<(i64, u8)> = frame.vars.iter().map(|v| (v.offset, v.size)).collect();
    assert_eq!(offsets, vec![(-12, 12), (16, 4)]);
    assert_eq!(frame.vars[1].name, "arg_0x10");
    assert_eq!(frame.frame_size, 12);
}
