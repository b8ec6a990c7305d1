use canary::calling_conv::{recover_call_signature, CallingConvention, IrType, ParamLocation};
use canary::ssa::{BinOp, OperandSize, SsaBlock, SsaDest, SsaExpr, SsaFunction, SsaInstr, SsaName};
use canary::struct_inference::{collect_struct_accesses, StructAccess};
use canary::vsa::{PtrBase, ValueSet, VsaResult};
use indexmap::IndexMap;

fn make_test_vsa() -> VsaResult {
    VsaResult { values: IndexMap::new() }
}

fn name(reg: u32, version: u32) -> SsaName {
    SsaName { reg, version }
}

fn reg(r: u32, version: u32) -> SsaExpr {
    SsaExpr::Reg { reg: name(r, version) }
}

fn copy_from(r: u32, into: u32) -> SsaInstr {
    SsaInstr::Assign { dest: SsaDest::Reg(name(into, 1)), expr: reg(r, 0) }
}

fn func(fname: &str, instrs: Vec<SsaInstr>) -> SsaFunction {
    SsaFunction { entry_addr: 0, name: fname.to_string(), blocks: vec![SsaBlock { id: 0, phis: Vec::new(), instrs }] }
}

fn no_types() -> Option<&'static IndexMap<SsaName, IrType>> {
    None
}

#[test]
fn sysv64_two_int_params() {
    let f = func("", vec![copy_from(5, 10), copy_from(4, 11)]);
    let sig = recover_call_signature(&f, &make_test_vsa(), CallingConvention::SysV64, no_types());
    assert_eq!(sig.params.len(), 2);
    assert!(matches!(sig.params[0].location, ParamLocation::Register(5)));
    assert!(matches!(sig.params[1].location, ParamLocation::Register(4)));
    assert_eq!(sig.params[1].name, "arg2");
}

#[test]
fn sysv64_no_params() {
    let f = func("", vec![]);
    let sig = recover_call_signature(&f, &make_test_vsa(), CallingConvention::SysV64, no_types());
    assert_eq!(sig.params.len(), 0);
    assert_eq!(sig.return_type, IrType::Void);
}

#[test]
fn sysv64_return_int() {
    let f = func(
        "",
        vec![SsaInstr::Assign {
            dest: SsaDest::Reg(name(0, 1)),
            expr: SsaExpr::Const { value: 42, size: OperandSize::Bits64 },
        }],
    );
    let sig = recover_call_signature(&f, &make_test_vsa(), CallingConvention::SysV64, no_types());
    assert_eq!(sig.return_type, IrType::Int { bit_width: 64, signed: false });
}

#[test]
fn win64_param_detection() {
    let f = func("", vec![copy_from(2, 10), copy_from(3, 11)]);
    let sig = recover_call_signature(&f, &make_test_vsa(), CallingConvention::Win64Fastcall, no_types());
    assert_eq!(sig.params.len(), 2);
}

#[test]
fn variadic_detection() {
    let f = func("", vec![copy_from(0, 10)]);
    let sig = recover_call_signature(&f, &make_test_vsa(), CallingConvention::SysV64, no_types());
    assert!(sig.is_variadic);
}

#[test]
fn variadic_detection_by_name() {
    let f = SsaFunction { entry_addr: 0, name: "printf".to_string(), blocks: Vec::new() };
    let sig = recover_call_signature(&f, &make_test_vsa(), CallingConvention::SysV64, no_types());
    assert!(sig.is_variadic);
}

#[test]
fn thiscall_detection() {
    let f = func("", vec![copy_from(1, 10)]);
    let sig = recover_call_signature(&f, &make_test_vsa(), CallingConvention::Unknown, no_types());
    assert_eq!(sig.convention, CallingConvention::Thiscall);
    assert_eq!(sig.params.len(), 1);
    assert!(matches!(sig.params[0].location, ParamLocation::Register(1)));
}

#[test]
fn inferred_conventions_by_register_evidence() {
    let vsa = make_test_vsa();
    let sysv = func("", vec![copy_from(5, 10), copy_from(4, 11)]);
    assert_eq!(recover_call_signature(&sysv, &vsa, CallingConvention::Unknown, no_types()).convention, CallingConvention::SysV64);
    let fast = func("", vec![copy_from(1, 10), copy_from(2, 11)]);
    assert_eq!(recover_call_signature(&fast, &vsa, CallingConvention::Unknown, no_types()).convention, CallingConvention::Fastcall);
    let none = func("Scanf_wrapper", vec![]);
    let sig = recover_call_signature(&none, &vsa, CallingConvention::Unknown, no_types());
    assert_eq!(sig.convention, CallingConvention::Cdecl);
    assert!(sig.is_variadic);
}

#[test]
fn widest_returned_integer_wins() {
    let mut types = IndexMap::new();
    types.insert(name(3, 2), IrType::Int { bit_width: 16, signed: true });
    let f = func(
        "",
        vec![
            SsaInstr::Return { value: Some(reg(3, 2)) },
            SsaInstr::Return { value: Some(SsaExpr::Const { value: 1, size: OperandSize::Bits32 }) },
            SsaInstr::Return { value: Some(SsaExpr::Const { value: 2, size: OperandSize::Bits8 }) },
        ],
    );
    let sig = recover_call_signature(&f, &make_test_vsa(), CallingConvention::Cdecl, Some(&types));
    assert_eq!(sig.return_type, IrType::Int { bit_width: 32, signed: false });
    assert!(sig.params.is_empty());
}

fn add(lhs: SsaExpr, rhs: SsaExpr) -> SsaExpr {
    SsaExpr::BinOp { op: BinOp::Add, lhs: Box::new(lhs), rhs: Box::new(rhs) }
}

fn load(addr: SsaExpr, size: OperandSize) -> SsaExpr {
    SsaExpr::Load { addr: Box::new(addr), size }
}

#[test]
fn struct_accesses_from_loads_and_stores() {
    let base = name(7, 1);
    let f = func(
        "",
        vec![
            SsaInstr::Store {
                addr: add(reg(7, 1), SsaExpr::Const { value: 8, size: OperandSize::Bits64 }),
                value: load(reg(7, 1), OperandSize::Bits64),
                size: OperandSize::Bits32,
            },
            SsaInstr::Assign {
                dest: SsaDest::Reg(name(2, 1)),
                expr: load(add(SsaExpr::Const { value: 16, size: OperandSize::Bits64 }, reg(7, 1)), OperandSize::Bits16),
            },
            SsaInstr::If { cond: load(reg(9, 1), OperandSize::Bits8), true_target: 0, false_target: 0 },
        ],
    );
    let mut values = IndexMap::new();
    values.insert(name(9, 1), ValueSet::PtrOffset { base: PtrBase::StackFrame, offset: -8 });
    let accs = collect_struct_accesses(&f, &VsaResult { values });
    assert_eq!(
        accs,
        vec![
            StructAccess { base, offset: 8, size: 4, is_write: true },
            StructAccess { base, offset: 0, size: 8, is_write: false },
            StructAccess { base, offset: 16, size: 2, is_write: false },
        ]
    );
}

#[test]
fn struct_accesses_of_nothing() {
    assert!(collect_struct_accesses(&func("", vec![]), &make_test_vsa()).is_empty());
}
