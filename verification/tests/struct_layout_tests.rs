use canary::ssa::{BinOp, OperandSize, SsaBlock, SsaExpr, SsaFunction, SsaInstr, SsaName};
use canary::struct_inference::{collect_struct_accesses, infer_struct_layouts, ArenaType, StructField, TypeArena, TypeId};
use canary::vsa::VsaResult;
use indexmap::IndexMap;

fn make_test_vsa() -> VsaResult {
    VsaResult { values: IndexMap::new() }
}

fn ptr() -> SsaName {
    SsaName { reg: 10, version: 1 }
}

fn at(offset: u64) -> SsaExpr {
    if offset == 0 {
        SsaExpr::Reg { reg: ptr() }
    } else {
        SsaExpr::BinOp {
            op: BinOp::Add,
            lhs: Box::new(SsaExpr::Reg { reg: ptr() }),
            rhs: Box::new(SsaExpr::Const { value: offset, size: OperandSize::Bits64 }),
        }
    }
}

fn store(offset: u64, size: OperandSize) -> SsaInstr {
    SsaInstr::Store { addr: at(offset), value: SsaExpr::Const { value: 0, size }, size }
}

fn func(instrs: Vec<SsaInstr>) -> SsaFunction {
    SsaFunction { entry_addr: 0, name: "".into(), blocks: vec![SsaBlock { id: 0, phis: vec![], instrs }] }
}

fn layout_of(layouts: &[(SsaName, TypeId)], base: SsaName) -> Option<TypeId> {
    layouts.iter().find(|(b, _)| *b == base).map(|(_, id)| *id)
}

fn fields_of(arena: &TypeArena, id: TypeId) -> Vec<(u64, String)> {
    match &arena.types[id] {
        ArenaType::Struct { fields, .. } => fields.iter().map(|f: &StructField| (f.offset, f.name.clone())).collect(),
        _ => panic!("Expected struct type"),
    }
}

#[test]
fn struct_two_fields() {
    let vsa = make_test_vsa();
    let f = func(vec![store(0, OperandSize::Bits64), store(8, OperandSize::Bits32)]);
    let accesses = collect_struct_accesses(&f, &vsa);
    assert_eq!(accesses.len(), 2);

    let mut arena = TypeArena::new();
    let layouts = infer_struct_layouts(&accesses, &mut arena);
    let id = layout_of(&layouts, ptr()).expect("layout for the pointer");
    let fields = fields_of(&arena, id);
    assert_eq!(fields.len(), 2);
    assert_eq!(fields[0].0, 0);
    assert_eq!(fields[1].0, 8);
}

#[test]
fn struct_aliased_fields() {
    let vsa = make_test_vsa();
    let f = func(vec![store(0, OperandSize::Bits64), store(0, OperandSize::Bits32)]);
    let accesses = collect_struct_accesses(&f, &vsa);
    let mut arena = TypeArena::new();
    let layouts = infer_struct_layouts(&accesses, &mut arena);
    assert!(layout_of(&layouts, ptr()).is_none());
}

#[test]
fn struct_padding_inserted() {
    let vsa = make_test_vsa();
    let f = func(vec![store(0, OperandSize::Bits32), store(12, OperandSize::Bits32)]);
    let accesses = collect_struct_accesses(&f, &vsa);
    let mut arena = TypeArena::new();
    let layouts = infer_struct_layouts(&accesses, &mut arena);
    let id = layout_of(&layouts, ptr()).expect("layout for the pointer");
    let fields = fields_of(&arena, id);
    assert_eq!(fields.len(), 3);
    assert_eq!(fields[0].0, 0);
    assert_eq!(fields[1].0, 4);
    assert!(fields[1].1.starts_with("pad_"));
    assert_eq!(fields[2].0, 12);
}

#[test]
fn struct_no_pattern() {
    let vsa = make_test_vsa();
    let f = func(vec![store(0, OperandSize::Bits64)]);
    let accesses = collect_struct_accesses(&f, &vsa);
    let mut arena = TypeArena::new();
    let layouts = infer_struct_layouts(&accesses, &mut arena);
    assert!(layout_of(&layouts, ptr()).is_none());
}

#[test]
fn struct_layout_names_and_allocates_in_order() {
    let vsa = make_test_vsa();
    let f = func(vec![store(0, OperandSize::Bits64), store(8, OperandSize::Bits64)]);
    let accesses = collect_struct_accesses(&f, &vsa);
    let mut arena = TypeArena::new();
    let before = arena.types.len();
    let layouts = infer_struct_layouts(&accesses, &mut arena);
    assert_eq!(layouts.len(), 1);
    let id = layouts[0].1;
    assert!(id >= before && id < arena.types.len());
    match &arena.types[id] {
        ArenaType::Struct { name, fields } => {
            assert_eq!(name.as_deref(), Some("Class_10_1"));
            assert_eq!(fields.len(), 2);
            assert_eq!(fields[0].name, "vtable");
            assert_eq!(fields[1].name, "field_0x8");
        }
        _ => panic!("Expected struct type"),
    }
}
