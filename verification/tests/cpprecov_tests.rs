use canary::cfg::{ControlFlowGraph, FlowInstr, LiftedFunction, StoreAddr};
use canary::classes::reconstruct_classes;
use canary::cpp_recovery::run_discovery;
use canary::image::{ImageSection, LoadedImage};
use canary::inheritance::detect_inheritance;
use canary::methods::recover_methods;
use canary::recovered_types::{SdbClass, SdbImport, SdbInheritance, SdbMethod, SdbVtable, TypeTables};
use canary::rtti::recover_rtti;
use canary::vtables::{assign_vtables, detect_vtables};

fn tables(vtables: Vec<SdbVtable>) -> TypeTables {
    TypeTables { vtables, methods: vec![], inheritance: vec![], classes: vec![] }
}

fn vtable(addr: u64, entries: Vec<u64>) -> SdbVtable {
    SdbVtable { addr, entries, class_name: None, base_vtable: None }
}

fn section(name: &str, start: u64, data: Vec<u8>, executable: bool) -> ImageSection {
    ImageSection {
        name: name.to_string(),
        start,
        end: start + data.len() as u64,
        data,
        executable,
        writable: false,
    }
}

fn image(arch: &str, sections: Vec<ImageSection>) -> LoadedImage {
    LoadedImage { arch_name: arch.to_string(), image_base: 0, sections }
}

fn function(entry: u64, instrs: Vec<FlowInstr>) -> LiftedFunction {
    let mut cfg = ControlFlowGraph::new();
    let b = cfg.alloc_block(entry);
    cfg.set_entry(b);
    for (i, instr) in instrs.into_iter().enumerate() {
        cfg.push_instr(b, entry + 4 * i as u64, instr);
    }
    LiftedFunction { entry_addr: entry, cfg, is_lifted: true }
}

#[test]
fn test_vtable_detection() {
    let code = section(".text", 0x1000, vec![0; 0x1000], true);
    let mut rodata_bytes = vec![0u8; 8 * 6];
    let ptrs: [u64; 6] = [0x500, 0x1100, 0x1110, 0x1120, 0x1130, 0x3000];
    for (i, p) in ptrs.iter().enumerate() {
        rodata_bytes[i * 8..(i + 1) * 8].copy_from_slice(&p.to_le_bytes());
    }
    let rodata = section(".rodata", 0x4000, rodata_bytes, false);
    let loaded = image("x86_64", vec![code, rodata]);
    let mut types = tables(vec![]);
    detect_vtables(&mut types, &loaded);
    assert_eq!(types.vtables.len(), 1);
    let vt = &types.vtables[0];
    assert_eq!(vt.addr, 0x4008);
    assert_eq!(vt.entries.len(), 4);
    assert_eq!(vt.entries, vec![0x1100, 0x1110, 0x1120, 0x1130]);
}

#[test]
fn vtable_detection_takes_a_leading_data_pointer_and_32_bit_words() {
    let code = section("code_seg", 0x1000, vec![0; 0x100], true);
    let data = section(".data", 0x8000, vec![0; 0x10], false);
    let mut words = Vec::new();
    for p in [0x8004u32, 0x1010, 0x1020, 0x8008, 0x1030, 0x1040, 0x1050, 0x9999, 0x1060] {
        words.extend_from_slice(&p.to_le_bytes());
    }
    words.extend_from_slice(&[0xAA, 0xBB]);
    let rdata = section(".rdata", 0x6000, words, false);
    let loaded = image("x86", vec![code, data, rdata]);
    let mut types = tables(vec![vtable(0x42, vec![1])]);
    detect_vtables(&mut types, &loaded);
    let found: Vec<(u64, Vec<u64>)> = types.vtables.iter().map(|v| (v.addr, v.entries.clone())).collect();
    assert_eq!(
        found,
        vec![(0x42, vec![1]), (0x6000, vec![0x8004, 0x1010, 0x1020]), (0x6010, vec![0x1030, 0x1040, 0x1050])]
    );
}

#[test]
fn vtable_detection_skips_writable_and_single_pointer_runs() {
    let code = section(".text", 0x1000, vec![0; 0x100], true);
    let mut writable = section(".wdata", 0x5000, [0x1010u64, 0x1020].iter().flat_map(|p| p.to_le_bytes()).collect(), false);
    writable.writable = true;
    let single = section(".rodata", 0x7000, 0x1010u64.to_le_bytes().to_vec(), false);
    let loaded = image("aarch64", vec![code, writable, single]);
    let mut types = tables(vec![]);
    detect_vtables(&mut types, &loaded);
    assert!(types.vtables.is_empty());
}

#[test]
fn test_assign_vtables() {
    let mut types = tables(vec![vtable(0x4008, vec![0x1100, 0x1110])]);
    let functions = vec![function(
        0x2000,
        vec![FlowInstr::Store { addr: StoreAddr::Register, value: Some(0x4008) }],
    )];
    assign_vtables(&mut types, &functions);
    assert_eq!(types.methods.len(), 1);
    let method = &types.methods[0];
    assert_eq!(method.fn_addr, 0x2000);
    assert_eq!(method.class_vtable, 0x4008);
    assert!(method.is_ctor);
    assert_eq!(types.vtables[0].class_name, Some("class_2000".to_string()));
}

#[test]
fn assign_vtables_drops_uninstantiated_tables_and_keeps_the_last_name() {
    let mut named = vtable(0x5000, vec![1, 2]);
    named.class_name = Some("Known".to_string());
    let mut types = tables(vec![vtable(0x4000, vec![1, 2]), named, vtable(0x6000, vec![3, 4])]);
    let functions = vec![
        function(
            0x2000,
            vec![
                FlowInstr::Store { addr: StoreAddr::RegisterPlus, value: Some(0x6000) },
                FlowInstr::Store { addr: StoreAddr::Other, value: Some(0x4000) },
                FlowInstr::Store { addr: StoreAddr::Register, value: None },
            ],
        ),
        function(0x3abc, vec![FlowInstr::Store { addr: StoreAddr::Register, value: Some(0x6000) }]),
    ];
    assign_vtables(&mut types, &functions);
    let names: Vec<(u64, Option<String>)> = types.vtables.iter().map(|v| (v.addr, v.class_name.clone())).collect();
    assert_eq!(
        names,
        vec![(0x5000, Some("Known".to_string())), (0x6000, Some("class_3abc".to_string()))]
    );
    let ctors: Vec<(u64, u64)> = types.methods.iter().map(|m| (m.fn_addr, m.class_vtable)).collect();
    assert_eq!(ctors, vec![(0x2000, 0x6000), (0x3abc, 0x6000)]);
}

#[test]
fn test_detect_inheritance() {
    let mut types = tables(vec![vtable(0x1000, vec![0x100, 0x110]), vtable(0x2000, vec![0x100, 0x110, 0x120])]);
    detect_inheritance(&mut types);
    assert_eq!(types.inheritance.len(), 1);
    let inh = &types.inheritance[0];
    assert_eq!(inh.derived_vtable, 0x2000);
    assert_eq!(inh.base_vtables, vec![0x1000]);
    assert_eq!(types.vtables[1].base_vtable, Some(0x1000));
}

#[test]
fn inheritance_takes_the_longest_prefix_and_the_last_equal_table() {
    let mut types = tables(vec![
        vtable(0x1000, vec![1]),
        vtable(0x1100, vec![1, 2]),
        vtable(0x1200, vec![1, 2]),
        vtable(0x2000, vec![1, 2, 3, 4]),
        vtable(0x3000, vec![9, 9]),
    ]);
    types.inheritance.push(SdbInheritance { derived_vtable: 7, base_vtables: vec![8] });
    detect_inheritance(&mut types);
    let edges: Vec<(u64, Vec<u64>)> =
        types.inheritance.iter().map(|e| (e.derived_vtable, e.base_vtables.clone())).collect();
    assert_eq!(
        edges,
        vec![(7, vec![8]), (0x1100, vec![0x1000]), (0x1200, vec![0x1000]), (0x2000, vec![0x1200])]
    );
    let bases: Vec<Option<u64>> = types.vtables.iter().map(|v| v.base_vtable).collect();
    assert_eq!(bases, vec![None, Some(0x1000), Some(0x1000), Some(0x1200), None]);
}

#[test]
fn test_recover_methods() {
    let mut types = tables(vec![vtable(0x4000, vec![0x1000, 0x1100])]);
    let imports = vec![SdbImport { lib_name: "libc.so".to_string(), symbol_name: "free".to_string(), address: 0x9000 }];
    let functions = vec![function(0x1100, vec![FlowInstr::Call { target: Some(0x9000) }])];
    recover_methods(&mut types, &functions, &imports);
    assert_eq!(types.methods.len(), 2);
    let m1 = &types.methods[0];
    assert_eq!(m1.fn_addr, 0x1000);
    assert_eq!(m1.slot, Some(0));
    assert!(!m1.is_dtor);
    assert!(m1.is_virtual);
    let m2 = &types.methods[1];
    assert_eq!(m2.fn_addr, 0x1100);
    assert_eq!(m2.slot, Some(1));
    assert!(m2.is_dtor);
    assert!(m2.is_virtual);
}

#[test]
fn destructors_need_a_releasing_import() {
    let mut types = tables(vec![vtable(0x4000, vec![0x1000, 0x1100, 0x1200])]);
    let imports = vec![
        SdbImport { lib_name: "k".to_string(), symbol_name: "malloc".to_string(), address: 0x9000 },
        SdbImport { lib_name: "c".to_string(), symbol_name: "operator_delete".to_string(), address: 0x9100 },
    ];
    let functions = vec![
        function(0x1000, vec![FlowInstr::Call { target: Some(0x9000) }]),
        function(0x1100, vec![FlowInstr::Other, FlowInstr::Call { target: Some(0x9100) }]),
        function(0x1100, vec![FlowInstr::Call { target: None }]),
        function(0x1200, vec![FlowInstr::Other, FlowInstr::Call { target: Some(0x9100) }]),
    ];
    recover_methods(&mut types, &functions, &imports);
    let dtors: Vec<bool> = types.methods.iter().map(|m| m.is_dtor).collect();
    assert_eq!(dtors, vec![false, false, true]);
}

#[test]
fn test_recover_rtti() {
    let mut types = tables(vec![vtable(0x2008, vec![0x1000])]);
    let mut rdata_bytes = vec![0u8; 0x100];
    rdata_bytes[0..8].copy_from_slice(&0x2020u64.to_le_bytes());
    rdata_bytes[0x20..0x24].copy_from_slice(&1u32.to_le_bytes());
    rdata_bytes[0x2C..0x30].copy_from_slice(&0x2040u32.to_le_bytes());
    let name = b".?AVTestClass@@\0";
    rdata_bytes[0x50..0x50 + name.len()].copy_from_slice(name);
    let loaded = image("x86_64", vec![section(".rdata", 0x2000, rdata_bytes, false)]);
    recover_rtti(&mut types, &loaded);
    assert_eq!(types.vtables[0].class_name, Some("TestClass".to_string()));
}

#[test]
fn rtti_on_x86_reads_absolute_descriptors_and_struct_names() {
    let mut data = vec![0u8; 0x100];
    // The vtable's first entry points into data: the locator pointer is the vtable's own slot.
    data[0x10..0x14].copy_from_slice(&0x3040u32.to_le_bytes());
    data[0x40..0x44].copy_from_slice(&0u32.to_le_bytes());
    data[0x4C..0x50].copy_from_slice(&0x3080u32.to_le_bytes());
    let name = b".?AU.?AUPoint@@@@\0";
    data[0x88..0x88 + name.len()].copy_from_slice(name);
    let loaded = image("x86", vec![section(".rdata", 0x3000, data, false)]);
    let mut types = tables(vec![vtable(0x3010, vec![0x3000]), vtable(0x3020, vec![])]);
    recover_rtti(&mut types, &loaded);
    assert_eq!(types.vtables[0].class_name, Some("Point".to_string()));
    assert_eq!(types.vtables[1].class_name, None);
}

fn named(addr: u64, name: Option<&str>) -> SdbVtable {
    SdbVtable { addr, entries: vec![addr + 1], class_name: name.map(|n| n.to_string()), base_vtable: None }
}

fn method(class_vtable: u64, fn_addr: u64) -> SdbMethod {
    SdbMethod { fn_addr, class_vtable, is_virtual: true, slot: None, is_ctor: false, is_dtor: false }
}

#[test]
fn reconstruct_classes_groups_vtables_by_name() {
    let mut types = TypeTables {
        vtables: vec![
            named(0x1000, Some("Foo")),
            named(0x2000, None),
            named(0x3000, Some("Foo")),
            named(0x4000, None),
            named(0x5000, Some("Bar")),
        ],
        methods: vec![method(0x1000, 0x10), method(0x3000, 0x30), method(0x1000, 0x11), method(0x2000, 0x20)],
        inheritance: vec![
            SdbInheritance { derived_vtable: 0x3000, base_vtables: vec![0x5000, 0x9999] },
            SdbInheritance { derived_vtable: 0x1000, base_vtables: vec![0x5000] },
            SdbInheritance { derived_vtable: 0x5000, base_vtables: vec![0x2000] },
        ],
        classes: vec![SdbClass { name: "Stale".to_string(), vtables: vec![], methods: vec![], bases: vec![] }],
    };
    reconstruct_classes(&mut types);
    let summary: Vec<(String, Vec<u64>, Vec<u64>, Vec<String>)> = types
        .classes
        .iter()
        .map(|c| (c.name.clone(), c.vtables.clone(), c.methods.iter().map(|m| m.fn_addr).collect(), c.bases.clone()))
        .collect();
    assert_eq!(
        summary,
        vec![
            ("Foo".to_string(), vec![0x1000, 0x3000], vec![0x10, 0x11, 0x30], vec!["Bar".to_string()]),
            ("Class_0001".to_string(), vec![0x2000], vec![0x20], vec![]),
            ("Class_0002".to_string(), vec![0x4000], vec![], vec![]),
            ("Bar".to_string(), vec![0x5000], vec![], vec![]),
        ]
    );
}

#[test]
fn run_discovery_chains_the_heuristics() {
    let code = section(".text", 0x1000, vec![0; 0x1000], true);
    let mut words = Vec::new();
    for p in [0u64, 0x1100, 0x1110, 0, 0x1100, 0x1110, 0x1120, 0] {
        words.extend_from_slice(&p.to_le_bytes());
    }
    let rodata = section(".rodata", 0x4000, words, false);
    let loaded = image("x86_64", vec![code, rodata]);
    let functions = vec![
        function(0x1100, vec![FlowInstr::Store { addr: StoreAddr::Register, value: Some(0x4008) }]),
        function(0x1200, vec![FlowInstr::Store { addr: StoreAddr::RegisterPlus, value: Some(0x4020) }]),
        function(0x1110, vec![FlowInstr::Call { target: Some(0x9000) }]),
    ];
    let imports = vec![SdbImport { lib_name: "c".to_string(), symbol_name: "free".to_string(), address: 0x9000 }];
    let mut types = tables(vec![vtable(0x7777, vec![1, 2])]);
    types.classes.push(SdbClass { name: "Stale".to_string(), vtables: vec![], methods: vec![], bases: vec![] });
    run_discovery(&mut types, &functions, &loaded, &imports);
    let vts: Vec<(u64, Vec<u64>, Option<String>, Option<u64>)> =
        types.vtables.iter().map(|v| (v.addr, v.entries.clone(), v.class_name.clone(), v.base_vtable)).collect();
    assert_eq!(
        vts,
        vec![
            (0x4008, vec![0x1100, 0x1110], Some("class_1100".to_string()), None),
            (0x4020, vec![0x1100, 0x1110, 0x1120], Some("class_1200".to_string()), Some(0x4008)),
        ]
    );
    let methods: Vec<(u64, u64, Option<usize>, bool, bool)> =
        types.methods.iter().map(|m| (m.fn_addr, m.class_vtable, m.slot, m.is_ctor, m.is_dtor)).collect();
    assert_eq!(
        methods,
        vec![
            (0x1100, 0x4008, None, true, false),
            (0x1200, 0x4020, None, true, false),
            (0x1100, 0x4008, Some(0), false, false),
            (0x1110, 0x4008, Some(1), false, true),
            (0x1100, 0x4020, Some(0), false, false),
            (0x1110, 0x4020, Some(1), false, true),
            (0x1120, 0x4020, Some(2), false, false),
        ]
    );
    assert_eq!(types.inheritance.len(), 1);
    assert_eq!(types.inheritance[0].derived_vtable, 0x4020);
    assert_eq!(types.inheritance[0].base_vtables, vec![0x4008]);
    assert!(types.classes.is_empty());
}
