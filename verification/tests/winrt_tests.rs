use canary::recovered_types::{SdbClass, SdbMethod, SdbVtable, TypeTables};
use canary::winrt_align::{WinRtAligner, WinRtClass, WinRtMetadata};
use indexmap::IndexMap;

const IINSPECTABLE: [u8; 16] = [
    0xAF, 0x86, 0xE2, 0xAF, 0x24, 0x2C, 0x48, 0x1A, 0x89, 0x3A, 0x26, 0x62, 0xBC, 0xB7, 0x52, 0xEE,
];

fn class(namespace: &str, name: &str, methods: &[&str]) -> WinRtClass {
    WinRtClass {
        namespace: namespace.to_string(),
        name: name.to_string(),
        methods: methods.iter().map(|m| m.to_string()).collect(),
    }
}

fn utf16le(s: &str) -> Vec<u8> {
    let mut out = Vec::new();
    for u in s.encode_utf16() {
        out.extend_from_slice(&u.to_le_bytes());
    }
    out
}

fn aligner() -> WinRtAligner {
    WinRtAligner::new(WinRtMetadata {
        classes: vec![class(
            "CalculatorApp.ViewModel",
            "StandardCalculatorViewModel",
            &[".ctor", "Dispose", "Compute"],
        )],
    })
}

#[test]
fn new_seeds_iunknown_and_iinspectable() {
    let a = aligner();
    let names: Vec<&str> = a.interface_map.values().map(|i| i.name.as_str()).collect();
    assert_eq!(names, vec!["IUnknown", "IInspectable"]);
    let inspectable = a.interface_map.get(&IINSPECTABLE).unwrap();
    assert_eq!(inspectable.parent_iid.unwrap()[15], 0x46);
}

#[test]
fn register_interface_replaces_in_place() {
    let mut a = aligner();
    a.register_interface([7u8; 16], "IFoo".to_string(), None);
    a.register_interface(IINSPECTABLE, "IInspectable2".to_string(), None);
    let names: Vec<&str> = a.interface_map.values().map(|i| i.name.as_str()).collect();
    assert_eq!(names, vec!["IUnknown", "IInspectable2", "IFoo"]);
}

#[test]
fn scan_hstrings_finds_utf16_class_names() {
    let a = aligner();
    let mut rdata = vec![0u8; 1000];
    let name = "CalculatorApp.ViewModel.StandardCalculatorViewModel";
    let pattern = utf16le(name);
    rdata[200..200 + pattern.len()].copy_from_slice(&pattern);
    let found = a.scan_hstrings(&rdata);
    assert_eq!(found.get(name).copied(), Some(200));
    assert_eq!(found.len(), 1);
    assert!(a.scan_hstrings(&[0u8; 10]).is_empty());
}

#[test]
fn align_maps_slots_to_metadata_methods() {
    let a = aligner();
    let mut types = TypeTables {
        methods: vec![],
        inheritance: vec![],
        vtables: vec![SdbVtable {
            addr: 0x180100000,
            entries: vec![0x1000, 0x2000, 0, 0x4000, 0x5000, 0x6000, 0x7000, 0x8000, 0x9000],
            class_name: Some("StandardCalculatorViewModel".to_string()),
            base_vtable: None,
        }],
        classes: vec![],
    };
    a.align(&mut types, &[]);
    assert_eq!(types.classes.len(), 1);
    let c = &types.classes[0];
    assert_eq!(c.name, "CalculatorApp.ViewModel.StandardCalculatorViewModel");
    assert_eq!(c.bases, vec!["IInspectable".to_string()]);
    assert_eq!(c.vtables, vec![0x180100000]);
    assert_eq!(c.methods.len(), 8);
    assert_eq!(c.methods[2].slot, Some(3));
    let slot6 = c.methods[5];
    assert_eq!(slot6.fn_addr, 0x7000);
    assert!(slot6.is_ctor && !slot6.is_dtor);
    assert!(c.methods[6].is_dtor && !c.methods[6].is_ctor);
    assert!(!c.methods[7].is_ctor && !c.methods[7].is_dtor);
}

#[test]
fn align_falls_back_to_unnamed_vtable_and_replaces_existing() {
    let a = aligner();
    let mut types = TypeTables {
        methods: vec![],
        inheritance: vec![],
        vtables: vec![
            SdbVtable { addr: 0x10, entries: vec![1, 2, 3], class_name: None, base_vtable: None },
            SdbVtable { addr: 0x20, entries: vec![1, 2, 3, 4, 5, 6, 7], class_name: None, base_vtable: None },
        ],
        classes: vec![SdbClass {
            name: "CalculatorApp.ViewModel.StandardCalculatorViewModel".to_string(),
            vtables: vec![],
            methods: vec![],
            bases: vec!["Old".to_string()],
        }],
    };
    a.align(&mut types, &[]);
    assert_eq!(types.classes.len(), 1);
    let c = &types.classes[0];
    assert_eq!(c.vtables, vec![0x20]);
    assert_eq!(c.methods.len(), 7);
    assert!(c.methods.iter().all(|m| !m.is_ctor && !m.is_dtor && m.is_virtual));
    assert_eq!(c.bases, vec!["IInspectable".to_string()]);
}

#[test]
fn align_without_vtables_records_empty_class() {
    let a = aligner();
    let mut types = TypeTables { vtables: vec![], methods: vec![], inheritance: vec![], classes: vec![] };
    a.align(&mut types, &[]);
    assert_eq!(types.classes.len(), 1);
    assert!(types.classes[0].vtables.is_empty());
    assert!(types.classes[0].methods.is_empty());
}

#[test]
fn resolve_query_interface_adds_found_bases() {
    let a = aligner();
    let mut types = TypeTables {
        methods: vec![],
        inheritance: vec![],
        vtables: vec![],
        classes: vec![
            SdbClass { name: "A".to_string(), vtables: vec![], methods: vec![], bases: vec![] },
            SdbClass {
                name: "B".to_string(),
                vtables: vec![],
                methods: vec![],
                bases: vec!["IInspectable".to_string()],
            },
        ],
    };
    let mut rdata = vec![0u8; 64];
    rdata[20..36].copy_from_slice(&IINSPECTABLE);
    let r = a.resolve_query_interface(&mut types, 0, &rdata);
    assert_eq!(r, vec![("IInspectable".to_string(), IINSPECTABLE)]);
    assert_eq!(types.classes[0].bases, vec!["IInspectable".to_string()]);
    assert_eq!(types.classes[1].bases, vec!["IInspectable".to_string()]);
    assert!(a.resolve_query_interface(&mut types, 0, &[0u8; 8]).is_empty());
}

#[test]
fn trace_activation_factory_links_constructors() {
    let a = aligner();
    let mut types = TypeTables {
        methods: vec![],
        inheritance: vec![],
        vtables: vec![],
        classes: vec![SdbClass { name: "N.C".to_string(), vtables: vec![0x500], methods: vec![], bases: vec![] }],
    };
    let mut found = IndexMap::new();
    found.insert("N.C".to_string(), 0x20u64);
    found.insert("N.D".to_string(), 0x40u64);
    let r = a.trace_activation_factory(&mut types, 0, &found);
    assert_eq!(r, vec![("N.C".to_string(), 0x180005020), ("N.D".to_string(), 0x180005040)]);
    assert_eq!(
        types.classes[0].methods,
        vec![SdbMethod {
            fn_addr: 0x180005020,
            class_vtable: 0x500,
            is_virtual: false,
            slot: None,
            is_ctor: true,
            is_dtor: false,
        }]
    );
}

#[test]
fn trace_rdata_activations_scans_then_links() {
    let a = aligner();
    let name = "CalculatorApp.ViewModel.StandardCalculatorViewModel";
    let mut rdata = vec![0u8; 600];
    let pattern = utf16le(name);
    rdata[100..100 + pattern.len()].copy_from_slice(&pattern);
    let mut types = TypeTables {
        methods: vec![],
        inheritance: vec![],
        vtables: vec![],
        classes: vec![SdbClass { name: name.to_string(), vtables: vec![], methods: vec![], bases: vec![] }],
    };
    let r = a.trace_rdata_activations(&mut types, 0, &rdata);
    assert_eq!(r, Some(vec![(name.to_string(), 0x180005064)]));
    assert_eq!(types.classes[0].methods.len(), 1);
    assert_eq!(types.classes[0].methods[0].fn_addr, 0x180005064);
    assert!(types.classes[0].methods[0].is_ctor);

    let mut untouched = TypeTables { methods: vec![], inheritance: vec![], vtables: vec![], classes: vec![] };
    assert_eq!(a.trace_rdata_activations(&mut untouched, 0, &[0u8; 8]), Some(vec![]));
}
