use canary::clustering::{cluster_modules, FunctionInfo};
use canary::discovery::{GlobalXrefKind, SdbGlobalXref};

fn f(address: u64, name: &str) -> FunctionInfo {
    FunctionInfo { address, name: Some(name.to_string()) }
}

fn call(from: u64, to: u64) -> SdbGlobalXref {
    SdbGlobalXref { from_address: from, to_address: to, kind: GlobalXrefKind::Call }
}

#[test]
fn test_address_locality_clustering() {
    // Three contiguous functions connected by calls, and one disconnected.
    let functions = vec![
        f(0x1000, "func1"),
        f(0x1050, "func2"),
        f(0x10A0, "func3"),
        f(0x5000, "render_frame"),
    ];
    let xrefs = vec![call(0x1000, 0x1050), call(0x1050, 0x10A0)];
    let modules = cluster_modules(&functions, &xrefs);
    assert_eq!(modules.len(), 2);

    assert_eq!(modules[0].id, 1);
    assert_eq!(modules[0].functions, vec![0x1000, 0x1050, 0x10A0]);
    assert_eq!(modules[0].name, "Module_0001");
    assert_eq!(modules[0].subsystem_tag, None);

    assert_eq!(modules[1].id, 2);
    assert_eq!(modules[1].functions, vec![0x5000]);
    assert_eq!(modules[1].name, "Renderer");
    assert_eq!(modules[1].subsystem_tag, Some("Renderer".to_string()));
}

#[test]
fn without_call_edges_every_function_is_a_module() {
    let functions = vec![f(0x30, "PlaySound"), FunctionInfo { address: 0x10, name: None }, f(0x20, "Collide_Boxes")];
    let xrefs = vec![SdbGlobalXref { from_address: 0x30, to_address: 0x10, kind: GlobalXrefKind::TailCall }];
    let modules = cluster_modules(&functions, &xrefs);
    let names: Vec<&str> = modules.iter().map(|m| m.name.as_str()).collect();
    assert_eq!(names, vec!["Audio", "Module_0002", "Physics"]);
    assert_eq!(modules[1].functions, vec![0x10]);
}

#[test]
fn first_suggestive_name_in_address_order_wins() {
    let functions = vec![f(0x200, "PlayAudio"), f(0x100, "DrawSprite")];
    let xrefs = vec![call(0x200, 0x100), call(0x100, 0x200)];
    let modules = cluster_modules(&functions, &xrefs);
    assert_eq!(modules.len(), 1);
    assert_eq!(modules[0].functions, vec![0x100, 0x200]);
    assert_eq!(modules[0].name, "Renderer");
}

#[test]
fn empty_input_gives_no_modules() {
    assert!(cluster_modules(&[], &[]).is_empty());
}
