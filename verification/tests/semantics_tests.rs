use canary::naming::{naming_candidates, NameEvidence};
use canary::recovered_types::{SdbXref, XrefKind};
use canary::identity::{classify_function_name, FunctionKind};
use canary::lifetime::{classify_lifetime_api, EventType};
use canary::linear_sweep::{scan_for_prologues, SectionData};
use canary::semantic_lower::{classify_call, lower_to_semantic, lower_to_semantic_with_sdb, SsaOp, StateTransition};

#[test]
fn lifetime_api_classification() {
    assert_eq!(classify_lifetime_api("malloc"), Some(EventType::Allocation));
    assert_eq!(classify_lifetime_api("__Calloc"), Some(EventType::Allocation));
    assert_eq!(classify_lifetime_api("operator new[]"), Some(EventType::Allocation));
    assert_eq!(classify_lifetime_api("FREE"), Some(EventType::Deallocation));
    assert_eq!(classify_lifetime_api("operator delete"), Some(EventType::Deallocation));
    assert_eq!(
        classify_lifetime_api("InitializeCriticalSection"),
        Some(EventType::Initialization)
    );
    assert_eq!(classify_lifetime_api("InitOnceInitialize"), Some(EventType::Initialization));
    assert_eq!(classify_lifetime_api("memcpy"), None);
    assert_eq!(classify_lifetime_api("_"), None);
}

#[test]
fn call_classification() {
    assert_eq!(classify_call(0x2000, "CloseHandle"), Some(StateTransition::ReleaseResource(0x2000)));
    assert_eq!(classify_call(0x10, "_malloc"), Some(StateTransition::AcquireResource(0x10)));
    assert_eq!(classify_call(0x11, "DeleteFileW"), Some(StateTransition::ReleaseResource(0x11)));
    assert_eq!(
        classify_call(0x1001, "_Sleep"),
        Some(StateTransition::UpdateState(0x1001, "Call:_Sleep".to_string()))
    );
    assert_eq!(
        classify_call(0x1002, "operator new[]"),
        Some(StateTransition::UpdateState(0x1002, "Call:operator new[]".to_string()))
    );
}

#[test]
fn function_name_classification() {
    assert_eq!(classify_function_name("__atomic_fetch_add"), FunctionKind::Intrinsic);
    assert_eq!(classify_function_name("call___chkstk_ms"), FunctionKind::Intrinsic);
    assert_eq!(classify_function_name("llvm.memcpy.p0"), FunctionKind::Intrinsic);
    assert_eq!(classify_function_name("default_mspace_malloc"), FunctionKind::Intrinsic);
    assert_eq!(classify_function_name("sub_401000"), FunctionKind::ExternalStub);
    assert_eq!(classify_function_name("j_free"), FunctionKind::ExternalStub);
    assert_eq!(classify_function_name("GetProcAddress_thunk"), FunctionKind::ExternalStub);
    assert_eq!(classify_function_name("thunk_atomic"), FunctionKind::ExternalStub);
    assert_eq!(classify_function_name("main"), FunctionKind::UserCode);
    assert_eq!(classify_function_name(""), FunctionKind::UserCode);
}

fn section(name: &str, executable: bool, start: u64, data: Vec<u8>) -> SectionData {
    SectionData { name: name.to_string(), executable, start, data }
}

#[test]
fn prologue_scan_finds_each_pattern_once() {
    let text = section(
        ".text",
        true,
        0x1000,
        vec![
            0x55, 0x48, 0x89, 0xE5, // push rbp; mov rbp, rsp at 0x1000
            0x90, // nop
            0x48, 0x83, 0xEC, 0x20, // sub rsp, 0x20 at 0x1005
            0x41, 0x56, // push r14 at 0x1009
            0x40, 0x53, // push rbx at 0x100b
            0x48, 0x89, 0x5C, 0x24, 0x08, // mov [rsp+8], rbx at 0x100d
            0x41, 0x58, // push r8: no match
        ],
    );
    let data = section(".data", false, 0x5000, vec![0x55, 0x48, 0x89, 0xE5]);
    let rsrc = section(".rsrc", true, 0x6000, vec![0x40, 0x53]);
    let found = scan_for_prologues(&[text, data, rsrc]);
    let found: Vec<u64> = found.into_iter().collect();
    assert_eq!(found, vec![0x1000, 0x1005, 0x1009, 0x100b, 0x100d]);
}

#[test]
fn prologue_scan_skips_matched_bytes_and_truncated_patterns() {
    // "41 54 54": the first pair matches and both bytes are consumed.
    // A trailing "48 83 EC" without its immediate byte is not a prologue.
    let s = section(".text", true, 0x400000, vec![0x41, 0x54, 0x54, 0x48, 0x83, 0xEC]);
    let found: Vec<u64> = scan_for_prologues(&[s]).into_iter().collect();
    assert_eq!(found, vec![0x400000]);
}

#[test]
fn prologue_scan_deduplicates_overlapping_sections() {
    let a = section(".text", true, 0x1000, vec![0x40, 0x53]);
    let b = section(".text2", true, 0x1000, vec![0x40, 0x53, 0x40, 0x53]);
    let found: Vec<u64> = scan_for_prologues(&[a, b]).into_iter().collect();
    assert_eq!(found, vec![0x1000, 0x1002]);
    assert!(scan_for_prologues(&[section(".text", true, 0, vec![])]).is_empty());
}

fn call(from_addr: u64, to_addr: u64) -> canary::recovered_types::SdbXref {
    canary::recovered_types::SdbXref { from_addr, to_addr, xref_kind: canary::recovered_types::XrefKind::Call }
}

fn import(symbol_name: &str, address: u64) -> canary::recovered_types::SdbImport {
    canary::recovered_types::SdbImport { lib_name: "lib".to_string(), symbol_name: symbol_name.to_string(), address }
}

fn function(name: Option<&str>, xrefs_out: Vec<canary::recovered_types::SdbXref>) -> canary::recovered_types::SdbFunction {
    canary::recovered_types::SdbFunction { name: name.map(|n| n.to_string()), xrefs_out, call_signature: None }
}

#[test]
fn lifetimes_follow_calls_to_allocators() {
    let mut functions = indexmap::IndexMap::new();
    functions.insert(
        0x1000u64,
        function(
            Some("main"),
            vec![
                call(0x1010, 0x9000),
                canary::recovered_types::SdbXref {
                    from_addr: 0x1014,
                    to_addr: 0x9000,
                    xref_kind: canary::recovered_types::XrefKind::Read,
                },
                call(0x1018, 0x2000),
                call(0x101c, 0x3000),
            ],
        ),
    );
    functions.insert(0x2000u64, function(Some("free"), vec![]));
    functions.insert(0x4000u64, function(None, vec![call(0x4004, 0x9200)]));
    let imports = vec![import("_malloc", 0x9000), import("InitializeCriticalSection", 0x9200)];
    let lifetimes = canary::lifetime::analyze_lifetimes(&functions, &imports);
    let summary: Vec<(String, String, Vec<(u64, EventType)>)> = lifetimes
        .iter()
        .map(|(k, v)| (k.clone(), v.object_id.clone(), v.events.iter().map(|e| (e.address, e.event_type)).collect()))
        .collect();
    assert_eq!(
        summary,
        vec![
            (
                "obj_1000".to_string(),
                "obj_1000".to_string(),
                vec![(0x1010, EventType::Allocation), (0x1018, EventType::Deallocation)]
            ),
            ("obj_4000".to_string(), "obj_4000".to_string(), vec![(0x4004, EventType::Initialization)]),
        ]
    );
}

#[test]
fn imports_take_precedence_over_function_names() {
    let mut functions = indexmap::IndexMap::new();
    functions.insert(0x1000u64, function(None, vec![call(0x1004, 0x2000)]));
    functions.insert(0x2000u64, function(Some("malloc"), vec![]));
    let imports = vec![import("Sleep", 0x2000), import("free", 0x2000)];
    assert!(canary::lifetime::analyze_lifetimes(&functions, &imports).is_empty());
}

#[test]
fn handles_are_tracked_from_acquiring_calls() {
    let mut functions = indexmap::IndexMap::new();
    functions.insert(0x1000u64, function(None, vec![call(0x1010, 0x9000)]));
    functions.insert(0x2000u64, function(None, vec![call(0x1010, 0x9000), call(0x2010, 0x9100)]));
    functions.insert(0x3000u64, function(None, vec![call(0x3004, 0x3100)]));
    functions.insert(0x3100u64, function(Some("__socket"), vec![]));
    let imports = vec![import("CreateFileW", 0x9000), import("CloseHandle", 0x9100)];
    let handles = canary::api_tracking::analyze_api_semantics(&functions, &imports);
    let summary: Vec<(String, String, u64, Option<u64>, usize)> = handles
        .iter()
        .map(|(k, h)| (k.clone(), h.handle_id.clone(), h.acquired_at, h.released_at, h.usage_sites.len()))
        .collect();
    assert_eq!(
        summary,
        vec![
            ("handle_1010".to_string(), "handle_1010".to_string(), 0x1010, None, 0),
            ("handle_3004".to_string(), "handle_3004".to_string(), 0x3004, None, 0),
        ]
    );
}

fn ssa(blocks: Vec<(u32, Vec<canary::semantic_lower::SsaOp>)>) -> canary::semantic_lower::SsaFunctionOps {
    canary::semantic_lower::SsaFunctionOps {
        entry_addr: 0x1000,
        name: String::new(),
        blocks: blocks
            .into_iter()
            .map(|(id, instrs)| canary::semantic_lower::SsaBlockOps { id, instrs })
            .collect(),
    }
}

#[test]
fn unknown_constant_call_is_not_resource_transition() {
    let func = ssa(vec![(0, vec![SsaOp::Call { target: Some(0x1001) }])]);
    let semantic = lower_to_semantic(&func);
    let transition = &semantic.blocks[&0].instrs[0].transition;
    assert!(
        matches!(transition, StateTransition::UpdateState(0x1001, label) if label == "DirectCall")
    );
}

#[test]
fn resolved_closehandle_is_release_transition() {
    let transition = classify_call(0x2000, "CloseHandle").unwrap();
    assert!(matches!(transition, StateTransition::ReleaseResource(0x2000)));
}

#[test]
fn lowering_numbers_calls_and_stores_across_blocks() {
    let func = ssa(vec![
        (3, vec![SsaOp::Store { addr: Some(0x40) }, SsaOp::Other, SsaOp::Call { target: None }]),
        (1, vec![SsaOp::Call { target: Some(0x50) }, SsaOp::Store { addr: None }, SsaOp::Store { addr: Some(0x60) }]),
    ]);
    let semantic = lower_to_semantic(&func);
    let keys: Vec<usize> = semantic.blocks.keys().copied().collect();
    assert_eq!(keys, vec![1, 3]);
    let b3 = &semantic.blocks[&3].instrs;
    assert_eq!(b3.len(), 1);
    assert_eq!((b3[0].id, b3[0].address), (0, 0x40));
    assert_eq!(b3[0].transition, StateTransition::UpdateState(0x40, "MemoryWrite".to_string()));
    let b1 = &semantic.blocks[&1].instrs;
    assert_eq!(b1.len(), 2);
    assert_eq!((b1[0].id, b1[0].address), (1, 0x50));
    assert_eq!(b1[0].transition, StateTransition::UpdateState(0x50, "DirectCall".to_string()));
    assert_eq!((b1[1].id, b1[1].address), (2, 0x60));
}

#[test]
fn lowering_with_sdb_classifies_named_calls() {
    let imports = vec![import("CloseHandle", 0x2000)];
    let mut functions = indexmap::IndexMap::new();
    functions.insert(0x3000u64, function(Some("_malloc"), Vec::new()));
    functions.insert(0x4000u64, function(Some("helper"), Vec::new()));
    functions.insert(0x5000u64, function(None, Vec::new()));
    let func = ssa(vec![(
        0,
        vec![
            SsaOp::Call { target: Some(0x2000) },
            SsaOp::Call { target: Some(0x3000) },
            SsaOp::Call { target: Some(0x4000) },
            SsaOp::Call { target: Some(0x5000) },
            SsaOp::Call { target: Some(0x6000) },
        ],
    )]);
    let semantic = lower_to_semantic_with_sdb(&func, &imports, &functions);
    let t: Vec<StateTransition> = semantic.blocks[&0].instrs.iter().map(|i| i.transition.clone()).collect();
    assert_eq!(
        t,
        vec![
            StateTransition::ReleaseResource(0x2000),
            StateTransition::AcquireResource(0x3000),
            StateTransition::UpdateState(0x4000, "Call:helper".to_string()),
            StateTransition::UpdateState(0x5000, "DirectCall".to_string()),
            StateTransition::UpdateState(0x6000, "DirectCall".to_string()),
        ]
    );
}

#[test]
fn a_later_block_with_the_same_number_replaces_the_earlier() {
    let func = ssa(vec![
        (2, vec![SsaOp::Store { addr: Some(0x1) }]),
        (2, vec![SsaOp::Store { addr: Some(0x2) }]),
    ]);
    let semantic = lower_to_semantic(&func);
    assert_eq!(semantic.blocks.len(), 1);
    let b = &semantic.blocks[&2].instrs;
    assert_eq!((b[0].id, b[0].address), (1, 0x2));
}

#[test]
fn test_naming_enrichment() {
    let mut functions = indexmap::IndexMap::new();
    functions.insert(0x1000u64, function(Some("?puts@std@@YAHXZ"), Vec::new()));
    functions.insert(0x2000u64, function(Some("_Z3fooic"), Vec::new()));
    let candidates = naming_candidates(&functions);
    assert_eq!(candidates.len(), 2);
    assert_eq!(candidates[0].0, 0x1000);
    assert_eq!(candidates[0].1.len(), 1);
    assert_eq!(candidates[0].1[0].description, "std::puts");
    assert_eq!(candidates[1].0, 0x2000);
    assert_eq!(candidates[1].1[0].description, "foo(int, char)");
    assert_eq!(
        candidates[1].1[0].evidence,
        NameEvidence::DebugSymbol { name: "foo(int, char)".to_string(), source: "demangler".to_string() }
    );
}

#[test]
fn naming_candidates_from_calls_and_strings() {
    let xref = |to_addr: u64, xref_kind: XrefKind| SdbXref { from_addr: 0x10, to_addr, xref_kind };
    let mut functions = indexmap::IndexMap::new();
    functions.insert(
        0x10u64,
        function(
            Some("main_loop"),
            vec![
                xref(0x20, XrefKind::Call),
                xref(0x30, XrefKind::Call),
                xref(0x8000_1000, XrefKind::Read),
                xref(0x8000_2000, XrefKind::Read),
                xref(0x8000_2000, XrefKind::Call),
            ],
        ),
    );
    functions.insert(0x20u64, function(Some("MessageBoxW"), Vec::new()));
    functions.insert(0x30u64, function(Some("closesocket"), Vec::new()));
    functions.insert(0x40u64, function(None, Vec::new()));
    functions.insert(0x50u64, function(Some("_Znot a mangled name"), Vec::new()));
    let candidates = naming_candidates(&functions);
    let first: Vec<String> = candidates[0].1.iter().map(|c| c.description.clone()).collect();
    assert_eq!(
        first,
        vec!["main_loop", "ShowMessageDialog", "NetworkClient_Connect", "LogSocketFailure", "InitGraphics"]
    );
    assert_eq!(
        candidates[0].1[0].evidence,
        NameEvidence::DebugSymbol { name: "main_loop".to_string(), source: "original".to_string() }
    );
    assert_eq!(candidates[0].1[1].evidence, NameEvidence::ImportSignature("MessageBox heuristic".to_string()));
    assert_eq!(candidates[0].1[3].evidence, NameEvidence::StringContext(0x8000_1000));
    assert!(candidates[3].1.is_empty());
    assert!(candidates[4].1.is_empty());
}

#[test]
fn msvc_names_the_demangler_cannot_bound_are_left_alone() {
    let mut functions = indexmap::IndexMap::new();
    functions.insert(0x1000u64, function(Some("?$TSS1234567890123@?1??f@@YAXXZ@4HA"), Vec::new()));
    functions.insert(0x2000u64, function(Some("??_C@_0BA@ABCDEFGH@hello?$AAworld@"), Vec::new()));
    functions.insert(0x3000u64, function(Some("?puts@std@@YAHXZ"), Vec::new()));
    functions.insert(0x4000u64, function(Some("?a@@_0B@A@?$0A@"), Vec::new()));
    let candidates = naming_candidates(&functions);
    assert!(candidates[0].1.is_empty());
    assert!(candidates[1].1.is_empty());
    assert_eq!(candidates[2].1[0].description, "std::puts");
    assert!(candidates[3].1.is_empty());
}
