use canary::recovered_types::{SdbCallSignature, SdbFunction, SdbParam};
use canary::refinement::{FeedbackEntry, RefinementAction, RefinementTables};
use canary::validator::{arity_feedback, SsaCallSite};
use canary::workspace::Workspace;
use indexmap::IndexMap;

fn record(name: &str, call_signature: Option<SdbCallSignature>) -> SdbFunction {
    SdbFunction { name: Some(name.to_string()), xrefs_out: vec![], call_signature }
}

fn param(name: &str, ty: &str) -> SdbParam {
    SdbParam { name: Some(name.to_string()), ty: ty.to_string(), location: "rdi".to_string() }
}

fn tables() -> RefinementTables {
    let mut symbols = IndexMap::new();
    symbols.insert(0x1000u64, "dup".to_string());
    symbols.insert(0x2000u64, "dup".to_string());
    let mut functions = IndexMap::new();
    functions.insert(
        0x1000u64,
        record(
            "dup",
            Some(SdbCallSignature {
                return_ty: "int".to_string(),
                params: vec![param("a", "long"), param("b", "long"), param("c", "long")],
                calling_conv: "win64".to_string(),
                is_variadic: false,
                noreturn: false,
            }),
        ),
    );
    functions.insert(0x2000u64, record("dup", None));
    let mut workspace = Workspace::new();
    workspace.add_function(0x1000);
    workspace.add_function(0x2000);
    workspace.functions[0].is_lifted = true;
    workspace.functions[1].is_lifted = true;
    RefinementTables { symbols, functions, workspace, feedback_queue: vec![] }
}

fn entry(action: RefinementAction) -> FeedbackEntry {
    FeedbackEntry { description: "finding".to_string(), action }
}

#[test]
fn renames_resolve_naming_collisions() {
    let mut t = tables();
    let progress = t.apply_feedback(vec![entry(RefinementAction::RenameSymbol {
        address: 0x2000,
        old_name: "dup".to_string(),
        new_name: "dup_collision_2000".to_string(),
    })]);
    assert!(progress);
    assert_eq!(t.symbols[&0x2000], "dup_collision_2000");
    assert_eq!(t.functions[&0x2000].name.as_deref(), Some("dup_collision_2000"));
    assert_eq!(t.symbols[&0x1000], "dup");
    assert_eq!(t.feedback_queue.len(), 1);
}

#[test]
fn signature_updates_resize_retype_and_invalidate() {
    let mut t = tables();
    let progress = t.apply_feedback(vec![
        entry(RefinementAction::UpdateSignature {
            address: 0x1000,
            param_count: 2,
            param_types: vec!["char*".to_string(), "unknown".to_string()],
        }),
        entry(RefinementAction::UpdateSignature { address: 0x2000, param_count: 2, param_types: vec![] }),
    ]);
    assert!(progress);
    let sig = t.functions[&0x1000].call_signature.as_ref().unwrap();
    assert_eq!(sig.return_ty, "int");
    let params: Vec<(Option<String>, String)> = sig.params.iter().map(|p| (p.name.clone(), p.ty.clone())).collect();
    assert_eq!(params, vec![(Some("a".to_string()), "char*".to_string()), (Some("b".to_string()), "long".to_string())]);
    let fresh = t.functions[&0x2000].call_signature.as_ref().unwrap();
    assert_eq!(fresh.return_ty, "void");
    assert_eq!(fresh.calling_conv, "SysV64");
    let fresh_params: Vec<(Option<String>, String, String)> =
        fresh.params.iter().map(|p| (p.name.clone(), p.ty.clone(), p.location.clone())).collect();
    assert_eq!(
        fresh_params,
        vec![
            (Some("arg_0".to_string()), "unknown".to_string(), "unknown".to_string()),
            (Some("arg_1".to_string()), "unknown".to_string(), "unknown".to_string()),
        ]
    );
    assert!(!t.workspace.functions[0].is_lifted);
    assert!(!t.workspace.functions[1].is_lifted);
    assert_eq!(t.feedback_queue.len(), 2);
}

#[test]
fn feedback_without_a_target_makes_no_progress() {
    let mut t = tables();
    let progress = t.apply_feedback(vec![
        entry(RefinementAction::RenameSymbol { address: 0, old_name: String::new(), new_name: String::new() }),
        entry(RefinementAction::UpdateSignature { address: 0x9000, param_count: 1, param_types: vec![] }),
    ]);
    assert!(!progress);
    assert_eq!(t.symbols[&0x1000], "dup");
    assert!(t.workspace.functions[0].is_lifted);
    assert_eq!(t.feedback_queue.len(), 2);
    assert!(t.apply_feedback(vec![entry(RefinementAction::UpdateVariableType)]));
}

#[test]
fn arity_mismatches_propose_resized_signatures() {
    let t = tables();
    let mut functions = t.functions;
    functions.insert(
        0x3000u64,
        record(
            "printf",
            Some(SdbCallSignature {
                return_ty: "int".to_string(),
                params: vec![param("fmt", "char*")],
                calling_conv: "cdecl".to_string(),
                is_variadic: true,
                noreturn: false,
            }),
        ),
    );
    let calls = vec![
        Some(vec![
            SsaCallSite { target: Some(0x1000), arg_count: 2 },
            SsaCallSite { target: Some(0x1000), arg_count: 3 },
            SsaCallSite { target: Some(0x2000), arg_count: 5 },
            SsaCallSite { target: Some(0x3000), arg_count: 4 },
            SsaCallSite { target: None, arg_count: 1 },
        ]),
        None,
        Some(vec![SsaCallSite { target: Some(0x1000), arg_count: 0 }]),
    ];
    let findings = arity_feedback(&functions, &calls);
    assert_eq!(findings.len(), 2);
    assert_eq!(findings[0].description, "Arity mismatch: function at 0x1000 called with 2 args but signature expects 3");
    match &findings[0].action {
        RefinementAction::UpdateSignature { address, param_count, param_types } => {
            assert_eq!(*address, 0x1000);
            assert_eq!(*param_count, 2);
            assert_eq!(param_types, &vec!["unknown".to_string(), "unknown".to_string()]);
        },
        other => panic!("unexpected action {:?}", other),
    }
    assert_eq!(findings[1].description, "Arity mismatch: function at 0x1000 called with 0 args but signature expects 3");
}
