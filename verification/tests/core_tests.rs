use canary::api_tracking::{classify_handle_api, HandleApiKind};
use canary::cache::{AnalysisCache, FunctionCacheEntry};
use canary::config::{RecoveryMode, WorkspaceConfig};
use canary::program_db::ProgramDatabase;
use canary::worklist::Worklist;

#[test]
fn program_database_enqueues_each_address_once() {
    let mut db = ProgramDatabase::new();
    assert!(db.enqueue(0x1000));
    assert!(db.enqueue(0x2000));
    assert!(!db.enqueue(0x1000));
    let s = db.stats();
    assert_eq!(s.discovered, 2);
    assert_eq!(s.pending, 2);
    assert_eq!(db.next(), Some(0x1000));
    assert_eq!(db.next(), Some(0x2000));
    assert_eq!(db.next(), None);
    assert!(!db.enqueue(0x2000));
}

#[test]
fn program_database_tracks_outcomes_and_imports() {
    let mut db = ProgramDatabase::new();
    db.enqueue(0x10);
    db.enqueue(0x20);
    db.mark_analyzed(0x10);
    db.mark_failed(0x20);
    db.mark_analyzed(0x10);
    db.import_map.insert(0x7000, "CloseHandle".to_string());
    let s = db.stats();
    assert_eq!(s.analyzed, 1);
    assert_eq!(s.failed, 1);
    assert_eq!(s.imports, 1);
    assert_eq!(s.exports, 0);
    assert!(db.is_import(0x7000));
    assert!(!db.is_import(0x10));
    assert_eq!(db.import_name(0x7000), Some("CloseHandle"));
    assert_eq!(db.import_name(0x10), None);
}

#[test]
fn worklist_is_fifo_without_duplicates() {
    let mut w = Worklist::new();
    assert!(w.is_empty());
    w.push(3);
    w.push(1);
    w.push(3);
    w.push(2);
    assert_eq!(w.pop(), Some(3));
    w.push(3);
    assert_eq!(w.pop(), Some(1));
    assert_eq!(w.pop(), Some(2));
    assert_eq!(w.pop(), Some(3));
    assert_eq!(w.pop(), None);
    assert!(w.is_empty());
}

#[test]
fn cache_returns_entry_only_for_matching_hash() {
    let mut cache = AnalysisCache::new();
    cache.functions.insert(0x401000, FunctionCacheEntry { byte_hash: 42, ir_blob: vec![1, 2, 3] });
    let hit = cache.get_valid_function(0x401000, 42).expect("hash matches");
    assert_eq!(hit.ir_blob, vec![1, 2, 3]);
    assert!(cache.get_valid_function(0x401000, 43).is_none());
    assert!(cache.get_valid_function(0x402000, 42).is_none());
    assert!(cache.modules.is_empty());
}

#[test]
fn classify_handle_api_examples() {
    assert_eq!(classify_handle_api("CreateFileW"), HandleApiKind::Acquire);
    assert_eq!(classify_handle_api("__openprocess"), HandleApiKind::Acquire);
    assert_eq!(classify_handle_api("SOCKET"), HandleApiKind::Acquire);
    assert_eq!(classify_handle_api("_accept"), HandleApiKind::Acquire);
    assert_eq!(classify_handle_api("CloseHandle"), HandleApiKind::Release);
    assert_eq!(classify_handle_api("closesocket"), HandleApiKind::Release);
    assert_eq!(classify_handle_api("CreateWindowExA"), HandleApiKind::Other);
    assert_eq!(classify_handle_api(""), HandleApiKind::Other);
    assert_eq!(classify_handle_api("x_CloseHandle"), HandleApiKind::Other);
}

#[test]
fn workspace_config_defaults() {
    let c = WorkspaceConfig::default();
    assert_eq!(c.recovery_mode, RecoveryMode::Readable);
    assert!(!c.emit_ui_bindings);
    assert!(!c.cluster_subsystems);
    assert_eq!(RecoveryMode::default(), RecoveryMode::Readable);
}

#[test]
fn workspace_registers_each_entry_once() {
    let mut ws = canary::workspace::Workspace::new();
    let a = ws.add_function(0x1000);
    let b = ws.add_function(0x2000);
    let again = ws.add_function(0x1000);
    assert_eq!(a, canary::workspace::FunctionId(0));
    assert_eq!(b, canary::workspace::FunctionId(1));
    assert_eq!(again, a);
    assert_eq!(ws.function_count(), 2);
    assert_eq!(ws.function_at(0x2000), Some(b));
    assert_eq!(ws.function_at(0x3000), None);
    assert_eq!(ws.functions[1].entry_addr, 0x2000);
}
