use canary::program_db::ProgramDatabase;
use canary::whole_program::{record_lift_outcome, seed_discovery, take_batch};

fn pending(pdb: &ProgramDatabase) -> Vec<u64> {
    pdb.pending.iter().copied().collect()
}

#[test]
fn seeds_skip_zero_imports_and_repeats() {
    let mut pdb = ProgramDatabase::new();
    pdb.import_map.insert(0x9000, "ExitProcess".to_string());
    seed_discovery(&mut pdb, &[0x1000, 0, 0x9000, 0x2000, 0x1000]);
    assert_eq!(pending(&pdb), vec![0x1000, 0x2000]);
    assert_eq!(pdb.discovered.len(), 2);
}

#[test]
fn batch_takes_front_and_keeps_liftable_code_addresses() {
    let mut pdb = ProgramDatabase::new();
    pdb.import_map.insert(0x1800, "Sleep".to_string());
    seed_discovery(&mut pdb, &[0x1000, 0x1800, 0x5000, 0x1200]);
    // The import was never queued; the out-of-code address is dropped from the batch.
    let batch = take_batch(&mut pdb, &[(0x1000, 0x2000)]);
    assert_eq!(batch, vec![0x1000, 0x1200]);
    assert!(pdb.pending.is_empty());
}

#[test]
fn batch_takes_at_most_a_thousand() {
    let mut pdb = ProgramDatabase::new();
    let seeds: Vec<u64> = (1..=1500u64).collect();
    seed_discovery(&mut pdb, &seeds);
    let batch = take_batch(&mut pdb, &[(0, u64::MAX)]);
    assert_eq!(batch.len(), 1000);
    assert_eq!(batch[0], 1);
    assert_eq!(pdb.pending.len(), 500);
    assert_eq!(pdb.pending[0], 1001);
}

#[test]
fn lift_outcomes_mark_and_queue_new_functions() {
    let mut pdb = ProgramDatabase::new();
    seed_discovery(&mut pdb, &[0x1000]);
    let _ = take_batch(&mut pdb, &[(0x1000, 0x4000)]);
    let failed = record_lift_outcome(&mut pdb, 0x1000, Some(&[0x2000, 0x1000, 0x3000]));
    assert!(!failed);
    assert!(pdb.analyzed.contains(&0x1000));
    assert_eq!(pending(&pdb), vec![0x2000, 0x3000]);
    let failed = record_lift_outcome(&mut pdb, 0x2000, None);
    assert!(failed);
    assert!(pdb.failed.contains(&0x2000));
    assert_eq!(pending(&pdb), vec![0x2000, 0x3000]);
}
