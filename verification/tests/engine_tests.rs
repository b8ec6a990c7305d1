use canary::engine::{new_pipeline_state, phase2_finish, phase2_step, Phase2Pass, PipelineAction};
use canary::scheduler::{facts, phase2_passes, schedule};

#[test]
fn scheduled_phase2_order_runs_to_completion() {
    let order = schedule(&phase2_passes(), &[facts::cfg()]).unwrap();
    let mut st = new_pipeline_state();
    let mut ran = Vec::new();
    for name in &order {
        match phase2_step(&st, name) {
            PipelineAction::Run(pass, next) => {
                ran.push(pass);
                st = next;
            }
            PipelineAction::Fail(m) => panic!("unexpected failure: {m}"),
        }
    }
    assert_eq!(ran.len(), 10);
    assert_eq!(ran[0], Phase2Pass::Dominators);
    assert_eq!(ran[9], Phase2Pass::MlilLowering);
    assert_eq!(phase2_finish(&st), None);
}

#[test]
fn out_of_order_passes_are_refused() {
    let st = new_pipeline_state();
    match phase2_step(&st, "ssa") {
        PipelineAction::Fail(m) => assert_eq!(m, "Phase 2 scheduler executed SSA before dominators"),
        _ => panic!("expected failure"),
    }
    match phase2_step(&st, "mlil_lowering") {
        PipelineAction::Fail(m) => assert_eq!(m, "Phase 2 scheduler executed MLIL before SSA"),
        _ => panic!("expected failure"),
    }
    match phase2_step(&st, "decompile") {
        PipelineAction::Fail(m) => assert_eq!(m, "Unknown Phase 2 scheduled pass: decompile"),
        _ => panic!("expected failure"),
    }
    assert_eq!(phase2_finish(&st), Some("Phase 2 scheduler completed without high-level CFG".to_string()));
}

#[test]
fn mlil_waits_for_the_stack_frame() {
    let mut st = new_pipeline_state();
    for name in ["dominators", "ssa", "vsa", "pointer_provenance", "primitive_types", "calling_conventions", "semantic_lowering"] {
        match phase2_step(&st, name) {
            PipelineAction::Run(_, next) => st = next,
            PipelineAction::Fail(m) => panic!("{m}"),
        }
    }
    match phase2_step(&st, "mlil_lowering") {
        PipelineAction::Fail(m) => assert_eq!(m, "Phase 2 scheduler executed MLIL before stack vars"),
        _ => panic!("expected failure"),
    }
}
