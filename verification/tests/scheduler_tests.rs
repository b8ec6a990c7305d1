use canary::scheduler::{facts, phase2_passes, schedule, FactTag, PassDescriptor, ScheduleError};

#[test]
fn phase2_schedule_is_deterministic() {
    let first = schedule(&phase2_passes(), &[facts::cfg()]).unwrap();
    let second = schedule(&phase2_passes(), &[facts::cfg()]).unwrap();

    assert_eq!(first, second);
    assert_eq!(
        first,
        vec![
            "dominators",
            "ssa",
            "vsa",
            "pointer_provenance",
            "stack_vars",
            "primitive_types",
            "calling_conventions",
            "semantic_lowering",
            "structuring",
            "mlil_lowering"
        ]
    );
}

#[test]
fn schedule_rejects_missing_facts() {
    let passes = vec![PassDescriptor {
        name: "needs_ssa",
        requires: vec![facts::ssa_form()],
        provides: vec![facts::mlil()],
    }];

    let err = schedule(&passes, &[facts::cfg()]).unwrap_err();
    assert_eq!(
        err,
        ScheduleError::MissingFact {
            pass: "needs_ssa",
            fact: "ssa_form"
        }
    );
}

#[test]
fn schedule_reports_cycle_between_passes() {
    let passes = vec![
        PassDescriptor {
            name: "a",
            requires: vec![FactTag("x")],
            provides: vec![FactTag("y")],
        },
        PassDescriptor {
            name: "b",
            requires: vec![FactTag("y")],
            provides: vec![FactTag("x")],
        },
    ];
    assert_eq!(schedule(&passes, &[]), Err(ScheduleError::Cycle));
}

#[test]
fn schedule_places_dependents_after_providers() {
    let passes = vec![
        PassDescriptor {
            name: "late",
            requires: vec![FactTag("b")],
            provides: vec![],
        },
        PassDescriptor {
            name: "mid",
            requires: vec![FactTag("a")],
            provides: vec![FactTag("b")],
        },
    ];
    assert_eq!(schedule(&passes, &[FactTag("a")]), Ok(vec!["mid", "late"]));
    assert_eq!(schedule(&[], &[]), Ok(vec![]));
}

#[test]
fn phase2_passes_lists_ten_passes() {
    let passes = phase2_passes();
    assert_eq!(passes.len(), 10);
    assert_eq!(passes[1].name, "ssa");
    assert_eq!(passes[1].requires, vec![facts::cfg(), facts::dominators()]);
    assert_eq!(facts::type_guesses(), FactTag("type_guesses"));
    assert_eq!(facts::vtable_layouts(), FactTag("vtable_layouts"));
}

#[test]
fn mlil_lowering_requires_the_stack_frame() {
    let passes = phase2_passes();
    let mlil = passes.iter().find(|p| p.name == "mlil_lowering").unwrap();
    assert!(mlil.requires.iter().any(|f| f.0 == "stack_frame"));
    let order = schedule(&passes, &[facts::cfg()]).unwrap();
    let at = |n: &str| order.iter().position(|x| *x == n).unwrap();
    assert!(at("stack_vars") < at("mlil_lowering"));
}

#[test]
fn schedule_succeeds_when_an_order_exists_in_any_listing() {
    // "late" is listed first but can run once "mid" has provided "b".
    let passes = vec![
        PassDescriptor { name: "late", requires: vec![FactTag("b")], provides: vec![FactTag("c")] },
        PassDescriptor { name: "mid", requires: vec![FactTag("a")], provides: vec![FactTag("b")] },
        PassDescriptor { name: "first", requires: vec![], provides: vec![FactTag("a")] },
    ];
    assert_eq!(schedule(&passes, &[]), Ok(vec!["first", "mid", "late"]));
    // A cycle is reported although each required fact is provided by some pass.
    let cyclic = vec![
        PassDescriptor { name: "p", requires: vec![FactTag("q")], provides: vec![FactTag("p")] },
        PassDescriptor { name: "q", requires: vec![FactTag("p")], provides: vec![FactTag("q")] },
    ];
    assert_eq!(schedule(&cyclic, &[]), Err(ScheduleError::Cycle));
}
