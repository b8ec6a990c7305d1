//! Whole-program analysis summaries, and the decisions of the phase-2
//! pipeline: which pass a scheduled name runs, whether the artifacts it
//! reads are there, and whether a finished run holds all it must.

use vstd::prelude::*;
use crate::text::str_eq;
use crate::scheduler::{
    all_indices, lemma_provided_includes, pass_view, phase2_table, provided, provides_set, ready, runs_in_order,
    PassDescriptor, fact_names,
};

verus! {

/// Summary statistics from a whole-program analysis run.
#[derive(Debug, Clone, Copy)]
pub struct AnalysisSummary {
    pub functions_discovered: usize,
    pub functions_analyzed: usize,
    pub functions_failed: usize,
    pub imports_resolved: usize,
    pub xrefs_recorded: usize,
    pub modules_identified: usize,
}

/// The artifacts a phase-2 run has produced so far.
#[derive(Debug, Clone, Copy, PartialEq, Eq, Structural)]
pub struct PipelineState {
    pub dominators: bool,
    pub ssa: bool,
    pub vsa: bool,
    pub provenance: bool,
    pub stack_frame: bool,
    pub prim_types: bool,
    pub signature: bool,
    pub semantic: bool,
    pub high_level_cfg: bool,
    pub mlil: bool,
}

/// A phase-2 pass.
#[derive(Debug, Clone, Copy, PartialEq, Eq, Structural)]
pub enum Phase2Pass {
    Dominators,
    Ssa,
    Vsa,
    PointerProvenance,
    StackVars,
    PrimitiveTypes,
    CallingConventions,
    SemanticLowering,
    Structuring,
    MlilLowering,
}

/// What the pipeline does with a scheduled pass name: run the pass (and
/// hold its artifact afterwards), or stop with an error message.
#[derive(Debug)]
pub enum PipelineAction {
    Run(Phase2Pass, PipelineState),
    Fail(String),
}

/// A run that has produced nothing yet.
pub open spec fn empty_state() -> PipelineState {
    PipelineState {
        dominators: false,
        ssa: false,
        vsa: false,
        provenance: false,
        stack_frame: false,
        prim_types: false,
        signature: false,
        semantic: false,
        high_level_cfg: false,
        mlil: false,
    }
}

/// The outcome of a step, as the contracts speak of it: the pass run and
/// the state after it, or the error message.
pub enum StepView {
    Run(Phase2Pass, PipelineState),
    Fail(Seq<char>),
}

/// The view of an action.
pub open spec fn action_view(a: PipelineAction) -> StepView {
    match a {
        PipelineAction::Run(p, s) => StepView::Run(p, s),
        PipelineAction::Fail(m) => StepView::Fail(m@),
    }
}

/// The error for running `what` before `needed`.
pub open spec fn out_of_order(what: Seq<char>, needed: Seq<char>) -> StepView {
    StepView::Fail("Phase 2 scheduler executed "@ + what + " before "@ + needed)
}

/// The step for the scheduled pass `name` in state `st`: each pass checks,
/// in order, that the artifacts it reads are there, and then holds its
/// own; an unknown name fails.
pub open spec fn phase2_step_spec(st: PipelineState, name: Seq<char>) -> StepView {
    if name == "dominators"@ {
        StepView::Run(Phase2Pass::Dominators, PipelineState { dominators: true, ..st })
    } else if name == "ssa"@ {
        if !st.dominators {
            out_of_order("SSA"@, "dominators"@)
        } else {
            StepView::Run(Phase2Pass::Ssa, PipelineState { ssa: true, ..st })
        }
    } else if name == "vsa"@ {
        if !st.ssa {
            out_of_order("VSA"@, "SSA"@)
        } else {
            StepView::Run(Phase2Pass::Vsa, PipelineState { vsa: true, ..st })
        }
    } else if name == "pointer_provenance"@ {
        if !st.ssa {
            out_of_order("provenance"@, "SSA"@)
        } else {
            StepView::Run(Phase2Pass::PointerProvenance, PipelineState { provenance: true, ..st })
        }
    } else if name == "stack_vars"@ {
        if !st.ssa {
            out_of_order("stack vars"@, "SSA"@)
        } else if !st.vsa {
            out_of_order("stack vars"@, "VSA"@)
        } else {
            StepView::Run(Phase2Pass::StackVars, PipelineState { stack_frame: true, ..st })
        }
    } else if name == "primitive_types"@ {
        if !st.ssa {
            out_of_order("primitive types"@, "SSA"@)
        } else {
            StepView::Run(Phase2Pass::PrimitiveTypes, PipelineState { prim_types: true, ..st })
        }
    } else if name == "calling_conventions"@ {
        if !st.ssa {
            out_of_order("calling convention"@, "SSA"@)
        } else if !st.vsa {
            out_of_order("calling convention"@, "VSA"@)
        } else if !st.prim_types {
            out_of_order("calling convention"@, "primitive types"@)
        } else {
            StepView::Run(Phase2Pass::CallingConventions, PipelineState { signature: true, ..st })
        }
    } else if name == "semantic_lowering"@ {
        if !st.ssa {
            out_of_order("semantic lowering"@, "SSA"@)
        } else {
            StepView::Run(Phase2Pass::SemanticLowering, PipelineState { semantic: true, ..st })
        }
    } else if name == "structuring"@ {
        if !st.dominators {
            out_of_order("structuring"@, "dominators"@)
        } else {
            StepView::Run(Phase2Pass::Structuring, PipelineState { high_level_cfg: true, ..st })
        }
    } else if name == "mlil_lowering"@ {
        if !st.ssa {
            out_of_order("MLIL"@, "SSA"@)
        } else if !st.signature {
            out_of_order("MLIL"@, "calling convention"@)
        } else if !st.stack_frame {
            out_of_order("MLIL"@, "stack vars"@)
        } else if !st.provenance {
            out_of_order("MLIL"@, "provenance"@)
        } else if !st.semantic {
            out_of_order("MLIL"@, "semantic IR"@)
        } else {
            StepView::Run(Phase2Pass::MlilLowering, PipelineState { mlil: true, ..st })
        }
    } else {
        StepView::Fail("Unknown Phase 2 scheduled pass: "@ + name)
    }
}

/// The error for a missing dependency.
fn fail_before(what: &str, needed: &str) -> (a: PipelineAction)
    ensures
        action_view(a) == out_of_order(what@, needed@),
{
    let mut m = String::new();
    m.append("Phase 2 scheduler executed ");
    m.append(what);
    m.append(" before ");
    m.append(needed);
    PipelineAction::Fail(m)
}

/// Decides the step for the scheduled pass `name` in state `st`: which
/// pass runs, with the artifact it produces marked held, or the message
/// for an artifact it reads that is missing or for an unknown name.
pub fn phase2_step(st: &PipelineState, name: &str) -> (a: PipelineAction)
    ensures
        action_view(a) == phase2_step_spec(*st, name@),
{
    let s = *st;
    if str_eq(name, "dominators") {
        PipelineAction::Run(Phase2Pass::Dominators, PipelineState { dominators: true, ..s })
    } else if str_eq(name, "ssa") {
        if !s.dominators {
            fail_before("SSA", "dominators")
        } else {
            PipelineAction::Run(Phase2Pass::Ssa, PipelineState { ssa: true, ..s })
        }
    } else if str_eq(name, "vsa") {
        if !s.ssa {
            fail_before("VSA", "SSA")
        } else {
            PipelineAction::Run(Phase2Pass::Vsa, PipelineState { vsa: true, ..s })
        }
    } else if str_eq(name, "pointer_provenance") {
        if !s.ssa {
            fail_before("provenance", "SSA")
        } else {
            PipelineAction::Run(Phase2Pass::PointerProvenance, PipelineState { provenance: true, ..s })
        }
    } else if str_eq(name, "stack_vars") {
        if !s.ssa {
            fail_before("stack vars", "SSA")
        } else if !s.vsa {
            fail_before("stack vars", "VSA")
        } else {
            PipelineAction::Run(Phase2Pass::StackVars, PipelineState { stack_frame: true, ..s })
        }
    } else if str_eq(name, "primitive_types") {
        if !s.ssa {
            fail_before("primitive types", "SSA")
        } else {
            PipelineAction::Run(Phase2Pass::PrimitiveTypes, PipelineState { prim_types: true, ..s })
        }
    } else if str_eq(name, "calling_conventions") {
        if !s.ssa {
            fail_before("calling convention", "SSA")
        } else if !s.vsa {
            fail_before("calling convention", "VSA")
        } else if !s.prim_types {
            fail_before("calling convention", "primitive types")
        } else {
            PipelineAction::Run(Phase2Pass::CallingConventions, PipelineState { signature: true, ..s })
        }
    } else if str_eq(name, "semantic_lowering") {
        if !s.ssa {
            fail_before("semantic lowering", "SSA")
        } else {
            PipelineAction::Run(Phase2Pass::SemanticLowering, PipelineState { semantic: true, ..s })
        }
    } else if str_eq(name, "structuring") {
        if !s.dominators {
            fail_before("structuring", "dominators")
        } else {
            PipelineAction::Run(Phase2Pass::Structuring, PipelineState { high_level_cfg: true, ..s })
        }
    } else if str_eq(name, "mlil_lowering") {
        if !s.ssa {
            fail_before("MLIL", "SSA")
        } else if !s.signature {
            fail_before("MLIL", "calling convention")
        } else if !s.stack_frame {
            fail_before("MLIL", "stack vars")
        } else if !s.provenance {
            fail_before("MLIL", "provenance")
        } else if !s.semantic {
            fail_before("MLIL", "semantic IR")
        } else {
            PipelineAction::Run(Phase2Pass::MlilLowering, PipelineState { mlil: true, ..s })
        }
    } else {
        let mut m = String::new();
        m.append("Unknown Phase 2 scheduled pass: ");
        m.append(name);
        PipelineAction::Fail(m)
    }
}

/// The error of a finished run, if any: it must hold the high-level CFG,
/// the MLIL and the semantic IR, checked in that order.
pub open spec fn phase2_finish_spec(st: PipelineState) -> Option<Seq<char>> {
    if !st.high_level_cfg {
        Some("Phase 2 scheduler completed without high-level CFG"@)
    } else if !st.mlil {
        Some("Phase 2 scheduler completed without MLIL"@)
    } else if !st.semantic {
        Some("Phase 2 scheduler completed without semantic IR"@)
    } else {
        None
    }
}

/// Checks a finished run: the message for the first missing final
/// artifact, or `None` when all are held.
pub fn phase2_finish(st: &PipelineState) -> (r: Option<String>)
    ensures
        match r {
            Some(m) => phase2_finish_spec(*st) == Some(m@),
            None => phase2_finish_spec(*st) is None,
        },
{
    if !st.high_level_cfg {
        Some("Phase 2 scheduler completed without high-level CFG".to_string())
    } else if !st.mlil {
        Some("Phase 2 scheduler completed without MLIL".to_string())
    } else if !st.semantic {
        Some("Phase 2 scheduler completed without semantic IR".to_string())
    } else {
        None
    }
}

/// A run that has produced nothing yet.
pub fn new_pipeline_state() -> (st: PipelineState)
    ensures
        st == empty_state(),
{
    PipelineState {
        dominators: false,
        ssa: false,
        vsa: false,
        provenance: false,
        stack_frame: false,
        prim_types: false,
        signature: false,
        semantic: false,
        high_level_cfg: false,
        mlil: false,
    }
}

/// The state after stepping through the first `k` pass names from an
/// empty run, or `None` once a step fails.
pub open spec fn run_steps(names: Seq<Seq<char>>, k: int) -> Option<PipelineState>
    decreases k,
{
    if k <= 0 {
        Some(empty_state())
    } else {
        match run_steps(names, k - 1) {
            Some(st) => match phase2_step_spec(st, names[k - 1]) {
                StepView::Run(_, next) => Some(next),
                StepView::Fail(_) => None,
            },
            None => None,
        }
    }
}

/// The state holds exactly the artifacts whose facts are in `f`.
pub open spec fn state_matches(st: PipelineState, f: Set<Seq<char>>) -> bool {
    &&& st.dominators == f.contains("dominators"@)
    &&& st.ssa == f.contains("ssa_form"@)
    &&& st.vsa == f.contains("value_sets"@)
    &&& st.provenance == f.contains("pointer_provenance"@)
    &&& st.stack_frame == f.contains("stack_frame"@)
    &&& st.prim_types == f.contains("primitive_types"@)
    &&& st.signature == f.contains("calling_conventions"@)
    &&& st.semantic == f.contains("semantic_ir"@)
    &&& st.high_level_cfg == f.contains("high_level_cfg"@)
    &&& st.mlil == f.contains("mlil"@)
}

/// The names of the passes `o` runs.
pub open spec fn pass_names(passes: Seq<PassDescriptor>, o: Seq<usize>) -> Seq<Seq<char>> {
    o.map_values(|i: usize| passes[i as int].name@)
}

/// The lengths of the fact names, which tell most of them apart.
proof fn lemma_fact_names_differ()
    ensures
        "cfg"@.len() == 3,
        "dominators"@.len() == 10,
        "ssa_form"@.len() == 8,
        "value_sets"@.len() == 10,
        "pointer_provenance"@.len() == 18,
        "stack_frame"@.len() == 11,
        "primitive_types"@.len() == 15,
        "calling_conventions"@.len() == 19,
        "semantic_ir"@.len() == 11,
        "high_level_cfg"@.len() == 14,
        "mlil"@.len() == 4,
        "dominators"@ != "value_sets"@,
        "stack_frame"@ != "semantic_ir"@,
{
    reveal_strlit("cfg");
    reveal_strlit("dominators");
    reveal_strlit("ssa_form");
    reveal_strlit("value_sets");
    reveal_strlit("pointer_provenance");
    reveal_strlit("stack_frame");
    reveal_strlit("primitive_types");
    reveal_strlit("calling_conventions");
    reveal_strlit("semantic_ir");
    reveal_strlit("high_level_cfg");
    reveal_strlit("mlil");
    assert("dominators"@[0] != "value_sets"@[0]);
    assert("stack_frame"@[1] != "semantic_ir"@[1]);
}

/// The lengths of the pass names, which tell most of them apart.
proof fn lemma_pass_names_differ()
    ensures
        "dominators"@.len() == 10,
        "ssa"@.len() == 3,
        "vsa"@.len() == 3,
        "pointer_provenance"@.len() == 18,
        "stack_vars"@.len() == 10,
        "primitive_types"@.len() == 15,
        "calling_conventions"@.len() == 19,
        "semantic_lowering"@.len() == 17,
        "structuring"@.len() == 11,
        "mlil_lowering"@.len() == 13,
        "dominators"@ != "stack_vars"@,
        "ssa"@ != "vsa"@,
{
    reveal_strlit("dominators");
    reveal_strlit("ssa");
    reveal_strlit("vsa");
    reveal_strlit("pointer_provenance");
    reveal_strlit("stack_vars");
    reveal_strlit("primitive_types");
    reveal_strlit("calling_conventions");
    reveal_strlit("semantic_lowering");
    reveal_strlit("structuring");
    reveal_strlit("mlil_lowering");
    assert("dominators"@[0] != "stack_vars"@[0]);
    assert("ssa"@[0] != "vsa"@[0]);
}

/// Stepping one pass of the phase-2 table whose requirements are met
/// keeps the state in step with the facts provided.
proof fn lemma_phase2_one_step(p: PassDescriptor, st: PipelineState, before: Set<Seq<char>>, j: int)
    requires
        0 <= j < 10,
        pass_view(p) == phase2_table()[j],
        state_matches(st, before),
        ready(p, set!["cfg"@].union(before)),
    ensures
        phase2_step_spec(st, p.name@) matches StepView::Run(_, next) && state_matches(
            next,
            before.union(provides_set(p)),
        ),
{
    reveal_strlit("cfg");
    reveal_strlit("dominators");
    reveal_strlit("ssa_form");
    reveal_strlit("value_sets");
    reveal_strlit("pointer_provenance");
    reveal_strlit("stack_frame");
    reveal_strlit("primitive_types");
    reveal_strlit("calling_conventions");
    reveal_strlit("semantic_ir");
    reveal_strlit("high_level_cfg");
    reveal_strlit("mlil");
    reveal_strlit("ssa");
    reveal_strlit("vsa");
    reveal_strlit("stack_vars");
    reveal_strlit("semantic_lowering");
    reveal_strlit("structuring");
    reveal_strlit("mlil_lowering");
    lemma_fact_names_differ();
    lemma_pass_names_differ();
    let t = phase2_table()[j];
    assert(fact_names(p.requires@) == t.1);
    assert(fact_names(p.provides@) == t.2);
    assert forall|k: int| 0 <= k < t.1.len() implies set!["cfg"@].union(before).contains(#[trigger] t.1[k]) by {
        assert(t.1[k] == fact_names(p.requires@)[k]);
        assert(set!["cfg"@].union(before).contains(p.requires@[k]@));
    }
    assert(provides_set(p) == t.2.to_set());
    assert(t.2.len() == 1);
    assert(t.2.to_set() =~= set![t.2[0]]);
    let u = set!["cfg"@].union(before);
    assert forall|f: Seq<char>| u.contains(f) && f.len() != 3 implies before.contains(f) by {
        if !before.contains(f) {
            assert(f == "cfg"@);
        }
    }
    assert(t.1.len() > 0 ==> u.contains(t.1[0]));
    assert(t.1.len() > 1 ==> u.contains(t.1[1]));
    assert(t.1.len() > 2 ==> u.contains(t.1[2]));
    assert(t.1.len() > 3 ==> u.contains(t.1[3]));
    assert(t.1.len() > 4 ==> u.contains(t.1[4]));
    assert("dominators"@[0] != "value_sets"@[0]);
    assert("stack_frame"@[1] != "semantic_ir"@[1]);
    assert("dominators"@[0] != "stack_vars"@[0]);
    assert("ssa"@[0] != "vsa"@[0]);
    if j == 0 {
        assert(p.name@ == "dominators"@);
        assert(provides_set(p) =~= set!["dominators"@]);
    } else if j == 1 {
        assert(p.name@ == "ssa"@);
        assert(provides_set(p) =~= set!["ssa_form"@]);
        assert(t.1[1] == "dominators"@);
        assert(u.contains("dominators"@));
        assert("dominators"@.len() != 3);
        assert(before.contains("dominators"@));
    } else if j == 2 {
        assert(p.name@ == "vsa"@);
        assert(provides_set(p) =~= set!["value_sets"@]);
        assert(t.1[0] == "ssa_form"@);
        assert(u.contains("ssa_form"@));
        assert("ssa_form"@.len() != 3);
        assert(before.contains("ssa_form"@));
    } else if j == 3 {
        assert(p.name@ == "pointer_provenance"@);
        assert(provides_set(p) =~= set!["pointer_provenance"@]);
        assert(t.1[0] == "ssa_form"@);
        assert(u.contains("ssa_form"@));
        assert("ssa_form"@.len() != 3);
        assert(before.contains("ssa_form"@));
    } else if j == 4 {
        assert(p.name@ == "stack_vars"@);
        assert(provides_set(p) =~= set!["stack_frame"@]);
        assert(t.1[0] == "ssa_form"@);
        assert(u.contains("ssa_form"@));
        assert("ssa_form"@.len() != 3);
        assert(before.contains("ssa_form"@));
        assert(t.1[1] == "value_sets"@);
        assert(u.contains("value_sets"@));
        assert("value_sets"@.len() != 3);
        assert(before.contains("value_sets"@));
    } else if j == 5 {
        assert(p.name@ == "primitive_types"@);
        assert(provides_set(p) =~= set!["primitive_types"@]);
        assert(t.1[0] == "ssa_form"@);
        assert(u.contains("ssa_form"@));
        assert("ssa_form"@.len() != 3);
        assert(before.contains("ssa_form"@));
    } else if j == 6 {
        assert(p.name@ == "calling_conventions"@);
        assert(provides_set(p) =~= set!["calling_conventions"@]);
        assert(t.1[0] == "ssa_form"@);
        assert(u.contains("ssa_form"@));
        assert("ssa_form"@.len() != 3);
        assert(before.contains("ssa_form"@));
        assert(t.1[1] == "value_sets"@);
        assert(u.contains("value_sets"@));
        assert("value_sets"@.len() != 3);
        assert(before.contains("value_sets"@));
        assert(t.1[2] == "primitive_types"@);
        assert(u.contains("primitive_types"@));
        assert("primitive_types"@.len() != 3);
        assert(before.contains("primitive_types"@));
    } else if j == 7 {
        assert(p.name@ == "semantic_lowering"@);
        assert(provides_set(p) =~= set!["semantic_ir"@]);
        assert(t.1[0] == "ssa_form"@);
        assert(u.contains("ssa_form"@));
        assert("ssa_form"@.len() != 3);
        assert(before.contains("ssa_form"@));
        assert(t.1[1] == "pointer_provenance"@);
        assert(u.contains("pointer_provenance"@));
        assert("pointer_provenance"@.len() != 3);
        assert(before.contains("pointer_provenance"@));
    } else if j == 8 {
        assert(p.name@ == "structuring"@);
        assert(provides_set(p) =~= set!["high_level_cfg"@]);
        assert(t.1[1] == "dominators"@);
        assert(u.contains("dominators"@));
        assert("dominators"@.len() != 3);
        assert(before.contains("dominators"@));
    } else {
        assert(p.name@ == "mlil_lowering"@);
        assert(provides_set(p) =~= set!["mlil"@]);
        assert(t.1[0] == "ssa_form"@);
        assert(u.contains("ssa_form"@));
        assert("ssa_form"@.len() != 3);
        assert(before.contains("ssa_form"@));
        assert(t.1[1] == "calling_conventions"@);
        assert(u.contains("calling_conventions"@));
        assert("calling_conventions"@.len() != 3);
        assert(before.contains("calling_conventions"@));
        assert(t.1[2] == "semantic_ir"@);
        assert(u.contains("semantic_ir"@));
        assert("semantic_ir"@.len() != 3);
        assert(before.contains("semantic_ir"@));
        assert(t.1[3] == "pointer_provenance"@);
        assert(u.contains("pointer_provenance"@));
        assert("pointer_provenance"@.len() != 3);
        assert(before.contains("pointer_provenance"@));
        assert(t.1[4] == "stack_frame"@);
        assert(u.contains("stack_frame"@));
        assert("stack_frame"@.len() != 3);
        assert(before.contains("stack_frame"@));
    }
}

/// What pass `j` of the phase-2 table provides.
proof fn lemma_provides_fact(p: PassDescriptor, j: int)
    requires
        0 <= j < 10,
        pass_view(p) == phase2_table()[j],
    ensures
        provides_set(p).contains(phase2_table()[j].2[0]),
{
    let t = phase2_table()[j];
    assert(fact_names(p.provides@) == t.2);
    assert(t.2.len() == 1);
    assert(fact_names(p.provides@)[0] == t.2[0]);
}

/// Stepping through the first `k` passes of a valid order keeps the state
/// in step with the facts they provide.
proof fn lemma_phase2_prefix(passes: Seq<PassDescriptor>, o: Seq<usize>, k: int)
    requires
        0 <= k <= o.len(),
        forall|q: int| 0 <= q < o.len() ==> (#[trigger] o[q]) < 10,
        passes.len() == 10,
        forall|i: int| 0 <= i < 10 ==> #[trigger] pass_view(passes[i]) == phase2_table()[i],
        runs_in_order(passes, all_indices(10), set!["cfg"@], o),
    ensures
        run_steps(pass_names(passes, o), k) matches Some(st) && state_matches(st, provided(passes, o.take(k))),
    decreases k,
{
    let names = pass_names(passes, o);
    if k == 0 {
        assert(o.take(0) =~= Seq::<usize>::empty());
        assert(state_matches(empty_state(), provided(passes, o.take(0))));
    } else {
        lemma_phase2_prefix(passes, o, k - 1);
        let st = run_steps(names, k - 1)->0;
        let p = passes[o[k - 1] as int];
        let before = provided(passes, o.take(k - 1));
        assert(ready(p, set!["cfg"@].union(before)));
        lemma_phase2_one_step(p, st, before, o[k - 1] as int);
        assert(names[k - 1] == p.name@);
        assert(o.take(k).drop_last() =~= o.take(k - 1));
        assert(provided(passes, o.take(k)) == before.union(provides_set(p)));
    }
}

/// Every order that runs the phase-2 passes after the facts they require
/// (from the control-flow graph alone) passes every step of the pipeline,
/// and the finished run holds all its final artifacts.
pub proof fn law_phase2_valid_order_runs(passes: Seq<PassDescriptor>, o: Seq<usize>)
    requires
        passes.len() == 10,
        forall|i: int| 0 <= i < 10 ==> #[trigger] pass_view(passes[i]) == phase2_table()[i],
        runs_in_order(passes, all_indices(10), set!["cfg"@], o),
    ensures
        run_steps(pass_names(passes, o), o.len() as int) matches Some(st) && phase2_finish_spec(st) is None,
{
    broadcast use vstd::seq_lib::group_to_multiset_ensures;

    let names = pass_names(passes, o);
    let all = all_indices(10);
    assert forall|k: int| 0 <= k < o.len() implies (#[trigger] o[k]) < 10 by {
        assert(o.to_multiset().count(o[k]) > 0) by {
            assert(o.contains(o[k]));
        }
        assert(all.to_multiset().count(o[k]) > 0);
        assert(all.contains(o[k]));
    }
    lemma_phase2_prefix(passes, o, o.len() as int);
    let st = run_steps(names, o.len() as int)->0;
    assert(o.take(o.len() as int) =~= o);
    assert forall|j: int| 0 <= j < 10 implies provides_set(#[trigger] passes[j]).subset_of(provided(passes, o)) by {
        assert(all[j] == j as usize);
        assert(all.to_multiset().count(j as usize) > 0) by {
            assert(all.contains(j as usize));
        }
        assert(o.to_multiset().count(j as usize) > 0);
        assert(o.contains(j as usize));
        let t = choose|t: int| 0 <= t < o.len() && o[t] == j as usize;
        lemma_provided_includes(passes, o, t);
    }
    reveal_strlit("high_level_cfg");
    reveal_strlit("mlil");
    reveal_strlit("semantic_ir");
    lemma_provides_fact(passes[8], 8);
    lemma_provides_fact(passes[9], 9);
    lemma_provides_fact(passes[7], 7);
    assert(provides_set(passes[8]).subset_of(provided(passes, o)));
    assert(provides_set(passes[9]).subset_of(provided(passes, o)));
    assert(provides_set(passes[7]).subset_of(provided(passes, o)));
}

} // verus!
