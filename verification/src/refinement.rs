//! Refinement feedback: applying the corrections that project validation
//! proposes (renamed symbols, adjusted signatures) to the semantic
//! database and the workspace, and telling whether anything changed.

use vstd::prelude::*;
use indexmap::IndexMap;
use crate::collections::{
    assoc_get, assoc_insert, function_table_get, function_table_insert, function_table_items,
    u64_string_map_contains_key, u64_string_map_insert, u64_string_map_items, u64_usize_map_items,
};
use crate::recovered_types::{function_view, param_view, sig_view, FunctionView, ParamView, SdbCallSignature, SdbFunction, SdbParam, SigView};
use crate::text::{dec, push_dec, str_eq};
use crate::workspace::Workspace;

verus! {

/// A correction that validation proposes.
#[derive(Debug, Clone)]
pub enum RefinementAction {
    /// Give the symbol and function at `address` the name `new_name`.
    RenameSymbol { address: u64, old_name: String, new_name: String },
    /// Give the function at `address` `param_count` parameters, with the
    /// types in `param_types` where they are known.
    UpdateSignature { address: u64, param_count: usize, param_types: Vec<String> },
    /// Adjust the type of a variable.
    UpdateVariableType,
}

/// A validation finding with its proposed correction.
#[derive(Debug, Clone)]
pub struct FeedbackEntry {
    pub description: String,
    pub action: RefinementAction,
}

/// What refinement updates: the symbol names by address, the function
/// records, the workspace's functions, and the queue of feedback received.
#[derive(Debug)]
pub struct RefinementTables {
    pub symbols: IndexMap<u64, String>,
    pub functions: IndexMap<u64, SdbFunction>,
    pub workspace: Workspace,
    pub feedback_queue: Vec<FeedbackEntry>,
}

/// A correction as the contracts speak of it.
pub enum ActionView {
    RenameSymbol { address: u64, new_name: Seq<char> },
    UpdateSignature { address: u64, param_count: nat, param_types: Seq<Seq<char>> },
    UpdateVariableType,
}

/// The view of a correction.
pub open spec fn action_view(a: RefinementAction) -> ActionView {
    match a {
        RefinementAction::RenameSymbol { address, new_name, .. } => ActionView::RenameSymbol {
            address,
            new_name: new_name@,
        },
        RefinementAction::UpdateSignature { address, param_count, param_types } => ActionView::UpdateSignature {
            address,
            param_count: param_count as nat,
            param_types: param_types@.map_values(|t: String| t@),
        },
        RefinementAction::UpdateVariableType => ActionView::UpdateVariableType,
    }
}

/// The state refinement works on: symbol names, function records, whether
/// each workspace function's lifted form is current, and whether anything
/// changed.
pub type RefineState = (Map<u64, Seq<char>>, Seq<(u64, FunctionView)>, Seq<bool>, bool);

/// The signature a function without one starts from.
pub open spec fn default_signature() -> SigView {
    ("void"@, Seq::empty(), "SysV64"@, false, false)
}

/// The placeholder for parameter `i`.
pub open spec fn placeholder_param(i: int) -> ParamView {
    (Some("arg_"@ + dec(i as nat)), "unknown"@, "unknown"@)
}

/// `ps` cut or padded with placeholders to `n` parameters.
pub open spec fn resized(ps: Seq<ParamView>, n: int) -> Seq<ParamView> {
    if ps.len() >= n {
        ps.take(n)
    } else {
        ps + Seq::new((n - ps.len()) as nat, |j: int| placeholder_param(ps.len() + j))
    }
}

/// `ps` with the type of parameter `i` set to `tys[i]` wherever that is
/// known (not `unknown`).
pub open spec fn retyped(ps: Seq<ParamView>, tys: Seq<Seq<char>>) -> Seq<ParamView> {
    Seq::new(
        ps.len(),
        |i: int| if i < tys.len() && tys[i] != "unknown"@ { (ps[i].0, tys[i], ps[i].2) } else { ps[i] },
    )
}

/// The signature after an update to `n` parameters with types `tys`.
pub open spec fn updated_signature(old: Option<SigView>, n: int, tys: Seq<Seq<char>>) -> SigView {
    let base = match old {
        Some(s) => s,
        None => default_signature(),
    };
    (base.0, retyped(resized(base.1, n), tys), base.2, base.3, base.4)
}

/// The state after one correction; a workspace function is looked up in
/// `registry` (entry address to index).
pub open spec fn apply_action(st: RefineState, registry: Seq<(u64, usize)>, a: ActionView) -> RefineState {
    match a {
        ActionView::RenameSymbol { address, new_name } => if address == 0 {
            st
        } else {
            let in_symbols = st.0.contains_key(address);
            let symbols = if in_symbols { st.0.insert(address, new_name) } else { st.0 };
            let (funcs, in_funcs) = match assoc_get(st.1, address) {
                Some(f) => (assoc_insert(st.1, address, (Some(new_name), f.1, f.2)), true),
                None => (st.1, false),
            };
            (symbols, funcs, st.2, st.3 || in_symbols || in_funcs)
        },
        ActionView::UpdateSignature { address, param_count, param_types } => match assoc_get(st.1, address) {
            Some(f) => {
                let sig = updated_signature(f.2, param_count as int, param_types);
                let funcs = assoc_insert(st.1, address, (f.0, f.1, Some(sig)));
                let lifted = match assoc_get(registry, address) {
                    Some(i) => if (i as int) < st.2.len() {
                        st.2.update(i as int, false)
                    } else {
                        st.2
                    },
                    None => st.2,
                };
                (st.0, funcs, lifted, true)
            },
            None => st,
        },
        ActionView::UpdateVariableType => (st.0, st.1, st.2, true),
    }
}

/// The state after the first `k` corrections.
pub open spec fn apply_actions(st: RefineState, registry: Seq<(u64, usize)>, acts: Seq<ActionView>, k: int) -> RefineState
    decreases k,
{
    if k <= 0 {
        st
    } else {
        apply_action(apply_actions(st, registry, acts, k - 1), registry, acts[k - 1])
    }
}

/// Whether each workspace function's lifted form is current.
pub open spec fn lifted_flags(ws: Workspace) -> Seq<bool> {
    ws.functions@.map_values(|f: crate::cfg::LiftedFunction| f.is_lifted)
}

/// The state the tables hold, with no change yet.
pub open spec fn refine_state(t: RefinementTables) -> RefineState {
    (u64_string_map_items(t.symbols), function_table_items(t.functions), lifted_flags(t.workspace), false)
}

/// The corrections of a list of feedback entries.
pub open spec fn actions_of(fb: Seq<FeedbackEntry>) -> Seq<ActionView> {
    fb.map_values(|e: FeedbackEntry| action_view(e.action))
}

/// Every signature update proposes no more types than parameters.
pub open spec fn well_sized(fb: Seq<FeedbackEntry>) -> bool {
    forall|k: int|
        0 <= k < fb.len() ==> match #[trigger] fb[k].action {
            RefinementAction::UpdateSignature { param_count, param_types, .. } => param_types@.len() <= param_count,
            _ => true,
        }
}

/// The signature `s` updated to `n` parameters with the known types of
/// `tys`.
fn update_signature(s: SdbCallSignature, n: usize, tys: &Vec<String>) -> (r: SdbCallSignature)
    requires
        tys@.len() <= n,
    ensures
        sig_view(r) == updated_signature(Some(sig_view(s)), n as int, tys@.map_values(|t: String| t@)),
{
    let ghost tv = tys@.map_values(|t: String| t@);
    let ghost base = sig_view(s);
    let mut sig = s;
    sig.params.truncate(n);
    let ghost cut = sig.params@;
    proof {
        assert(cut.map_values(|p: SdbParam| param_view(p)) =~= if base.1.len() >= n {
            base.1.take(n as int)
        } else {
            base.1
        });
    }
    while sig.params.len() < n
        invariant
            cut.len() <= sig.params@.len() <= n,
            sig.params@.take(cut.len() as int) == cut,
            forall|j: int| cut.len() <= j < sig.params@.len() ==> param_view(#[trigger] sig.params@[j]) == placeholder_param(j),
            sig.return_ty@ == base.0,
            sig.calling_conv@ == base.2,
            sig.is_variadic == base.3,
            sig.noreturn == base.4,
        decreases n - sig.params@.len(),
    {
        let i = sig.params.len();
        let mut name = String::new();
        name.append("arg_");
        push_dec(&mut name, i as u64);
        let mut ty = String::new();
        ty.append("unknown");
        let mut location = String::new();
        location.append("unknown");
        let ghost before = sig.params@;
        sig.params.push(SdbParam { name: Some(name), ty, location });
        proof {
            assert(sig.params@.take(cut.len() as int) =~= before.take(cut.len() as int));
        }
    }
    let ghost padded = sig.params@.map_values(|p: SdbParam| param_view(p));
    proof {
        assert(padded =~= resized(base.1, n as int)) by {
            if base.1.len() < n {
                assert forall|j: int| 0 <= j < padded.len() implies padded[j] == resized(base.1, n as int)[j] by {
                    if j < cut.len() {
                        assert(sig.params@.take(cut.len() as int)[j] == cut[j]);
                    }
                };
            } else {
                assert forall|j: int| 0 <= j < padded.len() implies padded[j] == resized(base.1, n as int)[j] by {
                    assert(sig.params@.take(cut.len() as int)[j] == cut[j]);
                };
            }
        };
    }
    let m = sig.params.len();
    for i in 0..tys.len()
        invariant
            tys@.len() <= n,
            m == n,
            sig.params@.len() == n,
            tv == tys@.map_values(|t: String| t@),
            forall|j: int|
                0 <= j < n ==> param_view(#[trigger] sig.params@[j]) == if j < i && tv[j] != "unknown"@ {
                    (padded[j].0, tv[j], padded[j].2)
                } else {
                    padded[j]
                },
            sig.return_ty@ == base.0,
            sig.calling_conv@ == base.2,
            sig.is_variadic == base.3,
            sig.noreturn == base.4,
    {
        proof {
            reveal_strlit("unknown");
        }
        if !str_eq(tys[i].as_str(), "unknown") {
            let t = tys[i].clone();
            sig.params[i].ty = t;
        }
    }
    proof {
        assert(sig_view(sig).1 =~= retyped(padded, tv));
    }
    sig
}

impl RefinementTables {
    /// Queues the feedback and applies its corrections in order: a rename
    /// (of a nonzero address) renames the symbol and the function recorded
    /// there; a signature update resizes and retypes the signature of the
    /// function recorded there (starting from `void` with no parameters)
    /// and marks its workspace function for lifting again; a variable type
    /// change only counts as progress. Returns whether anything changed.
    pub fn apply_feedback(&mut self, feedback: Vec<FeedbackEntry>) -> (progress: bool)
        requires
            well_sized(feedback@),
        ensures
            ({
                let st = apply_actions(
                    refine_state(*old(self)),
                    u64_usize_map_items(old(self).workspace.addr_to_func),
                    actions_of(feedback@),
                    feedback@.len() as int,
                );
                &&& u64_string_map_items(final(self).symbols) == st.0
                &&& function_table_items(final(self).functions) == st.1
                &&& lifted_flags(final(self).workspace) == st.2
                &&& progress == st.3
                &&& final(self).feedback_queue@ == old(self).feedback_queue@ + feedback@
                &&& u64_usize_map_items(final(self).workspace.addr_to_func) == u64_usize_map_items(
                    old(self).workspace.addr_to_func,
                )
                &&& final(self).workspace.functions@.len() == old(self).workspace.functions@.len()
                &&& forall|i: int|
                    0 <= i < old(self).workspace.functions@.len() ==> (#[trigger] final(self).workspace.functions@[i]).entry_addr
                        == old(self).workspace.functions@[i].entry_addr && final(self).workspace.functions@[i].cfg
                        == old(self).workspace.functions@[i].cfg
            }),
    {
        let ghost registry = u64_usize_map_items(self.workspace.addr_to_func);
        let ghost st0 = refine_state(*self);
        let ghost acts = actions_of(feedback@);
        let ghost ws0 = self.workspace.functions@;
        let mut progress = false;
        for k in 0..feedback.len()
            invariant
                well_sized(feedback@),
                acts == actions_of(feedback@),
                registry == u64_usize_map_items(self.workspace.addr_to_func),
                self.feedback_queue == old(self).feedback_queue,
                self.workspace.functions@.len() == ws0.len(),
                forall|i: int|
                    0 <= i < ws0.len() ==> (#[trigger] self.workspace.functions@[i]).entry_addr == ws0[i].entry_addr
                        && self.workspace.functions@[i].cfg == ws0[i].cfg,
                ({
                    let st = apply_actions(st0, registry, acts, k as int);
                    &&& u64_string_map_items(self.symbols) == st.0
                    &&& function_table_items(self.functions) == st.1
                    &&& lifted_flags(self.workspace) == st.2
                    &&& progress == st.3
                }),
        {
            let ghost before = (u64_string_map_items(self.symbols), function_table_items(self.functions), lifted_flags(self.workspace), progress);
            proof {
                assert(acts[k as int] == action_view(feedback@[k as int].action));
            }
            match &feedback[k].action {
                RefinementAction::RenameSymbol { address, old_name: _, new_name } => {
                    let address = *address;
                    if address != 0 {
                        let mut updated = false;
                        if u64_string_map_contains_key(&self.symbols, address) {
                            u64_string_map_insert(&mut self.symbols, address, new_name.clone());
                            updated = true;
                        }
                        match function_table_get(&self.functions, address) {
                            Some(f) => {
                                let mut f = f;
                                f.name = Some(new_name.clone());
                                function_table_insert(&mut self.functions, address, f);
                                updated = true;
                            },
                            None => {},
                        }
                        if updated {
                            progress = true;
                        }
                    }
                },
                RefinementAction::UpdateSignature { address, param_count, param_types } => {
                    let address = *address;
                    proof {
                        assert(param_types@.len() <= *param_count);
                    }
                    match function_table_get(&self.functions, address) {
                        Some(f) => {
                            let mut f = f;
                            let ghost fv = function_view(f);
                            let sig = match f.call_signature {
                                Some(s) => s,
                                None => {
                                    let mut return_ty = String::new();
                                    return_ty.append("void");
                                    let mut calling_conv = String::new();
                                    calling_conv.append("SysV64");
                                    let s = SdbCallSignature {
                                        return_ty,
                                        params: Vec::new(),
                                        calling_conv,
                                        is_variadic: false,
                                        noreturn: false,
                                    };
                                    proof {
                                        assert(sig_view(s) =~= default_signature());
                                    }
                                    s
                                },
                            };
                            let updated = update_signature(sig, *param_count, param_types);
                            f.call_signature = Some(updated);
                            function_table_insert(&mut self.functions, address, f);
                            match self.workspace.function_at(address) {
                                Some(id) => {
                                    if id.0 < self.workspace.functions.len() {
                                        self.workspace.functions[id.0].is_lifted = false;
                                        proof {
                                            assert(lifted_flags(self.workspace) =~= before.2.update(id.0 as int, false));
                                        }
                                    }
                                },
                                None => {},
                            }
                            progress = true;
                        },
                        None => {},
                    }
                },
                RefinementAction::UpdateVariableType => {
                    progress = true;
                },
            }
        }
        let mut queued = feedback;
        self.feedback_queue.append(&mut queued);
        progress
    }
}

} // verus!
