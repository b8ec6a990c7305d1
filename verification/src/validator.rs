//! Proposal validation: the core owns the truth and plugins only propose
//! hypotheses, so each suggestion of a plugin is checked before it is
//! committed.

use vstd::prelude::*;
use indexmap::IndexMap;
use crate::collections::{assoc_get, function_table_get, function_table_items};
use crate::recovered_types::{FunctionView, SdbFunction};
use crate::refinement::{action_view, ActionView, FeedbackEntry, RefinementAction};
use crate::text::{dec, hex_lower, push_dec, push_hex_lower};

verus! {

/// A change a plugin proposes, as far as validation reads it.
#[derive(Debug, Clone)]
pub enum Suggestion {
    /// Rename a symbol.
    RenameSym { current_name: String, proposed_name: String, rationale: String },
    /// Attach a comment.
    AddComment { text: String },
    /// Suggest a type for a value.
    SuggestType,
    /// Propose a recognised idiom over an address range.
    ProposeIdiom,
}

/// A plugin's proposal: its suggestions, in order.
#[derive(Debug, Clone)]
pub struct PluginProposal {
    pub plugin_name: String,
    pub cfg_hash: String,
    pub suggestions: Vec<Suggestion>,
}

/// The verdict on one suggestion.
#[derive(Debug)]
pub struct ValidationResult {
    pub suggestion_index: usize,
    pub accepted: bool,
    pub rejection_reason: Option<String>,
}

pub const EMPTY_NAME_REASON: &'static str = "Proposed name is empty";
pub const EMPTY_COMMENT_REASON: &'static str = "Comment text is empty";

/// `r` is the verdict on suggestion number `index`, `s`: renames need a
/// name and comments need text; type and idiom suggestions are accepted.
pub open spec fn verdict(r: ValidationResult, index: usize, s: Suggestion) -> bool {
    &&& r.suggestion_index == index
    &&& match s {
        Suggestion::RenameSym { proposed_name, .. } => if proposed_name@.len() == 0 {
            !r.accepted && (r.rejection_reason matches Some(m) && m@ == EMPTY_NAME_REASON@)
        } else {
            r.accepted && r.rejection_reason is None
        },
        Suggestion::AddComment { text } => if text@.len() == 0 {
            !r.accepted && (r.rejection_reason matches Some(m) && m@ == EMPTY_COMMENT_REASON@)
        } else {
            r.accepted && r.rejection_reason is None
        },
        _ => r.accepted && r.rejection_reason is None,
    }
}

fn rejected(index: usize, reason: &str) -> (r: ValidationResult)
    ensures
        r.suggestion_index == index,
        !r.accepted,
        r.rejection_reason matches Some(m) && m@ == reason@,
{
    let mut m = String::new();
    m.append(reason);
    ValidationResult { suggestion_index: index, accepted: false, rejection_reason: Some(m) }
}

fn accepted(index: usize) -> (r: ValidationResult)
    ensures
        r.suggestion_index == index,
        r.accepted,
        r.rejection_reason is None,
{
    ValidationResult { suggestion_index: index, accepted: true, rejection_reason: None }
}

/// Validates suggestion number `index`.
pub fn validate_suggestion(index: usize, suggestion: &Suggestion) -> (r: ValidationResult)
    ensures
        verdict(r, index, *suggestion),
{
    match suggestion {
        Suggestion::RenameSym { proposed_name, .. } => {
            if proposed_name.unicode_len() == 0 {
                rejected(index, EMPTY_NAME_REASON)
            } else {
                accepted(index)
            }
        },
        Suggestion::AddComment { text } => {
            if text.unicode_len() == 0 {
                rejected(index, EMPTY_COMMENT_REASON)
            } else {
                accepted(index)
            }
        },
        Suggestion::SuggestType => accepted(index),
        Suggestion::ProposeIdiom => accepted(index),
    }
}

/// Validates all suggestions of a proposal: one verdict per suggestion, in
/// order.
pub fn validate_proposal(proposal: &PluginProposal) -> (r: Vec<ValidationResult>)
    ensures
        r@.len() == proposal.suggestions@.len(),
        forall|i: int|
            0 <= i < r@.len() ==> verdict(#[trigger] r@[i], i as usize, proposal.suggestions@[i]),
{
    let mut r: Vec<ValidationResult> = Vec::new();
    for i in 0..proposal.suggestions.len()
        invariant
            r@.len() == i,
            forall|k: int|
                0 <= k < i ==> verdict(#[trigger] r@[k], k as usize, proposal.suggestions@[k]),
    {
        r.push(validate_suggestion(i, &proposal.suggestions[i]));
    }
    r
}

/// A call in a function's SSA form: its constant target, when it has one,
/// and the number of arguments it passes.
#[derive(Debug, Clone, Copy)]
pub struct SsaCallSite {
    pub target: Option<u64>,
    pub arg_count: usize,
}

/// A finding by its description and correction.
pub type FeedbackView = (Seq<char>, ActionView);

/// The view of a finding.
pub open spec fn feedback_view(f: FeedbackEntry) -> FeedbackView {
    (f.description@, action_view(f.action))
}

/// The finding for a call to `target` with `args` arguments against a
/// signature of `params` parameters.
pub open spec fn arity_finding(target: u64, args: nat, params: nat) -> FeedbackView {
    (
        "Arity mismatch: function at 0x"@ + hex_lower(target as nat) + " called with "@ + dec(args)
            + " args but signature expects "@ + dec(params),
        ActionView::UpdateSignature {
            address: target,
            param_count: args,
            param_types: Seq::new(args, |i: int| "unknown"@),
        },
    )
}

/// The finding for one call site, if its arity contradicts the signature
/// recorded for its constant target (a variadic signature contradicts no
/// arity).
pub open spec fn call_finding(funcs: Seq<(u64, FunctionView)>, c: SsaCallSite) -> Option<FeedbackView> {
    match c.target {
        Some(t) => match assoc_get(funcs, t) {
            Some(f) => match f.2 {
                Some(sig) => if !sig.3 && sig.1.len() != c.arg_count {
                    Some(arity_finding(t, c.arg_count as nat, sig.1.len()))
                } else {
                    None
                },
                None => None,
            },
            None => None,
        },
        None => None,
    }
}

/// The findings of the first `k` call sites.
pub open spec fn call_findings(funcs: Seq<(u64, FunctionView)>, cs: Seq<SsaCallSite>, k: int) -> Seq<FeedbackView>
    decreases k,
{
    if k <= 0 {
        Seq::empty()
    } else {
        let prev = call_findings(funcs, cs, k - 1);
        match call_finding(funcs, cs[k - 1]) {
            Some(f) => prev.push(f),
            None => prev,
        }
    }
}

/// The findings of the first `k` functions; a function without SSA form
/// has none.
pub open spec fn arity_findings(funcs: Seq<(u64, FunctionView)>, calls: Seq<Option<Vec<SsaCallSite>>>, k: int) -> Seq<
    FeedbackView,
>
    decreases k,
{
    if k <= 0 {
        Seq::empty()
    } else {
        arity_findings(funcs, calls, k - 1) + match calls[k - 1] {
            Some(cs) => call_findings(funcs, cs@, cs@.len() as int),
            None => Seq::empty(),
        }
    }
}

/// Checks every call of every function's SSA form against the signature
/// recorded for its target: a non-variadic signature with another number
/// of parameters than the call passes yields a finding that proposes
/// resizing it to the call's arity, with unknown types.
pub fn arity_feedback(functions: &IndexMap<u64, SdbFunction>, calls: &Vec<Option<Vec<SsaCallSite>>>) -> (r: Vec<FeedbackEntry>)
    ensures
        r@.map_values(|f: FeedbackEntry| feedback_view(f)) == arity_findings(
            function_table_items(*functions),
            calls@,
            calls@.len() as int,
        ),
{
    let ghost funcs = function_table_items(*functions);
    let mut out: Vec<FeedbackEntry> = Vec::new();
    for k in 0..calls.len()
        invariant
            funcs == function_table_items(*functions),
            out@.map_values(|f: FeedbackEntry| feedback_view(f)) == arity_findings(funcs, calls@, k as int),
    {
        match &calls[k] {
            Some(cs) => {
                let ghost base = out@.map_values(|f: FeedbackEntry| feedback_view(f));
                for j in 0..cs.len()
                    invariant
                        funcs == function_table_items(*functions),
                        out@.map_values(|f: FeedbackEntry| feedback_view(f)) == base + call_findings(funcs, cs@, j as int),
                {
                    let c = cs[j];
                    match c.target {
                        Some(t) => match function_table_get(functions, t) {
                            Some(f) => match &f.call_signature {
                                Some(sig) => {
                                    let params = sig.params.len();
                                    if !sig.is_variadic && params != c.arg_count {
                                        let mut description = String::new();
                                        description.append("Arity mismatch: function at 0x");
                                        push_hex_lower(&mut description, t);
                                        description.append(" called with ");
                                        push_dec(&mut description, c.arg_count as u64);
                                        description.append(" args but signature expects ");
                                        push_dec(&mut description, params as u64);
                                        let mut param_types: Vec<String> = Vec::new();
                                        for i in 0..c.arg_count
                                            invariant
                                                param_types@.len() == i,
                                                forall|q: int| 0 <= q < i ==> (#[trigger] param_types@[q])@ == "unknown"@,
                                        {
                                            let mut u = String::new();
                                            u.append("unknown");
                                            param_types.push(u);
                                        }
                                        let entry = FeedbackEntry {
                                            description,
                                            action: RefinementAction::UpdateSignature {
                                                address: t,
                                                param_count: c.arg_count,
                                                param_types,
                                            },
                                        };
                                        let ghost prev = out@.map_values(|f: FeedbackEntry| feedback_view(f));
                                        proof {
                                            assert(param_types@.map_values(|t: String| t@) =~= Seq::new(
                                                c.arg_count as nat,
                                                |i: int| "unknown"@,
                                            ));
                                            assert(feedback_view(entry) == arity_finding(t, c.arg_count as nat, params as nat));
                                        }
                                        out.push(entry);
                                        proof {
                                            assert(out@.map_values(|f: FeedbackEntry| feedback_view(f)) =~= prev.push(
                                                feedback_view(entry),
                                            ));
                                        }
                                    }
                                },
                                None => {},
                            },
                            None => {},
                        },
                        None => {},
                    }
                }
            },
            None => {},
        }
    }
    out
}

} // verus!
