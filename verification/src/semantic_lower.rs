//! Semantic lowering: the state transitions of a function's SSA form, each
//! call classified by the resource-state transition that a call to a known
//! API performs, and each store to a constant address a memory write.

use vstd::prelude::*;
use std::collections::BTreeMap;
use indexmap::IndexMap;
use crate::api_tracking::{api_key, api_key_chars, call_name, chars_eq, resolve_call_name};
use crate::cfg::BlockId;
use crate::collections::function_table_items;
use crate::recovered_types::{FunctionView, SdbFunction, SdbImport};

verus! {

/// The state transition a call performs.
#[derive(Debug, Clone, PartialEq, Eq)]
pub enum StateTransition {
    /// Acquires a resource through the call at the address.
    AcquireResource(u64),
    /// Releases a resource through the call at the address.
    ReleaseResource(u64),
    /// Some other state update, with a label.
    UpdateState(u64, String),
}

pub const CALL_LABEL_PREFIX: &'static str = "Call:";

/// The normalised name belongs to an API that acquires a resource.
pub open spec fn is_acquire_api(k: Seq<char>) -> bool {
    k == "createfilea"@ || k == "createfilew"@ || k == "openprocess"@ || k == "openthread"@ || k
        == "socket"@ || k == "accept"@ || k == "malloc"@ || k == "calloc"@ || k == "realloc"@ || k
        == "operator new"@
}

/// The normalised name belongs to an API that releases a resource.
pub open spec fn is_release_api(k: Seq<char>) -> bool {
    k == "closehandle"@ || k == "closesocket"@ || k == "free"@ || k == "operator delete"@ || k
        == "deletefilea"@ || k == "deletefilew"@
}

/// `t` is the transition of a call to `target` named `symbol_name`.
pub open spec fn call_transition(t: StateTransition, target: u64, symbol_name: Seq<char>) -> bool {
    let k = api_key(symbol_name);
    if is_acquire_api(k) {
        t == StateTransition::AcquireResource(target)
    } else if is_release_api(k) {
        t == StateTransition::ReleaseResource(target)
    } else {
        t matches StateTransition::UpdateState(a, label) && a == target && label@
            == CALL_LABEL_PREFIX@ + symbol_name
    }
}

/// Classifies a call to `target` by the callee's symbol name, ignoring
/// leading underscores and ASCII case: resource acquisition, resource
/// release, or a state update labelled `Call:` and the name.
pub fn classify_call(target: u64, symbol_name: &str) -> (r: Option<StateTransition>)
    ensures
        r matches Some(t) && call_transition(t, target, symbol_name@),
{
    let k = api_key_chars(symbol_name);
    if chars_eq(&k, "createfilea") || chars_eq(&k, "createfilew") || chars_eq(&k, "openprocess")
        || chars_eq(&k, "openthread") || chars_eq(&k, "socket") || chars_eq(&k, "accept")
        || chars_eq(&k, "malloc") || chars_eq(&k, "calloc") || chars_eq(&k, "realloc") || chars_eq(
        &k,
        "operator new",
    ) {
        Some(StateTransition::AcquireResource(target))
    } else if chars_eq(&k, "closehandle") || chars_eq(&k, "closesocket") || chars_eq(&k, "free")
        || chars_eq(&k, "operator delete") || chars_eq(&k, "deletefilea") || chars_eq(
        &k,
        "deletefilew",
    ) {
        Some(StateTransition::ReleaseResource(target))
    } else {
        let mut label = String::new();
        label.append(CALL_LABEL_PREFIX);
        label.append(symbol_name);
        Some(StateTransition::UpdateState(target, label))
    }
}

/// A transition as the contracts speak of it.
pub enum TransitionView {
    Acquire(u64),
    Release(u64),
    Update(u64, Seq<char>),
}

/// The view of a transition.
pub open spec fn transition_view(t: StateTransition) -> TransitionView {
    match t {
        StateTransition::AcquireResource(a) => TransitionView::Acquire(a),
        StateTransition::ReleaseResource(a) => TransitionView::Release(a),
        StateTransition::UpdateState(a, label) => TransitionView::Update(a, label@),
    }
}

/// The transition of a call to `target` named `name`.
pub open spec fn named_call(target: u64, name: Seq<char>) -> TransitionView {
    let k = api_key(name);
    if is_acquire_api(k) {
        TransitionView::Acquire(target)
    } else if is_release_api(k) {
        TransitionView::Release(target)
    } else {
        TransitionView::Update(target, CALL_LABEL_PREFIX@ + name)
    }
}

/// The transition of a call to `target` whose name resolved to `name`; a
/// call to an unnamed target is a plain direct call.
pub open spec fn call_view(target: u64, name: Option<Seq<char>>) -> TransitionView {
    match name {
        Some(n) => named_call(target, n),
        None => TransitionView::Update(target, "DirectCall"@),
    }
}

/// An instruction of a function's SSA form, as semantic lowering reads it.
#[derive(Debug, Clone, Copy)]
pub enum SsaOp {
    /// A call, with its target when that is a constant.
    Call { target: Option<u64> },
    /// A store, with its address when that is a constant.
    Store { addr: Option<u64> },
    /// Any other instruction.
    Other,
}

/// A block of a function's SSA form.
#[derive(Debug, Clone)]
pub struct SsaBlockOps {
    pub id: BlockId,
    pub instrs: Vec<SsaOp>,
}

/// A function in SSA form, its blocks in order.
#[derive(Debug, Clone)]
pub struct SsaFunctionOps {
    pub entry_addr: u64,
    pub name: String,
    pub blocks: Vec<SsaBlockOps>,
}

/// A lowered instruction: its number in the function, the address it
/// concerns, and its transition.
#[derive(Debug, Clone)]
pub struct SemanticInstr {
    pub id: usize,
    pub address: u64,
    pub transition: StateTransition,
}

/// The lowered instructions of a block.
#[derive(Debug, Clone)]
pub struct SemanticBlock {
    pub instrs: Vec<SemanticInstr>,
}

/// A function in semantic form: its lowered blocks by block number.
#[derive(Debug)]
pub struct SemanticFunction {
    pub blocks: BTreeMap<usize, SemanticBlock>,
}

/// A lowered instruction by its number, address and transition.
pub type InstrView = (nat, u64, TransitionView);

/// The view of a lowered instruction.
pub open spec fn instr_view(i: SemanticInstr) -> InstrView {
    (i.id as nat, i.address, transition_view(i.transition))
}

/// The view of lowered blocks by number.
pub open spec fn blocks_view(m: Map<usize, SemanticBlock>) -> Map<usize, Seq<InstrView>> {
    m.map_values(|b: SemanticBlock| b.instrs@.map_values(|i: SemanticInstr| instr_view(i)))
}

/// The view of a function in semantic form.
pub open spec fn semantic_view(f: SemanticFunction) -> Map<usize, Seq<InstrView>> {
    blocks_view(f.blocks@)
}

/// The names that the semantic database gives call targets: the first
/// import called through the address, else the function recorded there.
pub open spec fn sdb_names(imports: Seq<SdbImport>, funcs: Seq<(u64, FunctionView)>) -> spec_fn(u64) -> Option<
    Seq<char>,
> {
    |a: u64| call_name(imports, funcs, a)
}

/// No names for any call target.
pub open spec fn no_names() -> spec_fn(u64) -> Option<Seq<char>> {
    |a: u64| None
}

/// The lowered instructions of the first `k` of `ops`, numbered from
/// `first`: a call to a constant target, and a store to a constant address,
/// each give one; other instructions none.
pub open spec fn lowered_ops(
    ops: Seq<SsaOp>,
    names: spec_fn(u64) -> Option<Seq<char>>,
    first: nat,
    k: int,
) -> Seq<InstrView>
    decreases k,
{
    if k <= 0 {
        Seq::empty()
    } else {
        let prev = lowered_ops(ops, names, first, k - 1);
        match ops[k - 1] {
            SsaOp::Call { target: Some(v) } => prev.push((first + prev.len(), v, call_view(v, names(v)))),
            SsaOp::Store { addr: Some(v) } => prev.push(
                (first + prev.len(), v, TransitionView::Update(v, "MemoryWrite"@)),
            ),
            _ => prev,
        }
    }
}

/// The lowered blocks of the first `k` blocks, by block number (a later
/// block with the same number replacing an earlier one), and how many
/// instructions they numbered.
pub open spec fn lowered_blocks(
    blocks: Seq<SsaBlockOps>,
    names: spec_fn(u64) -> Option<Seq<char>>,
    k: int,
) -> (Map<usize, Seq<InstrView>>, nat)
    decreases k,
{
    if k <= 0 {
        (Map::empty(), 0)
    } else {
        let prev = lowered_blocks(blocks, names, k - 1);
        let ops = blocks[k - 1].instrs@;
        let lowered = lowered_ops(ops, names, prev.1, ops.len() as int);
        (prev.0.insert(blocks[k - 1].id as usize, lowered), prev.1 + lowered.len())
    }
}

/// How many SSA instructions the first `k` blocks hold.
pub open spec fn op_count(blocks: Seq<SsaBlockOps>, k: int) -> nat
    decreases k,
{
    if k <= 0 {
        0
    } else {
        op_count(blocks, k - 1) + blocks[k - 1].instrs@.len()
    }
}

/// Earlier blocks hold no more instructions than later ones with them.
proof fn lemma_op_count_grows(blocks: Seq<SsaBlockOps>, i: int, j: int)
    requires
        0 <= i <= j,
    ensures
        op_count(blocks, i) <= op_count(blocks, j),
    decreases j - i,
{
    if i < j {
        lemma_op_count_grows(blocks, i, j - 1);
    }
}

/// Lowering numbers at most as many instructions as it reads.
proof fn lemma_lowered_ops_len(ops: Seq<SsaOp>, names: spec_fn(u64) -> Option<Seq<char>>, first: nat, k: int)
    requires
        0 <= k,
    ensures
        lowered_ops(ops, names, first, k).len() <= k,
    decreases k,
{
    if k > 0 {
        lemma_lowered_ops_len(ops, names, first, k - 1);
    }
}

/// A classified call has the transition its name gives.
proof fn lemma_named_call(t: StateTransition, target: u64, name: Seq<char>)
    requires
        call_transition(t, target, name),
    ensures
        transition_view(t) == named_call(target, name),
{
}

/// Block numbers order as integers do, as the ordered map's contracts
/// ask of its keys.
pub open spec fn block_keys_ordered() -> bool {
    vstd::laws_cmp::obeys_cmp::<usize>()
}

/// Block numbers order as integers do.
proof fn lemma_block_keys_ordered()
    ensures
        block_keys_ordered(),
{
    broadcast use vstd::laws_cmp::group_laws_cmp;
}

/// Lowers `func`, naming call targets through `sdb` (the imports and the
/// function records) where it is given.
fn lower_with(
    func: &SsaFunctionOps,
    sdb: Option<(&Vec<SdbImport>, &IndexMap<u64, SdbFunction>)>,
    Ghost(names): Ghost<spec_fn(u64) -> Option<Seq<char>>>,
) -> (r: SemanticFunction)
    requires
        op_count(func.blocks@, func.blocks@.len() as int) <= usize::MAX,
        names == match sdb {
            Some(p) => sdb_names(p.0@, function_table_items(*p.1)),
            None => no_names(),
        },
    ensures
        semantic_view(r) == lowered_blocks(func.blocks@, names, func.blocks@.len() as int).0,
{
    proof {
        lemma_block_keys_ordered();
    }
    let ghost bs = func.blocks@;
    let mut blocks: BTreeMap<usize, SemanticBlock> = BTreeMap::new();
    let mut instr_id: usize = 0;
    proof {
        assert(blocks_view(blocks@) =~= Map::<usize, Seq<InstrView>>::empty());
    }
    for b in 0..func.blocks.len()
        invariant
            bs == func.blocks@,
            op_count(bs, bs.len() as int) <= usize::MAX,
            block_keys_ordered(),
            names == match sdb {
                Some(p) => sdb_names(p.0@, function_table_items(*p.1)),
                None => no_names(),
            },
            blocks_view(blocks@) == lowered_blocks(bs, names, b as int).0,
            instr_id == lowered_blocks(bs, names, b as int).1,
            instr_id <= op_count(bs, b as int),
    {
        let block = &func.blocks[b];
        let ghost ops = block.instrs@;
        let ghost n0 = instr_id as nat;
        proof {
            assert(op_count(bs, b + 1) == op_count(bs, b as int) + ops.len());
            lemma_op_count_grows(bs, b + 1, bs.len() as int);
        }
        let mut instrs: Vec<SemanticInstr> = Vec::new();
        for k in 0..block.instrs.len()
            invariant
                bs == func.blocks@,
                ops == block.instrs@,
                b < bs.len(),
                block == bs[b as int],
                op_count(bs, b + 1) == op_count(bs, b as int) + ops.len(),
                op_count(bs, b + 1) <= op_count(bs, bs.len() as int),
                op_count(bs, bs.len() as int) <= usize::MAX,
                n0 <= op_count(bs, b as int),
                names == match sdb {
                    Some(p) => sdb_names(p.0@, function_table_items(*p.1)),
                    None => no_names(),
                },
                instrs@.map_values(|i: SemanticInstr| instr_view(i)) == lowered_ops(ops, names, n0, k as int),
                instr_id == n0 + lowered_ops(ops, names, n0, k as int).len(),
        {
            proof {
                lemma_lowered_ops_len(ops, names, n0, k as int);
            }
            match block.instrs[k] {
                SsaOp::Call { target: Some(v) } => {
                    let name = match sdb {
                        Some(p) => resolve_call_name(p.0, p.1, v),
                        None => None,
                    };
                    let transition = match name {
                        Some(n) => {
                            let t = classify_call(v, n.as_str());
                            match t {
                                Some(t) => {
                                    proof {
                                        lemma_named_call(t, v, n@);
                                    }
                                    t
                                },
                                None => StateTransition::UpdateState(v, "DirectCall".to_string()),
                            }
                        },
                        None => {
                            let label = "DirectCall".to_string();
                            proof {
                                assert(label@ == "DirectCall"@);
                            }
                            StateTransition::UpdateState(v, label)
                        },
                    };
                    proof {
                        assert(names(v) == match name {
                            Some(n) => Some(n@),
                            None => None::<Seq<char>>,
                        });
                        assert(transition_view(transition) == call_view(v, names(v)));
                    }
                    let ghost before = instrs@;
                    instrs.push(SemanticInstr { id: instr_id, address: v, transition });
                    proof {
                        assert(instrs@.map_values(|i: SemanticInstr| instr_view(i)) =~= before.map_values(
                            |i: SemanticInstr| instr_view(i),
                        ).push(instr_view(instrs@.last())));
                    }
                    instr_id += 1;
                },
                SsaOp::Store { addr: Some(v) } => {
                    let label = "MemoryWrite".to_string();
                    let ghost before = instrs@;
                    instrs.push(SemanticInstr { id: instr_id, address: v, transition: StateTransition::UpdateState(v, label) });
                    proof {
                        assert(instrs@.map_values(|i: SemanticInstr| instr_view(i)) =~= before.map_values(
                            |i: SemanticInstr| instr_view(i),
                        ).push(instr_view(instrs@.last())));
                    }
                    instr_id += 1;
                },
                _ => {},
            }
        }
        proof {
            lemma_lowered_ops_len(ops, names, n0, ops.len() as int);
        }
        let ghost m0 = blocks@;
        let key = block.id as usize;
        let sb = SemanticBlock { instrs };
        let ghost lowered = sb.instrs@.map_values(|i: SemanticInstr| instr_view(i));
        blocks.insert(key, sb);
        proof {
            assert(blocks_view(blocks@) =~= blocks_view(m0).insert(key, lowered));
        }
    }
    SemanticFunction { blocks }
}

/// Lowers `func` to semantic form without symbol names: block by block, in
/// order, each call to a constant target is a direct call and each store to
/// a constant address a memory write, numbered across the function.
pub fn lower_to_semantic(func: &SsaFunctionOps) -> (r: SemanticFunction)
    requires
        op_count(func.blocks@, func.blocks@.len() as int) <= usize::MAX,
    ensures
        semantic_view(r) == lowered_blocks(func.blocks@, no_names(), func.blocks@.len() as int).0,
{
    lower_with(func, None, Ghost(no_names()))
}

/// Lowers `func` to semantic form, classifying each call to a constant
/// target by the name that the semantic database gives it (the first
/// import called through the address, else the function recorded there);
/// a call to an unnamed target is a direct call.
pub fn lower_to_semantic_with_sdb(
    func: &SsaFunctionOps,
    imports: &Vec<SdbImport>,
    functions: &IndexMap<u64, SdbFunction>,
) -> (r: SemanticFunction)
    requires
        op_count(func.blocks@, func.blocks@.len() as int) <= usize::MAX,
    ensures
        semantic_view(r) == lowered_blocks(
            func.blocks@,
            sdb_names(imports@, function_table_items(*functions)),
            func.blocks@.len() as int,
        ).0,
{
    lower_with(func, Some((imports, functions)), Ghost(sdb_names(imports@, function_table_items(*functions))))
}

} // verus!
