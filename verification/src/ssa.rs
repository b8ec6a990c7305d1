//! The static single assignment form as the analyses read it: versioned
//! register names, expressions, destinations and instructions, grouped in
//! blocks.

use vstd::prelude::*;
use crate::cfg::{BlockId, ControlFlowGraph};
use crate::collections::{
    assoc_get,
    u32_set_contains,
    u32_set_insert,
    u32_set_items,
    u32_set_new,
    lemma_assoc_insert_get,
    u64_usize_map_get,
    u64_usize_map_insert,
    u64_usize_map_items,
    u64_usize_map_new,
};
use crate::dominators::{
    DominanceInfo,
    DominatorTree,
    describes_tree,
    dom_set,
    idom_fits,
    is_immediate_dominator,
    lemma_dom_set_bounds,
    lemma_dom_set_shrinks,
};
use indexmap::{IndexMap, IndexSet};

verus! {

/// A register at one of its versions; version 0 is the value on entry.
#[derive(Debug, Clone, Copy, PartialEq, Eq, Hash, Structural)]
pub struct SsaName {
    pub reg: u32,
    pub version: u32,
}

/// The width of an operand.
#[derive(Debug, Clone, Copy, PartialEq, Eq, Structural)]
pub enum OperandSize {
    Bits8,
    Bits16,
    Bits32,
    Bits64,
    Bits128,
}

/// The width in bytes.
pub open spec fn size_bytes(s: OperandSize) -> u8 {
    match s {
        OperandSize::Bits8 => 1,
        OperandSize::Bits16 => 2,
        OperandSize::Bits32 => 4,
        OperandSize::Bits64 => 8,
        OperandSize::Bits128 => 16,
    }
}

/// The width in bits.
pub open spec fn size_bits(s: OperandSize) -> u16 {
    match s {
        OperandSize::Bits8 => 8,
        OperandSize::Bits16 => 16,
        OperandSize::Bits32 => 32,
        OperandSize::Bits64 => 64,
        OperandSize::Bits128 => 128,
    }
}

impl OperandSize {
    /// The width in bytes.
    pub fn bytes(&self) -> (r: u8)
        ensures
            r == size_bytes(*self),
    {
        match self {
            OperandSize::Bits8 => 1,
            OperandSize::Bits16 => 2,
            OperandSize::Bits32 => 4,
            OperandSize::Bits64 => 8,
            OperandSize::Bits128 => 16,
        }
    }

    /// The width in bits.
    pub fn bits(&self) -> (r: u16)
        ensures
            r == size_bits(*self),
    {
        match self {
            OperandSize::Bits8 => 8,
            OperandSize::Bits16 => 16,
            OperandSize::Bits32 => 32,
            OperandSize::Bits64 => 64,
            OperandSize::Bits128 => 128,
        }
    }
}

/// A binary operation, as the analyses tell them apart.
#[derive(Debug, Clone, Copy, PartialEq, Eq, Structural)]
pub enum BinOp {
    Add,
    Sub,
    CmpE,
    CmpNe,
    CmpSlt,
    CmpSle,
    CmpSgt,
    CmpSge,
    CmpUlt,
    CmpUle,
    CmpUgt,
    CmpUge,
    Other,
}

/// The condition a branch tests on the flags that the last flag-setting
/// instruction computed.
#[derive(Debug, Clone, Copy, PartialEq, Eq, Structural)]
pub enum FlagCondition {
    Equal,
    NotEqual,
    Less,
    LessEq,
    Greater,
    GreaterEq,
    Below,
    BelowEq,
    Above,
    AboveEq,
    Other,
}

/// An expression of the SSA form.
#[derive(Debug)]
pub enum SsaExpr {
    Reg { reg: SsaName },
    Const { value: u64, size: OperandSize },
    Load { addr: Box<SsaExpr>, size: OperandSize },
    BinOp { op: BinOp, lhs: Box<SsaExpr>, rhs: Box<SsaExpr> },
    UnOp { operand: Box<SsaExpr> },
    Sx { expr: Box<SsaExpr> },
    Zx { expr: Box<SsaExpr> },
    /// A condition on the flags the last flag-setting instruction set.
    FlagCond { cond: FlagCondition },
    /// Any other expression, which reads no register or memory.
    Other,
}

/// Where an assignment writes.
#[derive(Debug)]
pub enum SsaDest {
    Reg(SsaName),
    Mem { addr: SsaExpr, size: OperandSize },
}

/// An instruction of the SSA form.
#[derive(Debug)]
pub enum SsaInstr {
    Assign { dest: SsaDest, expr: SsaExpr },
    Store { addr: SsaExpr, value: SsaExpr, size: OperandSize },
    If { cond: SsaExpr, true_target: BlockId, false_target: BlockId },
    Goto { target: BlockId },
    Call { target: SsaExpr, args: Vec<SsaExpr>, ret: Option<SsaName> },
    Return { value: Option<SsaExpr> },
    Intrinsic { inputs: Vec<SsaExpr>, outputs: Vec<SsaName> },
    SetFlags { op: BinOp, lhs: SsaExpr, rhs: SsaExpr },
    /// Any other instruction, which reads nothing the analyses track.
    Other,
}

/// One operand of a phi node: the value `name` flowing in from `block`.
#[derive(Debug, Clone, Copy, PartialEq, Eq, Structural)]
pub struct PhiOperand {
    pub name: SsaName,
    pub block: BlockId,
}

/// A phi node: `result` takes the operand of the predecessor control came
/// from.
#[derive(Debug)]
pub struct PhiNode {
    pub result: SsaName,
    pub operands: Vec<PhiOperand>,
}

/// A block of the SSA form: its phi nodes, then its instructions.
#[derive(Debug)]
pub struct SsaBlock {
    pub id: BlockId,
    pub phis: Vec<PhiNode>,
    pub instrs: Vec<SsaInstr>,
}

/// A function in SSA form, its blocks in order.
#[derive(Debug)]
pub struct SsaFunction {
    pub entry_addr: u64,
    pub name: String,
    pub blocks: Vec<SsaBlock>,
}

/// The instructions of the first `k` blocks, in order.
pub open spec fn instrs_upto(blocks: Seq<SsaBlock>, k: int) -> Seq<SsaInstr>
    decreases k,
{
    if k <= 0 {
        Seq::empty()
    } else {
        instrs_upto(blocks, k - 1) + blocks[k - 1].instrs@
    }
}

/// The instructions of a function, block by block.
pub open spec fn all_instrs(f: SsaFunction) -> Seq<SsaInstr> {
    instrs_upto(f.blocks@, f.blocks@.len() as int)
}


/// A way in which a function breaks the SSA discipline.
#[derive(Debug, Clone, Copy, PartialEq, Eq, Structural)]
pub enum SsaError {
    /// A name is defined more than once.
    MultipleDefs(SsaName),
    /// A name is used but never defined.
    UndefinedUse(SsaName),
    /// The definition of a name, in the first block, does not dominate its
    /// use in the second.
    DefDoesNotDominateUse(SsaName, BlockId, BlockId),
    /// A phi node in the block has the first number of operands, but the
    /// block has the second number of predecessors.
    PhiOperandCountMismatch(BlockId, usize, usize),
}

/// The key under which a name is recorded: its register in the high half,
/// its version in the low half.
pub open spec fn name_key(n: SsaName) -> u64 {
    (n.reg as int * 0x1_0000_0000 + n.version as int) as u64
}

pub proof fn lemma_name_key_injective(a: SsaName, b: SsaName)
    requires
        name_key(a) == name_key(b),
    ensures
        a == b,
{
    let x = a.reg as int * 0x1_0000_0000 + a.version as int;
    let y = b.reg as int * 0x1_0000_0000 + b.version as int;
    assert(x as u64 == x);
    assert(y as u64 == y);
}

pub(crate) fn key_of(n: SsaName) -> (k: u64)
    ensures
        k == name_key(n),
{
    (n.reg as u64) * 4294967296u64 + (n.version as u64)
}

/// The names an instruction defines.
pub open spec fn instr_defs(i: SsaInstr) -> Seq<SsaName> {
    match i {
        SsaInstr::Assign { dest: SsaDest::Reg(r), .. } => seq![r],
        SsaInstr::Call { ret: Some(r), .. } => seq![r],
        SsaInstr::Intrinsic { outputs, .. } => outputs@,
        _ => Seq::empty(),
    }
}

/// The names a sequence of instructions defines, in order.
pub open spec fn instrs_defs(s: Seq<SsaInstr>) -> Seq<SsaName>
    decreases s.len(),
{
    if s.len() == 0 {
        Seq::empty()
    } else {
        instrs_defs(s.drop_last()) + instr_defs(s.last())
    }
}

/// The names phi nodes define, in order.
pub open spec fn phi_results(p: Seq<PhiNode>) -> Seq<SsaName>
    decreases p.len(),
{
    if p.len() == 0 {
        Seq::empty()
    } else {
        phi_results(p.drop_last()).push(p.last().result)
    }
}

/// Each name paired with the block `id`.
pub open spec fn tag(s: Seq<SsaName>, id: BlockId) -> Seq<(SsaName, BlockId)>
    decreases s.len(),
{
    if s.len() == 0 {
        Seq::empty()
    } else {
        tag(s.drop_last(), id).push((s.last(), id))
    }
}

proof fn lemma_tag_single(n: SsaName, id: BlockId)
    ensures
        tag(seq![n], id) == seq![(n, id)],
{
    let s = seq![n];
    assert(s.drop_last() =~= Seq::<SsaName>::empty());
    assert(s.last() == n);
    assert(tag(s.drop_last(), id) == Seq::<(SsaName, BlockId)>::empty());
    assert(tag(s, id) == tag(s.drop_last(), id).push((n, id)));
    assert(Seq::<(SsaName, BlockId)>::empty().push((n, id)) =~= seq![(n, id)]);
}

proof fn lemma_tag_concat(a: Seq<SsaName>, b: Seq<SsaName>, id: BlockId)
    ensures
        tag(a + b, id) == tag(a, id) + tag(b, id),
    decreases b.len(),
{
    if b.len() == 0 {
        assert(a + b =~= a);
        assert(tag(a, id) + tag(b, id) =~= tag(a, id));
    } else {
        assert((a + b).drop_last() =~= a + b.drop_last());
        lemma_tag_concat(a, b.drop_last(), id);
        assert(tag(a, id) + tag(b, id) =~= (tag(a, id) + tag(b.drop_last(), id)).push(
            (b.last(), id),
        ));
    }
}

/// The definitions of a block, each with the block's id: its phi nodes'
/// results, then what its instructions define.
pub open spec fn block_defs(b: SsaBlock) -> Seq<(SsaName, BlockId)> {
    tag(phi_results(b.phis@) + instrs_defs(b.instrs@), b.id)
}

/// The definitions of the first `k` blocks, in order.
pub open spec fn defs_upto(bs: Seq<SsaBlock>, k: int) -> Seq<(SsaName, BlockId)>
    decreases k,
{
    if k <= 0 {
        Seq::empty()
    } else {
        defs_upto(bs, k - 1) + block_defs(bs[k - 1])
    }
}

/// Every definition of a function, with its block.
pub open spec fn all_defs(f: SsaFunction) -> Seq<(SsaName, BlockId)> {
    defs_upto(f.blocks@, f.blocks@.len() as int)
}

/// The block of the last definition among `s` of the name with key `k`.
pub open spec fn def_lookup(s: Seq<(SsaName, BlockId)>, k: u64) -> Option<usize>
    decreases s.len(),
{
    if s.len() == 0 {
        None
    } else if name_key(s.last().0) == k {
        Some(s.last().1 as usize)
    } else {
        def_lookup(s.drop_last(), k)
    }
}

/// One error per definition of a name already defined before it.
pub open spec fn dup_errors(s: Seq<(SsaName, BlockId)>) -> Seq<SsaError>
    decreases s.len(),
{
    if s.len() == 0 {
        Seq::empty()
    } else {
        dup_errors(s.drop_last()) + if def_lookup(s.drop_last(), name_key(s.last().0)) is Some {
            seq![SsaError::MultipleDefs(s.last().0)]
        } else {
            Seq::empty()
        }
    }
}

/// The number of predecessors the graph records for block `id`, zero for
/// a block it does not hold.
pub open spec fn pred_count(g: &ControlFlowGraph, id: BlockId) -> usize {
    if (id as int) < g.blocks@.len() {
        g.blocks@[id as int].predecessors@.len() as usize
    } else {
        0
    }
}

/// One error per phi node whose operand count differs from `pc`.
pub open spec fn phi_errors_block(p: Seq<PhiNode>, id: BlockId, pc: usize) -> Seq<SsaError>
    decreases p.len(),
{
    if p.len() == 0 {
        Seq::empty()
    } else {
        phi_errors_block(p.drop_last(), id, pc) + if p.last().operands@.len() != pc {
            seq![SsaError::PhiOperandCountMismatch(id, p.last().operands@.len() as usize, pc)]
        } else {
            Seq::empty()
        }
    }
}

/// The phi operand-count errors of the first `k` blocks.
pub open spec fn phi_errors_upto(g: &ControlFlowGraph, bs: Seq<SsaBlock>, k: int) -> Seq<SsaError>
    decreases k,
{
    if k <= 0 {
        Seq::empty()
    } else {
        phi_errors_upto(g, bs, k - 1) + phi_errors_block(
            bs[k - 1].phis@,
            bs[k - 1].id,
            pred_count(g, bs[k - 1].id),
        )
    }
}

/// The names an expression reads, left to right.
pub open spec fn expr_uses(e: SsaExpr) -> Seq<SsaName>
    decreases e,
{
    match e {
        SsaExpr::Reg { reg } => seq![reg],
        SsaExpr::Load { addr, .. } => expr_uses(*addr),
        SsaExpr::BinOp { lhs, rhs, .. } => expr_uses(*lhs) + expr_uses(*rhs),
        SsaExpr::UnOp { operand } => expr_uses(*operand),
        SsaExpr::Sx { expr } => expr_uses(*expr),
        SsaExpr::Zx { expr } => expr_uses(*expr),
        _ => Seq::empty(),
    }
}

/// The names a sequence of expressions reads, in order.
pub open spec fn exprs_uses(s: Seq<SsaExpr>) -> Seq<SsaName>
    decreases s.len(),
{
    if s.len() == 0 {
        Seq::empty()
    } else {
        exprs_uses(s.drop_last()) + expr_uses(s.last())
    }
}

/// The names an instruction reads, in the order they are checked.
pub open spec fn instr_uses(i: SsaInstr) -> Seq<SsaName> {
    match i {
        SsaInstr::Assign { dest, expr } => expr_uses(expr) + match dest {
            SsaDest::Mem { addr, .. } => expr_uses(addr),
            _ => Seq::empty(),
        },
        SsaInstr::Store { addr, value, .. } => expr_uses(addr) + expr_uses(value),
        SsaInstr::If { cond, .. } => expr_uses(cond),
        SsaInstr::Call { target, args, .. } => expr_uses(target) + exprs_uses(args@),
        SsaInstr::Return { value: Some(v) } => expr_uses(v),
        SsaInstr::Intrinsic { inputs, .. } => exprs_uses(inputs@),
        SsaInstr::SetFlags { lhs, rhs, .. } => expr_uses(lhs) + expr_uses(rhs),
        _ => Seq::empty(),
    }
}

/// The names a sequence of instructions reads, in order.
pub open spec fn instrs_uses(s: Seq<SsaInstr>) -> Seq<SsaName>
    decreases s.len(),
{
    if s.len() == 0 {
        Seq::empty()
    } else {
        instrs_uses(s.drop_last()) + instr_uses(s.last())
    }
}

/// The uses by phi operands: each operand's name, checked against the
/// block it flows in from.
pub open spec fn ops_uses(o: Seq<PhiOperand>) -> Seq<(SsaName, BlockId)>
    decreases o.len(),
{
    if o.len() == 0 {
        Seq::empty()
    } else {
        ops_uses(o.drop_last()).push((o.last().name, o.last().block))
    }
}

/// The uses by the operands of phi nodes, in order.
pub open spec fn phi_uses(p: Seq<PhiNode>) -> Seq<(SsaName, BlockId)>
    decreases p.len(),
{
    if p.len() == 0 {
        Seq::empty()
    } else {
        phi_uses(p.drop_last()) + ops_uses(p.last().operands@)
    }
}

/// The uses of a block, each with the block it is checked against: its
/// phi operands, then what its instructions read, against the block
/// itself.
pub open spec fn block_uses(b: SsaBlock) -> Seq<(SsaName, BlockId)> {
    phi_uses(b.phis@) + tag(instrs_uses(b.instrs@), b.id)
}

/// The uses of the first `k` blocks.
pub open spec fn uses_upto(bs: Seq<SsaBlock>, k: int) -> Seq<(SsaName, BlockId)>
    decreases k,
{
    if k <= 0 {
        Seq::empty()
    } else {
        uses_upto(bs, k - 1) + block_uses(bs[k - 1])
    }
}

/// Every use in a function.
pub open spec fn all_uses(f: SsaFunction) -> Seq<(SsaName, BlockId)> {
    uses_upto(f.blocks@, f.blocks@.len() as int)
}

/// The error a use gives, if any: none for a version-0 name (the value on
/// entry); for a defined name, one when the block of its last definition
/// does not dominate the block the use is checked against; else one for
/// the missing definition.
pub open spec fn use_error(x: (SsaName, BlockId), d: Seq<(SsaName, BlockId)>, dom: &DominanceInfo) -> Seq<SsaError> {
    if x.0.version == 0 {
        Seq::empty()
    } else {
        match def_lookup(d, name_key(x.0)) {
            Some(db) => if dom.dominates_spec((db as u32) as int, x.1 as int) {
                Seq::empty()
            } else {
                seq![SsaError::DefDoesNotDominateUse(x.0, db as u32, x.1)]
            },
            None => seq![SsaError::UndefinedUse(x.0)],
        }
    }
}

/// The errors of a sequence of uses, in order.
pub open spec fn use_errors(u: Seq<(SsaName, BlockId)>, d: Seq<(SsaName, BlockId)>, dom: &DominanceInfo) -> Seq<SsaError>
    decreases u.len(),
{
    if u.len() == 0 {
        Seq::empty()
    } else {
        use_errors(u.drop_last(), d, dom) + use_error(u.last(), d, dom)
    }
}

/// Everything `validate_ssa` reports, in order: repeated definitions, phi
/// nodes whose operand count differs from their block's predecessor
/// count, then uses that are undefined or not dominated by their
/// definition.
pub open spec fn ssa_errors(f: SsaFunction, g: &ControlFlowGraph, dom: &DominanceInfo) -> Seq<SsaError> {
    dup_errors(all_defs(f)) + phi_errors_upto(g, f.blocks@, f.blocks@.len() as int) + use_errors(
        all_uses(f),
        all_defs(f),
        dom,
    )
}

/// `m` maps each key to the block of the last definition among `seen` of
/// the name with that key.
pub open spec fn def_map_of(m: Seq<(u64, usize)>, seen: Seq<(SsaName, BlockId)>) -> bool {
    forall|k: u64| #[trigger] assoc_get(m, k) == def_lookup(seen, k)
}

/// Records the definition of `name` in `block`, reporting it when the name
/// was defined before.
fn note_def(
    defs: &mut IndexMap<u64, usize>,
    errors: &mut Vec<SsaError>,
    name: SsaName,
    block: BlockId,
    Ghost(seen): Ghost<Seq<(SsaName, BlockId)>>,
)
    requires
        def_map_of(u64_usize_map_items(*old(defs)), seen),
        old(errors)@ == dup_errors(seen),
    ensures
        def_map_of(u64_usize_map_items(*final(defs)), seen.push((name, block))),
        final(errors)@ == dup_errors(seen.push((name, block))),
{
    let ghost m0 = u64_usize_map_items(*defs);
    let k = key_of(name);
    let prev = u64_usize_map_get(defs, k);
    if prev.is_some() {
        errors.push(SsaError::MultipleDefs(name));
    }
    u64_usize_map_insert(defs, k, block as usize);
    proof {
        let s2 = seen.push((name, block));
        assert(s2.drop_last() =~= seen);
        assert forall|k2: u64| #[trigger] assoc_get(u64_usize_map_items(*defs), k2) == def_lookup(s2, k2) by {
            lemma_assoc_insert_get(m0, k, block as usize, k2);
        };
    }
}

/// Checks the use of `name` against block `target`.
fn check_use(
    defs: &IndexMap<u64, usize>,
    dom: &DominanceInfo,
    errors: &mut Vec<SsaError>,
    name: SsaName,
    target: BlockId,
    Ghost(d): Ghost<Seq<(SsaName, BlockId)>>,
    Ghost(pre): Ghost<Seq<SsaError>>,
    Ghost(used): Ghost<Seq<(SsaName, BlockId)>>,
)
    requires
        def_map_of(u64_usize_map_items(*defs), d),
        old(errors)@ == pre + use_errors(used, d, dom),
    ensures
        final(errors)@ == pre + use_errors(used.push((name, target)), d, dom),
{
    proof {
        assert(used.push((name, target)).drop_last() =~= used);
        assert(assoc_get(u64_usize_map_items(*defs), name_key(name)) == def_lookup(d, name_key(name)));
    }
    let ghost e0 = errors@;
    if name.version != 0 {
        match u64_usize_map_get(defs, key_of(name)) {
            Some(db) => {
                if !dom.dominates(db as u32, target) {
                    errors.push(SsaError::DefDoesNotDominateUse(name, db as u32, target));
                }
            },
            None => {
                errors.push(SsaError::UndefinedUse(name));
            },
        }
    }
    proof {
        assert(errors@ =~= pre + use_errors(used.push((name, target)), d, dom));
    }
}


/// Checks, left to right, every name that `e` reads against block
/// `target`.
fn check_expr(
    e: &SsaExpr,
    target: BlockId,
    defs: &IndexMap<u64, usize>,
    dom: &DominanceInfo,
    errors: &mut Vec<SsaError>,
    Ghost(d): Ghost<Seq<(SsaName, BlockId)>>,
    Ghost(pre): Ghost<Seq<SsaError>>,
    Ghost(used): Ghost<Seq<(SsaName, BlockId)>>,
)
    requires
        def_map_of(u64_usize_map_items(*defs), d),
        old(errors)@ == pre + use_errors(used, d, dom),
    ensures
        final(errors)@ == pre + use_errors(used + tag(expr_uses(*e), target), d, dom),
    decreases e,
{
    match e {
        SsaExpr::Reg { reg } => {
            check_use(defs, dom, errors, *reg, target, Ghost(d), Ghost(pre), Ghost(used));
            proof {
                assert(seq![*reg].drop_last() =~= Seq::<SsaName>::empty());
                assert(expr_uses(*e) == seq![*reg]);
                lemma_tag_single(*reg, target);
                assert(used + tag(expr_uses(*e), target) =~= used.push((*reg, target)));
            }
        },
        SsaExpr::Load { addr, .. } => {
            check_expr(addr, target, defs, dom, errors, Ghost(d), Ghost(pre), Ghost(used));
        },
        SsaExpr::BinOp { lhs, rhs, .. } => {
            check_expr(lhs, target, defs, dom, errors, Ghost(d), Ghost(pre), Ghost(used));
            let ghost u1 = used + tag(expr_uses(**lhs), target);
            check_expr(rhs, target, defs, dom, errors, Ghost(d), Ghost(pre), Ghost(u1));
            proof {
                lemma_tag_concat(expr_uses(**lhs), expr_uses(**rhs), target);
                assert(u1 + tag(expr_uses(**rhs), target) =~= used + tag(expr_uses(*e), target));
            }
        },
        SsaExpr::UnOp { operand } => {
            check_expr(operand, target, defs, dom, errors, Ghost(d), Ghost(pre), Ghost(used));
        },
        SsaExpr::Sx { expr } => {
            check_expr(expr, target, defs, dom, errors, Ghost(d), Ghost(pre), Ghost(used));
        },
        SsaExpr::Zx { expr } => {
            check_expr(expr, target, defs, dom, errors, Ghost(d), Ghost(pre), Ghost(used));
        },
        _ => {
            proof {
                assert(used + tag(expr_uses(*e), target) =~= used);
            }
        },
    }
}

/// Checks the names a sequence of expressions reads, in order.
fn check_exprs(
    v: &Vec<SsaExpr>,
    target: BlockId,
    defs: &IndexMap<u64, usize>,
    dom: &DominanceInfo,
    errors: &mut Vec<SsaError>,
    Ghost(d): Ghost<Seq<(SsaName, BlockId)>>,
    Ghost(pre): Ghost<Seq<SsaError>>,
    Ghost(used): Ghost<Seq<(SsaName, BlockId)>>,
)
    requires
        def_map_of(u64_usize_map_items(*defs), d),
        old(errors)@ == pre + use_errors(used, d, dom),
    ensures
        final(errors)@ == pre + use_errors(used + tag(exprs_uses(v@), target), d, dom),
{
    let mut i: usize = 0;
    proof {
        assert(v@.take(0) =~= Seq::<SsaExpr>::empty());
        assert(used + tag(exprs_uses(v@.take(0)), target) =~= used);
    }
    while i < v.len()
        invariant
            def_map_of(u64_usize_map_items(*defs), d),
            i <= v@.len(),
            errors@ == pre + use_errors(used + tag(exprs_uses(v@.take(i as int)), target), d, dom),
        decreases v@.len() - i,
    {
        let ghost u = used + tag(exprs_uses(v@.take(i as int)), target);
        check_expr(&v[i], target, defs, dom, errors, Ghost(d), Ghost(pre), Ghost(u));
        proof {
            assert(v@.take(i + 1).drop_last() =~= v@.take(i as int));
            lemma_tag_concat(exprs_uses(v@.take(i as int)), expr_uses(v@[i as int]), target);
            assert(u + tag(expr_uses(v@[i as int]), target) =~= used + tag(
                exprs_uses(v@.take(i + 1)),
                target,
            ));
        }
        i = i + 1;
    }
    proof {
        assert(v@.take(v@.len() as int) =~= v@);
    }
}

/// Checks the names an instruction reads against block `target`.
fn check_instr(
    ins: &SsaInstr,
    target: BlockId,
    defs: &IndexMap<u64, usize>,
    dom: &DominanceInfo,
    errors: &mut Vec<SsaError>,
    Ghost(d): Ghost<Seq<(SsaName, BlockId)>>,
    Ghost(pre): Ghost<Seq<SsaError>>,
    Ghost(used): Ghost<Seq<(SsaName, BlockId)>>,
)
    requires
        def_map_of(u64_usize_map_items(*defs), d),
        old(errors)@ == pre + use_errors(used, d, dom),
    ensures
        final(errors)@ == pre + use_errors(used + tag(instr_uses(*ins), target), d, dom),
{
    match ins {
        SsaInstr::Assign { dest, expr } => {
            check_expr(expr, target, defs, dom, errors, Ghost(d), Ghost(pre), Ghost(used));
            let ghost u1 = used + tag(expr_uses(*expr), target);
            match dest {
                SsaDest::Mem { addr, .. } => {
                    check_expr(addr, target, defs, dom, errors, Ghost(d), Ghost(pre), Ghost(u1));
                    proof {
                        lemma_tag_concat(expr_uses(*expr), expr_uses(*addr), target);
                        assert(u1 + tag(expr_uses(*addr), target) =~= used + tag(instr_uses(*ins), target));
                    }
                },
                _ => {
                    proof {
                        assert(expr_uses(*expr) + Seq::<SsaName>::empty() =~= expr_uses(*expr));
                    }
                },
            }
        },
        SsaInstr::Store { addr, value, .. } => {
            check_expr(addr, target, defs, dom, errors, Ghost(d), Ghost(pre), Ghost(used));
            let ghost u1 = used + tag(expr_uses(*addr), target);
            check_expr(value, target, defs, dom, errors, Ghost(d), Ghost(pre), Ghost(u1));
            proof {
                lemma_tag_concat(expr_uses(*addr), expr_uses(*value), target);
                assert(u1 + tag(expr_uses(*value), target) =~= used + tag(instr_uses(*ins), target));
            }
        },
        SsaInstr::If { cond, .. } => {
            check_expr(cond, target, defs, dom, errors, Ghost(d), Ghost(pre), Ghost(used));
        },
        SsaInstr::Call { target: t, args, .. } => {
            check_expr(t, target, defs, dom, errors, Ghost(d), Ghost(pre), Ghost(used));
            let ghost u1 = used + tag(expr_uses(*t), target);
            check_exprs(args, target, defs, dom, errors, Ghost(d), Ghost(pre), Ghost(u1));
            proof {
                lemma_tag_concat(expr_uses(*t), exprs_uses(args@), target);
                assert(u1 + tag(exprs_uses(args@), target) =~= used + tag(instr_uses(*ins), target));
            }
        },
        SsaInstr::Return { value } => {
            match value {
                Some(v) => {
                    check_expr(v, target, defs, dom, errors, Ghost(d), Ghost(pre), Ghost(used));
                },
                None => {
                    proof {
                        assert(used + tag(instr_uses(*ins), target) =~= used);
                    }
                },
            }
        },
        SsaInstr::Intrinsic { inputs, .. } => {
            check_exprs(inputs, target, defs, dom, errors, Ghost(d), Ghost(pre), Ghost(used));
        },
        SsaInstr::SetFlags { lhs, rhs, .. } => {
            check_expr(lhs, target, defs, dom, errors, Ghost(d), Ghost(pre), Ghost(used));
            let ghost u1 = used + tag(expr_uses(*lhs), target);
            check_expr(rhs, target, defs, dom, errors, Ghost(d), Ghost(pre), Ghost(u1));
            proof {
                lemma_tag_concat(expr_uses(*lhs), expr_uses(*rhs), target);
                assert(u1 + tag(expr_uses(*rhs), target) =~= used + tag(instr_uses(*ins), target));
            }
        },
        SsaInstr::Goto { .. } | SsaInstr::Other => {
            proof {
                assert(used + tag(instr_uses(*ins), target) =~= used);
            }
        },
    }
}

/// Records the names an instruction defines, in `block`.
fn note_instr_defs(
    ins: &SsaInstr,
    block: BlockId,
    defs: &mut IndexMap<u64, usize>,
    errors: &mut Vec<SsaError>,
    Ghost(seen): Ghost<Seq<(SsaName, BlockId)>>,
)
    requires
        def_map_of(u64_usize_map_items(*old(defs)), seen),
        old(errors)@ == dup_errors(seen),
    ensures
        def_map_of(u64_usize_map_items(*final(defs)), seen + tag(instr_defs(*ins), block)),
        final(errors)@ == dup_errors(seen + tag(instr_defs(*ins), block)),
{
    match ins {
        SsaInstr::Assign { dest: SsaDest::Reg(r), .. } => {
            note_def(defs, errors, *r, block, Ghost(seen));
            proof {
                assert(seq![*r].drop_last() =~= Seq::<SsaName>::empty());
                assert(instr_defs(*ins) == seq![*r]);
                lemma_tag_single(*r, block);
                assert(seen + tag(instr_defs(*ins), block) =~= seen.push((*r, block)));
            }
        },
        SsaInstr::Call { ret: Some(r), .. } => {
            note_def(defs, errors, *r, block, Ghost(seen));
            proof {
                assert(seq![*r].drop_last() =~= Seq::<SsaName>::empty());
                assert(instr_defs(*ins) == seq![*r]);
                lemma_tag_single(*r, block);
                assert(seen + tag(instr_defs(*ins), block) =~= seen.push((*r, block)));
            }
        },
        SsaInstr::Intrinsic { outputs, .. } => {
            let mut q: usize = 0;
            proof {
                assert(outputs@.take(0) =~= Seq::<SsaName>::empty());
                assert(seen + tag(outputs@.take(0), block) =~= seen);
            }
            while q < outputs.len()
                invariant
                    q <= outputs@.len(),
                    def_map_of(u64_usize_map_items(*defs), seen + tag(outputs@.take(q as int), block)),
                    errors@ == dup_errors(seen + tag(outputs@.take(q as int), block)),
                decreases outputs@.len() - q,
            {
                let ghost s1 = seen + tag(outputs@.take(q as int), block);
                note_def(defs, errors, outputs[q], block, Ghost(s1));
                proof {
                    assert(outputs@.take(q + 1).drop_last() =~= outputs@.take(q as int));
                    assert(s1.push((outputs@[q as int], block)) =~= seen + tag(outputs@.take(q + 1), block));
                }
                q = q + 1;
            }
            proof {
                assert(outputs@.take(outputs@.len() as int) =~= outputs@);
            }
        },
        _ => {
            proof {
                assert(seen + tag(instr_defs(*ins), block) =~= seen);
            }
        },
    }
}


/// No name is defined twice among `d`.
pub open spec fn defs_distinct(d: Seq<(SsaName, BlockId)>) -> bool {
    forall|i: int, j: int| 0 <= i < j < d.len() ==> #[trigger] d[i].0 != #[trigger] d[j].0
}

/// `f` keeps the SSA discipline against `g` and `dom`: each name is
/// defined once; each phi node has one operand per predecessor of its
/// block; and each use of a name past version 0 has a definition whose
/// block dominates the block the use is checked against.
pub open spec fn ssa_well_formed(f: SsaFunction, g: &ControlFlowGraph, dom: &DominanceInfo) -> bool {
    let d = all_defs(f);
    let u = all_uses(f);
    &&& defs_distinct(d)
    &&& forall|k: int, p: int|
        0 <= k < f.blocks@.len() && 0 <= p < f.blocks@[k].phis@.len()
            ==> #[trigger] f.blocks@[k].phis@[p].operands@.len() == pred_count(g, f.blocks@[k].id)
    &&& forall|x: int|
        0 <= x < u.len() && (#[trigger] u[x]).0.version != 0 ==> exists|i: int|
            0 <= i < d.len() && #[trigger] d[i].0 == u[x].0 && dom.dominates_spec(
                d[i].1 as int,
                u[x].1 as int,
            )
}

proof fn lemma_lookup_some(s: Seq<(SsaName, BlockId)>, n: SsaName)
    ensures
        def_lookup(s, name_key(n)) is Some <==> exists|i: int| 0 <= i < s.len() && #[trigger] s[i].0 == n,
    decreases s.len(),
{
    if s.len() > 0 {
        lemma_lookup_some(s.drop_last(), n);
        if name_key(s.last().0) == name_key(n) {
            lemma_name_key_injective(s.last().0, n);
            assert(s[s.len() - 1].0 == n);
        } else {
            if exists|i: int| 0 <= i < s.len() && #[trigger] s[i].0 == n {
                let i = choose|i: int| 0 <= i < s.len() && #[trigger] s[i].0 == n;
                assert(i != s.len() - 1);
                assert(s.drop_last()[i].0 == n);
            }
            if exists|i: int| 0 <= i < s.drop_last().len() && #[trigger] s.drop_last()[i].0 == n {
                let i = choose|i: int| 0 <= i < s.drop_last().len() && #[trigger] s.drop_last()[i].0 == n;
                assert(s[i].0 == n);
            }
        }
    }
}

proof fn lemma_lookup_value(s: Seq<(SsaName, BlockId)>, n: SsaName, i: int)
    requires
        defs_distinct(s),
        0 <= i < s.len(),
        s[i].0 == n,
    ensures
        def_lookup(s, name_key(n)) == Some(s[i].1 as usize),
    decreases s.len(),
{
    if name_key(s.last().0) == name_key(n) {
        lemma_name_key_injective(s.last().0, n);
        if i != s.len() - 1 {
            assert(s[i].0 != s[s.len() - 1].0);
        }
    } else {
        assert(i != s.len() - 1);
        assert(defs_distinct(s.drop_last())) by {
            assert forall|a: int, b: int| 0 <= a < b < s.drop_last().len() implies #[trigger] s.drop_last()[a].0
                != #[trigger] s.drop_last()[b].0 by {
                assert(s[a].0 != s[b].0);
            };
        };
        lemma_lookup_value(s.drop_last(), n, i);
    }
}

proof fn lemma_dup_errors_empty(s: Seq<(SsaName, BlockId)>)
    ensures
        dup_errors(s).len() == 0 <==> defs_distinct(s),
    decreases s.len(),
{
    if s.len() > 0 {
        let t = s.drop_last();
        let x = s.last();
        lemma_dup_errors_empty(t);
        lemma_lookup_some(t, x.0);
        if defs_distinct(s) {
            assert(defs_distinct(t)) by {
                assert forall|a: int, b: int| 0 <= a < b < t.len() implies #[trigger] t[a].0 != #[trigger] t[b].0 by {
                    assert(s[a].0 != s[b].0);
                };
            };
            if exists|i: int| 0 <= i < t.len() && #[trigger] t[i].0 == x.0 {
                let i = choose|i: int| 0 <= i < t.len() && #[trigger] t[i].0 == x.0;
                assert(s[i].0 != s[s.len() - 1].0);
            }
        }
        if dup_errors(s).len() == 0 {
            assert forall|a: int, b: int| 0 <= a < b < s.len() implies #[trigger] s[a].0 != #[trigger] s[b].0 by {
                if b == s.len() - 1 {
                    assert(t[a].0 == s[a].0);
                } else {
                    assert(t[a].0 != t[b].0);
                }
            };
        }
    }
}

proof fn lemma_phi_block_empty(p: Seq<PhiNode>, id: BlockId, pc: usize)
    ensures
        phi_errors_block(p, id, pc).len() == 0 <==> forall|q: int|
            0 <= q < p.len() ==> #[trigger] p[q].operands@.len() == pc,
    decreases p.len(),
{
    if p.len() > 0 {
        lemma_phi_block_empty(p.drop_last(), id, pc);
        if phi_errors_block(p, id, pc).len() == 0 {
            assert forall|q: int| 0 <= q < p.len() implies #[trigger] p[q].operands@.len() == pc by {
                if q < p.len() - 1 {
                    assert(p.drop_last()[q] == p[q]);
                }
            };
        }
        if forall|q: int| 0 <= q < p.len() ==> #[trigger] p[q].operands@.len() == pc {
            assert forall|q: int| 0 <= q < p.drop_last().len() implies #[trigger] p.drop_last()[q].operands@.len()
                == pc by {
                assert(p[q].operands@.len() == pc);
            };
            assert(p[p.len() - 1].operands@.len() == pc);
        }
    }
}

proof fn lemma_phi_upto_empty(g: &ControlFlowGraph, bs: Seq<SsaBlock>, k: int)
    requires
        0 <= k <= bs.len(),
    ensures
        phi_errors_upto(g, bs, k).len() == 0 <==> forall|kk: int, p: int|
            0 <= kk < k && 0 <= p < bs[kk].phis@.len() ==> #[trigger] bs[kk].phis@[p].operands@.len()
                == pred_count(g, bs[kk].id),
    decreases k,
{
    if k > 0 {
        lemma_phi_upto_empty(g, bs, k - 1);
        lemma_phi_block_empty(bs[k - 1].phis@, bs[k - 1].id, pred_count(g, bs[k - 1].id));
        if forall|kk: int, p: int|
            0 <= kk < k && 0 <= p < bs[kk].phis@.len() ==> #[trigger] bs[kk].phis@[p].operands@.len()
                == pred_count(g, bs[kk].id) {
            assert forall|q: int| 0 <= q < bs[k - 1].phis@.len() implies #[trigger] bs[k
                - 1].phis@[q].operands@.len() == pred_count(g, bs[k - 1].id) by {
                assert(bs[k - 1].phis@[q].operands@.len() == pred_count(g, bs[k - 1].id));
            };
        }
    }
}

proof fn lemma_use_errors_empty(u: Seq<(SsaName, BlockId)>, d: Seq<(SsaName, BlockId)>, dom: &DominanceInfo)
    ensures
        use_errors(u, d, dom).len() == 0 <==> forall|x: int|
            0 <= x < u.len() ==> #[trigger] use_error(u[x], d, dom).len() == 0,
    decreases u.len(),
{
    if u.len() > 0 {
        lemma_use_errors_empty(u.drop_last(), d, dom);
        if use_errors(u, d, dom).len() == 0 {
            assert forall|x: int| 0 <= x < u.len() implies #[trigger] use_error(u[x], d, dom).len() == 0 by {
                if x < u.len() - 1 {
                    assert(u.drop_last()[x] == u[x]);
                }
            };
        }
        if forall|x: int| 0 <= x < u.len() ==> #[trigger] use_error(u[x], d, dom).len() == 0 {
            assert forall|x: int| 0 <= x < u.drop_last().len() implies #[trigger] use_error(
                u.drop_last()[x],
                d,
                dom,
            ).len() == 0 by {
                assert(use_error(u[x], d, dom).len() == 0);
            };
            assert(use_error(u[u.len() - 1], d, dom).len() == 0);
        }
    }
}

/// `validate_ssa` reports nothing exactly when the function keeps the SSA
/// discipline: every name defined once, every phi node with one operand
/// per predecessor, and every use past version 0 dominated by its
/// definition.
pub proof fn law_no_errors_iff_well_formed(f: SsaFunction, g: &ControlFlowGraph, dom: &DominanceInfo)
    ensures
        ssa_errors(f, g, dom).len() == 0 <==> ssa_well_formed(f, g, dom),
{
    let d = all_defs(f);
    let u = all_uses(f);
    let bs = f.blocks@;
    lemma_dup_errors_empty(d);
    lemma_phi_upto_empty(g, bs, bs.len() as int);
    lemma_use_errors_empty(u, d, dom);
    if defs_distinct(d) {
        assert forall|x: int| 0 <= x < u.len() && (#[trigger] u[x]).0.version != 0 implies (use_error(
            u[x],
            d,
            dom,
        ).len() == 0 <==> exists|i: int|
            0 <= i < d.len() && #[trigger] d[i].0 == u[x].0 && dom.dominates_spec(
                d[i].1 as int,
                u[x].1 as int,
            )) by {
            lemma_lookup_some(d, u[x].0);
            if exists|i: int| 0 <= i < d.len() && #[trigger] d[i].0 == u[x].0 {
                let i = choose|i: int| 0 <= i < d.len() && #[trigger] d[i].0 == u[x].0;
                lemma_lookup_value(d, u[x].0, i);
                if exists|i2: int|
                    0 <= i2 < d.len() && #[trigger] d[i2].0 == u[x].0 && dom.dominates_spec(
                        d[i2].1 as int,
                        u[x].1 as int,
                    ) {
                    let i2 = choose|i2: int|
                        0 <= i2 < d.len() && #[trigger] d[i2].0 == u[x].0 && dom.dominates_spec(
                            d[i2].1 as int,
                            u[x].1 as int,
                        );
                    if i2 != i {
                        if i < i2 {
                            assert(d[i].0 != d[i2].0);
                        } else {
                            assert(d[i2].0 != d[i].0);
                        }
                    }
                }
            }
        };
        if ssa_errors(f, g, dom).len() == 0 {
            assert forall|x: int| 0 <= x < u.len() && (#[trigger] u[x]).0.version != 0 implies exists|i: int|
                0 <= i < d.len() && #[trigger] d[i].0 == u[x].0 && dom.dominates_spec(
                    d[i].1 as int,
                    u[x].1 as int,
                ) by {
                assert(use_error(u[x], d, dom).len() == 0);
            };
        }
        if ssa_well_formed(f, g, dom) {
            assert forall|x: int| 0 <= x < u.len() implies #[trigger] use_error(u[x], d, dom).len() == 0 by {
                if u[x].0.version != 0 {
                }
            };
        }
    }
}

/// Reports where `func` breaks the SSA discipline, against the graph `cfg`
/// and the dominance `dom`: names defined more than once, phi nodes whose
/// operand count differs from their block's predecessor count, and uses
/// of a name (other than at version 0) that is undefined or whose
/// definition does not dominate the use.
pub fn validate_ssa(func: &SsaFunction, cfg: &ControlFlowGraph, dom: &DominanceInfo) -> (r: Vec<SsaError>)
    ensures
        r@ == ssa_errors(*func, cfg, dom),
        r@.len() == 0 <==> ssa_well_formed(*func, cfg, dom),
{
    let mut errors: Vec<SsaError> = Vec::new();
    let mut defs = u64_usize_map_new();
    let ghost bs = func.blocks@;
    let nb = func.blocks.len();
    let mut k: usize = 0;
    while k < nb
        invariant
            bs == func.blocks@,
            nb == bs.len(),
            k <= nb,
            def_map_of(u64_usize_map_items(defs), defs_upto(bs, k as int)),
            errors@ == dup_errors(defs_upto(bs, k as int)),
        decreases nb - k,
    {
        let blk = &func.blocks[k];
        let ghost base = defs_upto(bs, k as int);
        let ghost ph = blk.phis@;
        let mut j: usize = 0;
        proof {
            assert(ph.take(0) =~= Seq::<PhiNode>::empty());
            assert(base + tag(phi_results(ph.take(0)), blk.id) =~= base);
        }
        while j < blk.phis.len()
            invariant
                ph == blk.phis@,
                j <= ph.len(),
                def_map_of(u64_usize_map_items(defs), base + tag(phi_results(ph.take(j as int)), blk.id)),
                errors@ == dup_errors(base + tag(phi_results(ph.take(j as int)), blk.id)),
            decreases ph.len() - j,
        {
            let ghost s1 = base + tag(phi_results(ph.take(j as int)), blk.id);
            note_def(&mut defs, &mut errors, blk.phis[j].result, blk.id, Ghost(s1));
            proof {
                assert(ph.take(j + 1).drop_last() =~= ph.take(j as int));
                let pr = phi_results(ph.take(j + 1));
                assert(pr.drop_last() =~= phi_results(ph.take(j as int)));
                assert(s1.push((ph[j as int].result, blk.id)) =~= base + tag(pr, blk.id));
            }
            j = j + 1;
        }
        proof {
            assert(ph.take(ph.len() as int) =~= ph);
        }
        let ghost pres = phi_results(ph);
        let ghost ins = blk.instrs@;
        let mut i: usize = 0;
        proof {
            assert(ins.take(0) =~= Seq::<SsaInstr>::empty());
            assert(pres + instrs_defs(ins.take(0)) =~= pres);
        }
        while i < blk.instrs.len()
            invariant
                ins == blk.instrs@,
                i <= ins.len(),
                def_map_of(
                    u64_usize_map_items(defs),
                    base + tag(pres + instrs_defs(ins.take(i as int)), blk.id),
                ),
                errors@ == dup_errors(base + tag(pres + instrs_defs(ins.take(i as int)), blk.id)),
            decreases ins.len() - i,
        {
            let ghost s1 = base + tag(pres + instrs_defs(ins.take(i as int)), blk.id);
            note_instr_defs(&blk.instrs[i], blk.id, &mut defs, &mut errors, Ghost(s1));
            proof {
                assert(ins.take(i + 1).drop_last() =~= ins.take(i as int));
                lemma_tag_concat(pres + instrs_defs(ins.take(i as int)), instr_defs(ins[i as int]), blk.id);
                assert(pres + instrs_defs(ins.take(i + 1)) =~= (pres + instrs_defs(ins.take(i as int)))
                    + instr_defs(ins[i as int]));
                assert(s1 + tag(instr_defs(ins[i as int]), blk.id) =~= base + tag(
                    pres + instrs_defs(ins.take(i + 1)),
                    blk.id,
                ));
            }
            i = i + 1;
        }
        proof {
            assert(ins.take(ins.len() as int) =~= ins);
            assert(defs_upto(bs, k + 1) == base + block_defs(bs[k as int]));
        }
        k = k + 1;
    }
    let ghost d = defs_upto(bs, nb as int);
    let ghost e1 = errors@;
    // Phi operand counts against predecessor counts.
    k = 0;
    proof {
        assert(e1 + phi_errors_upto(cfg, bs, 0) =~= e1);
    }
    while k < nb
        invariant
            bs == func.blocks@,
            nb == bs.len(),
            k <= nb,
            errors@ == e1 + phi_errors_upto(cfg, bs, k as int),
        decreases nb - k,
    {
        let blk = &func.blocks[k];
        let pc: usize = if (blk.id as usize) < cfg.blocks.len() {
            cfg.blocks[blk.id as usize].predecessors.len()
        } else {
            0
        };
        let ghost ph = blk.phis@;
        let ghost base = errors@;
        let mut j: usize = 0;
        proof {
            assert(ph.take(0) =~= Seq::<PhiNode>::empty());
            assert(base + phi_errors_block(ph.take(0), blk.id, pc) =~= base);
        }
        while j < blk.phis.len()
            invariant
                ph == blk.phis@,
                j <= ph.len(),
                errors@ == base + phi_errors_block(ph.take(j as int), blk.id, pc),
            decreases ph.len() - j,
        {
            let nops = blk.phis[j].operands.len();
            if nops != pc {
                errors.push(SsaError::PhiOperandCountMismatch(blk.id, nops, pc));
            }
            proof {
                assert(ph.take(j + 1).drop_last() =~= ph.take(j as int));
            }
            j = j + 1;
            proof {
                assert(errors@ =~= base + phi_errors_block(ph.take(j as int), blk.id, pc));
            }
        }
        proof {
            assert(ph.take(ph.len() as int) =~= ph);
            assert(pc == pred_count(cfg, blk.id));
            assert(errors@ =~= e1 + phi_errors_upto(cfg, bs, k + 1));
        }
        k = k + 1;
    }
    let ghost e2 = errors@;
    // Uses, against the definitions collected above.
    k = 0;
    proof {
        assert(e2 + use_errors(uses_upto(bs, 0), d, dom) =~= e2);
    }
    while k < nb
        invariant
            bs == func.blocks@,
            nb == bs.len(),
            k <= nb,
            def_map_of(u64_usize_map_items(defs), d),
            errors@ == e2 + use_errors(uses_upto(bs, k as int), d, dom),
        decreases nb - k,
    {
        let blk = &func.blocks[k];
        let ghost base = uses_upto(bs, k as int);
        let ghost ph = blk.phis@;
        let mut j: usize = 0;
        proof {
            assert(ph.take(0) =~= Seq::<PhiNode>::empty());
            assert(base + phi_uses(ph.take(0)) =~= base);
        }
        while j < blk.phis.len()
            invariant
                ph == blk.phis@,
                j <= ph.len(),
                def_map_of(u64_usize_map_items(defs), d),
                errors@ == e2 + use_errors(base + phi_uses(ph.take(j as int)), d, dom),
            decreases ph.len() - j,
        {
            let ops = &blk.phis[j].operands;
            let ghost ob = base + phi_uses(ph.take(j as int));
            let mut q: usize = 0;
            proof {
                assert(ops@.take(0) =~= Seq::<PhiOperand>::empty());
                assert(ob + ops_uses(ops@.take(0)) =~= ob);
            }
            while q < ops.len()
                invariant
                    ops@ == ph[j as int].operands@,
                    q <= ops@.len(),
                    def_map_of(u64_usize_map_items(defs), d),
                    errors@ == e2 + use_errors(ob + ops_uses(ops@.take(q as int)), d, dom),
                decreases ops@.len() - q,
            {
                let op = ops[q];
                let ghost u = ob + ops_uses(ops@.take(q as int));
                check_use(&defs, dom, &mut errors, op.name, op.block, Ghost(d), Ghost(e2), Ghost(u));
                proof {
                    assert(ops@.take(q + 1).drop_last() =~= ops@.take(q as int));
                    assert(u.push((op.name, op.block)) =~= ob + ops_uses(ops@.take(q + 1)));
                }
                q = q + 1;
            }
            proof {
                assert(ops@.take(ops@.len() as int) =~= ops@);
                assert(ph.take(j + 1).drop_last() =~= ph.take(j as int));
                assert(ob + ops_uses(ops@) =~= base + phi_uses(ph.take(j + 1)));
            }
            j = j + 1;
        }
        proof {
            assert(ph.take(ph.len() as int) =~= ph);
        }
        let ghost pb = base + phi_uses(ph);
        let ghost ins = blk.instrs@;
        let mut i: usize = 0;
        proof {
            assert(ins.take(0) =~= Seq::<SsaInstr>::empty());
            assert(pb + tag(instrs_uses(ins.take(0)), blk.id) =~= pb);
        }
        while i < blk.instrs.len()
            invariant
                ins == blk.instrs@,
                i <= ins.len(),
                def_map_of(u64_usize_map_items(defs), d),
                errors@ == e2 + use_errors(pb + tag(instrs_uses(ins.take(i as int)), blk.id), d, dom),
            decreases ins.len() - i,
        {
            let ghost u = pb + tag(instrs_uses(ins.take(i as int)), blk.id);
            check_instr(&blk.instrs[i], blk.id, &defs, dom, &mut errors, Ghost(d), Ghost(e2), Ghost(u));
            proof {
                assert(ins.take(i + 1).drop_last() =~= ins.take(i as int));
                lemma_tag_concat(instrs_uses(ins.take(i as int)), instr_uses(ins[i as int]), blk.id);
                assert(u + tag(instr_uses(ins[i as int]), blk.id) =~= pb + tag(
                    instrs_uses(ins.take(i + 1)),
                    blk.id,
                ));
            }
            i = i + 1;
        }
        proof {
            assert(ins.take(ins.len() as int) =~= ins);
            assert(pb + tag(instrs_uses(ins), blk.id) =~= uses_upto(bs, k + 1));
        }
        k = k + 1;
    }
    proof {
        law_no_errors_iff_well_formed(*func, cfg, dom);
    }
    errors
}


/// The frontier that `df` records for block `b`: none for a block past its
/// end.
pub open spec fn frontier_of(df: Seq<Vec<BlockId>>, b: BlockId) -> Seq<BlockId> {
    if (b as int) < df.len() {
        df[b as int]@
    } else {
        Seq::empty()
    }
}

/// Every entry of every frontier, in order.
pub open spec fn flat_entries(df: Seq<Vec<BlockId>>) -> Seq<BlockId>
    decreases df.len(),
{
    if df.len() == 0 {
        Seq::empty()
    } else {
        flat_entries(df.drop_last()) + df.last()@
    }
}

proof fn lemma_flat_contains(df: Seq<Vec<BlockId>>, b: int, j: int)
    requires
        0 <= b < df.len(),
        0 <= j < df[b]@.len(),
    ensures
        flat_entries(df).contains(df[b]@[j]),
    decreases df.len(),
{
    let f0 = flat_entries(df.drop_last());
    let f = flat_entries(df);
    if b == df.len() - 1 {
        assert(f[f0.len() + j] == df[b]@[j]);
    } else {
        lemma_flat_contains(df.drop_last(), b, j);
        let i = choose|i: int| 0 <= i < f0.len() && f0[i] == df[b]@[j];
        assert(f[i] == f0[i]);
    }
}

proof fn lemma_added_bound(items: Seq<BlockId>, start: int, fl: Seq<BlockId>)
    requires
        items.no_duplicates(),
        0 <= start <= items.len(),
        forall|k: int| start <= k < items.len() ==> fl.contains(#[trigger] items[k]),
    ensures
        items.len() - start <= fl.len(),
{
    let added = items.skip(start);
    assert(added.no_duplicates()) by {
        assert forall|a: int, b: int| 0 <= a < b < added.len() implies added[a] != added[b] by {
            assert(added[a] == items[a + start]);
            assert(added[b] == items[b + start]);
        };
    };
    added.unique_seq_to_set();
    fl.lemma_cardinality_of_set();
    assert(added.to_set().subset_of(fl.to_set())) by {
        assert forall|x: BlockId| added.to_set().contains(x) implies fl.to_set().contains(x) by {
            let k = choose|k: int| 0 <= k < added.len() && added[k] == x;
            assert(items[k + start] == x);
        };
    };
    vstd::set_lib::lemma_len_subset(added.to_set(), fl.to_set());
}

/// Each block of `e` lies in the frontier of a block of `defs` or of a
/// block listed before it in `e`.
pub open spec fn placed_justified(df: Seq<Vec<BlockId>>, defs: Seq<BlockId>, e: Seq<BlockId>) -> bool {
    forall|i: int| 0 <= i < e.len() ==> #[trigger] justified_at(df, defs, e, i)
}

/// Block `i` of `e` lies in the frontier of a block of `defs` or of a
/// block listed before it in `e`.
pub open spec fn justified_at(df: Seq<Vec<BlockId>>, defs: Seq<BlockId>, e: Seq<BlockId>, i: int) -> bool {
    exists|b: BlockId|
        (defs.contains(b) || e.take(i).contains(b)) && #[trigger] frontier_of(df, b).contains(e[i])
}

/// `e` is where φ-nodes go for a register defined in the blocks `defs`:
/// distinct blocks; every block in the frontier of a defining block or of
/// a block of `e` is in `e`; and each block of `e` lies in the frontier of
/// a defining block or of a block listed before it.
pub open spec fn is_iterated_frontier(df: Seq<Vec<BlockId>>, defs: Seq<BlockId>, e: Seq<BlockId>) -> bool {
    &&& e.no_duplicates()
    &&& forall|b: BlockId, j: int|
        (defs.contains(b) || e.contains(b)) && 0 <= j < frontier_of(df, b).len() ==> e.contains(
            #[trigger] frontier_of(df, b)[j],
        )
    &&& placed_justified(df, defs, e)
}

proof fn lemma_least_at(df: Seq<Vec<BlockId>>, defs: Seq<BlockId>, e: Seq<BlockId>, q: Set<BlockId>, i: int)
    requires
        placed_justified(df, defs, e),
        forall|b: BlockId, j: int|
            (defs.contains(b) || q.contains(b)) && 0 <= j < frontier_of(df, b).len() ==> q.contains(
                #[trigger] frontier_of(df, b)[j],
            ),
        0 <= i < e.len(),
    ensures
        q.contains(e[i]),
    decreases i,
{
    assert(justified_at(df, defs, e, i));
    let b = choose|b: BlockId|
        (defs.contains(b) || e.take(i).contains(b)) && #[trigger] frontier_of(df, b).contains(e[i]);
    if !defs.contains(b) {
        let i2 = choose|i2: int| 0 <= i2 < e.take(i).len() && e.take(i)[i2] == b;
        lemma_least_at(df, defs, e, q, i2);
        assert(e[i2] == b);
    }
    let j = choose|j: int| 0 <= j < frontier_of(df, b).len() && frontier_of(df, b)[j] == e[i];
}

/// φ-nodes go only where they must: every block that `place_phi_nodes`
/// lists lies in every set of blocks that holds the frontier of each
/// defining block and of each of its own blocks. With the closure that
/// `is_iterated_frontier` states, the listed blocks are exactly the least
/// such set: the iterated dominance frontier.
pub proof fn law_phi_blocks_are_least(
    df: Seq<Vec<BlockId>>,
    defs: Seq<BlockId>,
    e: Seq<BlockId>,
    q: Set<BlockId>,
)
    requires
        is_iterated_frontier(df, defs, e),
        forall|b: BlockId, j: int|
            (defs.contains(b) || q.contains(b)) && 0 <= j < frontier_of(df, b).len() ==> q.contains(
                #[trigger] frontier_of(df, b)[j],
            ),
    ensures
        forall|i: int| 0 <= i < e.len() ==> q.contains(#[trigger] e[i]),
{
    assert forall|i: int| 0 <= i < e.len() implies q.contains(#[trigger] e[i]) by {
        lemma_least_at(df, defs, e, q, i);
    };
}

/// The blocks of the φ-nodes placed, in order.
pub open spec fn phi_blocks(r: Seq<(BlockId, PhiNode)>) -> Seq<BlockId> {
    r.map_values(|p: (BlockId, PhiNode)| p.0)
}

/// The immediate dominator that `t` records for block `r`.
pub open spec fn idom_of(t: &DominatorTree, r: BlockId) -> Option<BlockId> {
    if (r as int) < t.idom@.len() {
        t.idom@[r as int]
    } else {
        None
    }
}

/// The blocks a runner starting at `r` visits on its way up the dominator
/// tree: each block until `stop`, or until one without an immediate
/// dominator (which is visited); `None` when `fuel` steps do not end the
/// walk.
pub open spec fn runner_path(t: &DominatorTree, r: BlockId, stop: Option<BlockId>, fuel: nat) -> Option<
    Seq<BlockId>,
>
    decreases fuel,
{
    if stop == Some(r) {
        Some(Seq::empty())
    } else if fuel == 0 {
        None
    } else {
        match idom_of(t, r) {
            Some(i) => match runner_path(t, i, stop, (fuel - 1) as nat) {
                Some(rest) => Some(seq![r] + rest),
                None => None,
            },
            None => Some(seq![r]),
        }
    }
}

/// `y` appended to the frontier of each block of `path`, in order.
pub open spec fn push_all(df: Seq<Seq<BlockId>>, path: Seq<BlockId>, y: BlockId) -> Seq<Seq<BlockId>>
    decreases path.len(),
{
    if path.len() == 0 {
        df
    } else {
        let d = push_all(df, path.drop_last(), y);
        d.update(path.last() as int, d[path.last() as int].push(y))
    }
}

/// The walk of the runner that starts at predecessor `k` of block `y`.
pub open spec fn walk_of(g: &ControlFlowGraph, t: &DominatorTree, y: BlockId, k: int) -> Seq<BlockId> {
    match runner_path(t, g.blocks@[y as int].predecessors@[k], idom_of(t, y), (g.blocks@.len() + 1) as nat) {
        Some(p) => p,
        None => Seq::empty(),
    }
}

/// The frontier table after the runners of the first `k` predecessors of
/// `y` have added `y`.
pub open spec fn df_preds(g: &ControlFlowGraph, t: &DominatorTree, y: BlockId, k: int, start: Seq<Seq<BlockId>>) -> Seq<
    Seq<BlockId>,
>
    decreases k,
{
    if k <= 0 {
        start
    } else {
        push_all(df_preds(g, t, y, k - 1, start), walk_of(g, t, y, k - 1), y)
    }
}

/// The frontier table after the join points among the first `m` blocks:
/// for each block with two or more predecessors, a runner from each
/// predecessor climbs the dominator tree up to the block's immediate
/// dominator, adding the block to the frontier of each block it passes.
pub open spec fn df_upto(g: &ControlFlowGraph, t: &DominatorTree, m: int) -> Seq<Seq<BlockId>>
    decreases m,
{
    if m <= 0 {
        Seq::new(g.blocks@.len(), |i: int| Seq::<BlockId>::empty())
    } else {
        let prev = df_upto(g, t, m - 1);
        let ps = g.blocks@[m - 1].predecessors@;
        if ps.len() < 2 {
            prev
        } else {
            df_preds(g, t, (m - 1) as u32, ps.len() as int, prev)
        }
    }
}

/// The frontier lists as sequences.
pub open spec fn deep_lists(df: Seq<Vec<BlockId>>) -> Seq<Seq<BlockId>> {
    Seq::new(df.len(), |i: int| df[i]@)
}

/// Every runner walk of the graph ends, within one step per block.
pub open spec fn runners_end(g: &ControlFlowGraph, t: &DominatorTree) -> bool {
    forall|y: int, k: int|
        0 <= y < g.blocks@.len() && g.blocks@[y].predecessors@.len() >= 2 && 0 <= k
            < g.blocks@[y].predecessors@.len() ==> (#[trigger] runner_path(
            t,
            g.blocks@[y].predecessors@[k],
            idom_of(t, y as u32),
            (g.blocks@.len() + 1) as nat,
        )) is Some
}

/// The dominator tree names only blocks of the graph.
pub open spec fn tree_in_graph(g: &ControlFlowGraph, t: &DominatorTree) -> bool {
    &&& t.idom@.len() == g.blocks@.len()
    &&& forall|r: int| 0 <= r < t.idom@.len() ==> (#[trigger] t.idom@[r] matches Some(d) ==> d < g.blocks@.len())
}

proof fn lemma_runner_ends(g: &ControlFlowGraph, t: &DominatorTree, r: BlockId, stop: Option<BlockId>, fuel: nat)
    requires
        g.wf(),
        describes_tree(g, *t),
        (r as int) < g.blocks@.len(),
        fuel >= dom_set(g, r as int).len(),
    ensures
        runner_path(t, r, stop, fuel) is Some,
    decreases fuel,
{
    lemma_dom_set_bounds(g, r as int);
    if stop != Some(r) {
        assert(idom_fits(g, t.idom@[r as int], r as int));
        match idom_of(t, r) {
            Some(d) => {
                assert(is_immediate_dominator(g, d as int, r as int));
                lemma_dom_set_shrinks(g, d as int, r as int);
                lemma_runner_ends(g, t, d, stop, (fuel - 1) as nat);
            },
            None => {},
        }
    }
}

/// The dominator tree of a graph lets every runner walk of
/// `dominance_frontiers` end: each step climbs to a strict dominator,
/// which has fewer dominators, so no walk outlasts one step per block.
pub proof fn law_dominator_tree_runners_end(g: &ControlFlowGraph, t: &DominatorTree)
    requires
        g.wf(),
        describes_tree(g, *t),
    ensures
        tree_in_graph(g, t),
        runners_end(g, t),
{
    let n = g.blocks@.len();
    assert forall|r: int| 0 <= r < t.idom@.len() implies (#[trigger] t.idom@[r] matches Some(d) ==> d < n) by {
        assert(idom_fits(g, t.idom@[r], r));
    };
    assert forall|y: int, k: int|
        0 <= y < n && g.blocks@[y].predecessors@.len() >= 2 && 0 <= k < g.blocks@[y].predecessors@.len()
            implies (#[trigger] runner_path(
            t,
            g.blocks@[y].predecessors@[k],
            idom_of(t, y as u32),
            (n + 1) as nat,
        )) is Some by {
        let p = g.blocks@[y].predecessors@[k];
        lemma_dom_set_bounds(g, p as int);
        lemma_runner_ends(g, t, p, idom_of(t, y as u32), (n + 1) as nat);
    };
}

/// Builds the SSA form over a control-flow graph and its dominance.
pub struct SsaBuilder<'a> {
    pub cfg: &'a ControlFlowGraph,
    pub dom: &'a DominanceInfo,
}

impl<'a> SsaBuilder<'a> {
    /// A builder over `cfg` and its dominance `dom`.
    pub fn new(cfg: &'a ControlFlowGraph, dom: &'a DominanceInfo) -> (b: Self)
        ensures
            b.cfg == cfg,
            b.dom == dom,
    {
        SsaBuilder { cfg, dom }
    }

    /// The dominance frontier of each block, indexed by block: for each
    /// block with two or more predecessors, a runner from each predecessor
    /// climbs the dominator tree up to the block's immediate dominator and
    /// adds the block to the frontier of each block it passes.
    pub fn dominance_frontiers(&self) -> (df: Vec<Vec<BlockId>>)
        requires
            self.cfg.wf(),
            tree_in_graph(self.cfg, &self.dom.tree),
            runners_end(self.cfg, &self.dom.tree),
        ensures
            deep_lists(df@) == df_upto(self.cfg, &self.dom.tree, self.cfg.blocks@.len() as int),
    {
        let g = self.cfg;
        let t = &self.dom.tree;
        let n = g.blocks.len();
        let mut df: Vec<Vec<BlockId>> = Vec::new();
        let mut i: usize = 0;
        while i < n
            invariant
                i <= n,
                df@.len() == i,
                forall|j: int| 0 <= j < i ==> (#[trigger] df@[j])@.len() == 0,
            decreases n - i,
        {
            df.push(Vec::new());
            i = i + 1;
        }
        proof {
            assert forall|j: int| 0 <= j < n implies #[trigger] deep_lists(df@)[j] == df_upto(g, t, 0)[j] by {
                assert(df@[j]@ =~= Seq::<BlockId>::empty());
            };
            assert(deep_lists(df@) =~= df_upto(g, t, 0));
        }
        let mut m: usize = 0;
        while m < n
            invariant
                g.wf(),
                tree_in_graph(g, t),
                runners_end(g, t),
                n == g.blocks@.len(),
                m <= n,
                df@.len() == n,
                deep_lists(df@) == df_upto(g, t, m as int),
            decreases n - m,
        {
            let preds = &g.blocks[m].predecessors;
            if preds.len() >= 2 {
                let stop: Option<BlockId> = t.idom[m];
                let ghost start = deep_lists(df@);
                let mut k: usize = 0;
                while k < preds.len()
                    invariant
                        g.wf(),
                        tree_in_graph(g, t),
                        runners_end(g, t),
                        n == g.blocks@.len(),
                        m < n,
                        preds@ == g.blocks@[m as int].predecessors@,
                        preds@.len() >= 2,
                        stop == idom_of(t, m as u32),
                        k <= preds@.len(),
                        df@.len() == n,
                        start == df_upto(g, t, m as int),
                        deep_lists(df@) == df_preds(g, t, m as u32, k as int, start),
                    decreases preds@.len() - k,
                {
                    let p = preds[k];
                    proof {
                        assert(g.blocks@[m as int].predecessors@[k as int] < n);
                    }
                    let ghost walk = walk_of(g, t, m as u32, k as int);
                    let ghost before = deep_lists(df@);
                    let mut runner = p;
                    let ghost mut fuel: nat = (n + 1) as nat;
                    let ghost mut visited: Seq<BlockId> = Seq::empty();
                    let mut done = match stop {
                        Some(s) => s == runner,
                        None => false,
                    };
                    proof {
                        assert(runner_path(t, p, stop, (n + 1) as nat) is Some);
                        assert(visited + walk =~= walk);
                    }
                    while !done
                        invariant
                            tree_in_graph(g, t),
                            n == g.blocks@.len(),
                            df@.len() == n,
                            runner < n,
                            done ==> walk == visited,
                            !done ==> runner_path(t, runner, stop, fuel) is Some,
                            !done ==> stop != Some(runner),
                            !done ==> walk == visited + runner_path(t, runner, stop, fuel)->0,
                            deep_lists(df@) == push_all(before, visited, m as u32),
                        decreases fuel,
                    {
                        let ghost d0 = deep_lists(df@);
                        let mut tmp: Vec<BlockId> = Vec::new();
                        std::mem::swap(&mut tmp, &mut df[runner as usize]);
                        tmp.push(m as u32);
                        std::mem::swap(&mut tmp, &mut df[runner as usize]);
                        proof {
                            let v2 = visited.push(runner);
                            assert(v2.drop_last() =~= visited);
                            assert(deep_lists(df@) =~= d0.update(runner as int, d0[runner as int].push(m as u32)));
                            visited = v2;
                        }
                        match t.idom[runner as usize] {
                            Some(next) => {
                                proof {
                                    let rest = runner_path(t, next, stop, (fuel - 1) as nat)->0;
                                    assert(walk == visited + rest) by {
                                        assert(seq![runner] + rest =~= seq![runner].add(rest));
                                        assert((visited.drop_last() + (seq![runner] + rest)) =~= visited + rest);
                                    };
                                    fuel = (fuel - 1) as nat;
                                }
                                runner = next;
                                done = match stop {
                                    Some(s) => s == runner,
                                    None => false,
                                };
                                proof {
                                    if done {
                                        assert(visited + Seq::<BlockId>::empty() =~= visited);
                                    }
                                }
                            },
                            None => {
                                proof {
                                    assert(visited.drop_last() + seq![runner] =~= visited);
                                    fuel = (fuel - 1) as nat;
                                }
                                done = true;
                            },
                        }
                    }
                    proof {
                        assert(preds@[k as int] == g.blocks@[m as int].predecessors@[k as int]);
                    }
                    k = k + 1;
                }
            }
            m = m + 1;
        }
        df
    }

    /// Places φ-nodes for register `reg`, defined in the blocks
    /// `def_blocks`, at the iterated dominance frontier that `df` records
    /// (indexed by block): each φ-node's result is the register at version
    /// 0, to be renamed later, and it has no operands yet.
    pub fn place_phi_nodes(&self, reg: u32, def_blocks: &[BlockId], df: &Vec<Vec<BlockId>>) -> (r: Vec<(BlockId, PhiNode)>)
        ensures
            is_iterated_frontier(df@, def_blocks@, phi_blocks(r@)),
            forall|i: int|
                0 <= i < r@.len() ==> (#[trigger] r@[i]).1.result == (SsaName { reg, version: 0 })
                    && r@[i].1.operands@.len() == 0,
    {
        let ghost defs = def_blocks@;
        let ghost fl = flat_entries(df@);
        let mut work: Vec<BlockId> = Vec::new();
        let mut in_wl = u32_set_new();
        let mut i: usize = 0;
        while i < def_blocks.len()
            invariant
                defs == def_blocks@,
                i <= defs.len(),
                work@ == defs.take(i as int),
                u32_set_items(in_wl).no_duplicates(),
                forall|x: BlockId| u32_set_items(in_wl).contains(x) <==> defs.take(i as int).contains(x),
            decreases defs.len() - i,
        {
            let ghost w0 = u32_set_items(in_wl);
            u32_set_insert(&mut in_wl, def_blocks[i]);
            work.push(def_blocks[i]);
            proof {
                let t1 = defs.take(i + 1);
                let t0 = defs.take(i as int);
                let w1 = u32_set_items(in_wl);
                let d = defs[i as int];
                assert(t1 =~= t0.push(d));
                assert(t1[i as int] == d);
                assert(w1.contains(d)) by {
                    if w1 != w0 {
                        assert(w1[w0.len() as int] == d);
                    }
                };
                assert forall|x: BlockId| w0.contains(x) implies w1.contains(x) by {
                    let q = choose|q: int| 0 <= q < w0.len() && w0[q] == x;
                    assert(w1[q] == x);
                };
                assert forall|x: BlockId| w1.contains(x) && x != d implies w0.contains(x) by {
                    let q = choose|q: int| 0 <= q < w1.len() && w1[q] == x;
                    if w1 != w0 {
                        assert(q < w0.len());
                        assert(w0[q] == x);
                    }
                };
                assert forall|x: BlockId| t1.contains(x) && x != d implies t0.contains(x) by {
                    let k = choose|k: int| 0 <= k < t1.len() && t1[k] == x;
                    assert(t0[k] == x);
                };
                assert forall|x: BlockId| t0.contains(x) implies t1.contains(x) by {
                    let k = choose|k: int| 0 <= k < t0.len() && t0[k] == x;
                    assert(t1[k] == x);
                };
            }
            i = i + 1;
        }
        proof {
            assert(defs.take(defs.len() as int) =~= defs);
        }
        let ghost w_init = u32_set_items(in_wl);
        let mut placed = u32_set_new();
        let mut out: Vec<(BlockId, PhiNode)> = Vec::new();
        proof {
            assert(phi_blocks(out@) =~= u32_set_items(placed));
            assert(w_init.skip(w_init.len() as int) =~= Seq::<BlockId>::empty());
        }
        while work.len() > 0
            invariant
                defs == def_blocks@,
                fl == flat_entries(df@),
                phi_blocks(out@) == u32_set_items(placed),
                u32_set_items(placed).no_duplicates(),
                u32_set_items(in_wl).no_duplicates(),
                w_init.len() <= u32_set_items(in_wl).len(),
                forall|k: int| 0 <= k < w_init.len() ==> #[trigger] u32_set_items(in_wl)[k] == w_init[k],
                forall|x: BlockId| w_init.contains(x) <==> defs.contains(x),
                forall|k: int|
                    w_init.len() <= k < u32_set_items(in_wl).len() ==> fl.contains(
                        #[trigger] u32_set_items(in_wl)[k],
                    ),
                forall|i2: int|
                    0 <= i2 < out@.len() ==> (#[trigger] out@[i2]).1.result == (SsaName { reg, version: 0 })
                        && out@[i2].1.operands@.len() == 0,
                forall|x: BlockId|
                    u32_set_items(in_wl).contains(x) ==> defs.contains(x) || u32_set_items(placed).contains(x),
                forall|x: BlockId|
                    #![trigger defs.contains(x)]
                    #![trigger u32_set_items(placed).contains(x)]
                    defs.contains(x) || u32_set_items(placed).contains(x) ==> u32_set_items(in_wl).contains(x),
                forall|j: int| 0 <= j < work@.len() ==> u32_set_items(in_wl).contains(#[trigger] work@[j]),
                forall|b: BlockId, j: int|
                    u32_set_items(in_wl).contains(b) && !work@.contains(b) && 0 <= j < frontier_of(df@, b).len()
                        ==> u32_set_items(placed).contains(#[trigger] frontier_of(df@, b)[j]),
                placed_justified(df@, defs, u32_set_items(placed)),
            decreases fl.len() - (u32_set_items(in_wl).len() - w_init.len()), work@.len(),
        {
            proof {
                lemma_added_bound(u32_set_items(in_wl), w_init.len() as int, fl);
            }
            let ghost meas1 = fl.len() - (u32_set_items(in_wl).len() - w_init.len());
            let ghost work0 = work@;
            let b = work.pop().unwrap();
            let ghost work1 = work@;
            let f = if (b as usize) < df.len() {
                &df[b as usize]
            } else {
                proof {
                    assert(frontier_of(df@, b) =~= Seq::<BlockId>::empty());
                }
                &Vec::new()
            };
            proof {
                assert(f@ == frontier_of(df@, b));
                assert(work0 == work1.push(b));
                assert(u32_set_items(in_wl).contains(b)) by {
                    assert(work0[work0.len() - 1] == b);
                };
            }
            let mut k: usize = 0;
            while k < f.len()
                invariant
                    defs == def_blocks@,
                    fl == flat_entries(df@),
                    f@ == frontier_of(df@, b),
                    k <= f@.len(),
                    u32_set_items(in_wl).contains(b),
                    phi_blocks(out@) == u32_set_items(placed),
                    u32_set_items(placed).no_duplicates(),
                    u32_set_items(in_wl).no_duplicates(),
                    w_init.len() <= u32_set_items(in_wl).len(),
                    forall|k2: int| 0 <= k2 < w_init.len() ==> #[trigger] u32_set_items(in_wl)[k2] == w_init[k2],
                    forall|x: BlockId| w_init.contains(x) <==> defs.contains(x),
                    forall|k2: int|
                        w_init.len() <= k2 < u32_set_items(in_wl).len() ==> fl.contains(
                            #[trigger] u32_set_items(in_wl)[k2],
                        ),
                    forall|i2: int|
                        0 <= i2 < out@.len() ==> (#[trigger] out@[i2]).1.result == (SsaName { reg, version: 0 })
                            && out@[i2].1.operands@.len() == 0,
                    forall|x: BlockId|
                        u32_set_items(in_wl).contains(x) ==> defs.contains(x) || u32_set_items(placed).contains(x),
                    forall|x: BlockId|
                        #![trigger defs.contains(x)]
                        #![trigger u32_set_items(placed).contains(x)]
                        defs.contains(x) || u32_set_items(placed).contains(x) ==> u32_set_items(in_wl).contains(x),
                    forall|j: int| 0 <= j < work@.len() ==> u32_set_items(in_wl).contains(#[trigger] work@[j]),
                    forall|b2: BlockId, j: int|
                        u32_set_items(in_wl).contains(b2) && !work@.contains(b2) && b2 != b && 0 <= j
                            < frontier_of(df@, b2).len() ==> u32_set_items(placed).contains(
                            #[trigger] frontier_of(df@, b2)[j],
                        ),
                    forall|j: int| 0 <= j < k ==> u32_set_items(placed).contains(#[trigger] f@[j]),
                    placed_justified(df@, defs, u32_set_items(placed)),
                    u32_set_items(in_wl).len() - w_init.len() <= fl.len(),
                    fl.len() - (u32_set_items(in_wl).len() - w_init.len()) < meas1 || (fl.len() - (
                    u32_set_items(in_wl).len() - w_init.len()) == meas1 && work@.len() < work0.len()),
                decreases f@.len() - k,
            {
                let y = f[k];
                proof {
                    if (b as int) < df@.len() {
                        lemma_flat_contains(df@, b as int, k as int);
                    }
                }
                if !u32_set_contains(&placed, y) {
                    let ghost p0 = u32_set_items(placed);
                    let ghost w0 = u32_set_items(in_wl);
                    let ghost o0 = out@;
                    u32_set_insert(&mut placed, y);
                    out.push((y, PhiNode { result: SsaName { reg, version: 0 }, operands: Vec::new() }));
                    proof {
                        assert(phi_blocks(out@) =~= u32_set_items(placed));
                        let pl = u32_set_items(placed);
                        assert(pl.take(p0.len() as int) =~= p0);
                        assert forall|i2: int| 0 <= i2 < pl.len() implies #[trigger] justified_at(df@, defs, pl, i2) by {
                            if i2 == p0.len() {
                                assert(f@[k as int] == y);
                                assert(frontier_of(df@, b).contains(pl[i2]));
                                if !defs.contains(b) {
                                    assert(p0.contains(b));
                                }
                                assert(defs.contains(b) || pl.take(i2).contains(b));
                            } else {
                                assert(pl[i2] == p0[i2]);
                                assert(pl.take(i2) =~= p0.take(i2));
                                assert(justified_at(df@, defs, p0, i2));
                                let w = choose|w: BlockId|
                                    (defs.contains(w) || p0.take(i2).contains(w)) && #[trigger] frontier_of(df@, w).contains(p0[i2]);
                                assert(defs.contains(w) || pl.take(i2).contains(w));
                                assert(frontier_of(df@, w).contains(pl[i2]));
                            }
                        };
                        assert(placed_justified(df@, defs, pl));
                    }
                    let ghost wk0 = work@;
                    if !u32_set_contains(&in_wl, y) {
                        u32_set_insert(&mut in_wl, y);
                        work.push(y);
                        proof {
                            assert(u32_set_items(in_wl)[w0.len() as int] == y);
                            assert(work@[work@.len() - 1] == y);
                        }
                    }
                    proof {
                        let w1 = u32_set_items(in_wl);
                        let p1 = u32_set_items(placed);
                        assert(p1[p0.len() as int] == y);
                        assert(w1.contains(y));
                        assert forall|x: BlockId| w0.contains(x) implies w1.contains(x) by {
                            let q = choose|q: int| 0 <= q < w0.len() && w0[q] == x;
                            assert(w1[q] == x);
                        };
                        assert forall|x: BlockId| w1.contains(x) && x != y implies w0.contains(x) by {
                            let q = choose|q: int| 0 <= q < w1.len() && w1[q] == x;
                            if w1 != w0 {
                                assert(w0[q] == x);
                            }
                        };
                        assert forall|x: BlockId| p0.contains(x) implies p1.contains(x) by {
                            let q = choose|q: int| 0 <= q < p0.len() && p0[q] == x;
                            assert(p1[q] == x);
                        };
                        assert forall|x: BlockId| p1.contains(x) && x != y implies p0.contains(x) by {
                            let q = choose|q: int| 0 <= q < p1.len() && p1[q] == x;
                            assert(p0[q] == x);
                        };
                        assert forall|x: BlockId| work@.contains(x) && x != y implies wk0.contains(x) by {
                            let q = choose|q: int| 0 <= q < work@.len() && work@[q] == x;
                            if work@ != wk0 {
                                assert(wk0[q] == x);
                            }
                        };
                        assert forall|x: BlockId| wk0.contains(x) implies work@.contains(x) by {
                            let q = choose|q: int| 0 <= q < wk0.len() && wk0[q] == x;
                            assert(work@[q] == x);
                        };
                        assert forall|j: int| 0 <= j < work@.len() implies w1.contains(#[trigger] work@[j]) by {
                            if work@[j] != y {
                                assert(work@.contains(work@[j]));
                                assert(wk0.contains(work@[j]));
                                let q = choose|q: int| 0 <= q < wk0.len() && wk0[q] == work@[j];
                                assert(w0.contains(wk0[q]));
                            }
                        };
                        assert forall|x: BlockId| w1.contains(x) implies defs.contains(x) || p1.contains(x) by {
                            if x != y {
                                assert(w0.contains(x));
                            }
                        };
                        assert forall|b2: BlockId, j: int|
                            w1.contains(b2) && !work@.contains(b2) && b2 != b && 0 <= j < frontier_of(df@, b2).len()
                                implies p1.contains(#[trigger] frontier_of(df@, b2)[j]) by {
                            if b2 != y {
                                assert(w0.contains(b2));
                                assert(!wk0.contains(b2));
                                assert(p0.contains(frontier_of(df@, b2)[j]));
                            } else {
                                if w1 != w0 {
                                    assert(work@.contains(y));
                                } else {
                                    assert(w0.contains(y));
                                }
                            }
                        };
                        assert forall|j: int| 0 <= j < k + 1 implies p1.contains(#[trigger] f@[j]) by {
                            if f@[j] != y {
                                assert(p0.contains(f@[j]));
                            }
                        };
                        assert forall|k2: int|
                            w_init.len() <= k2 < w1.len() implies fl.contains(#[trigger] w1[k2]) by {
                            if k2 < w0.len() {
                                assert(w0[k2] == w1[k2]);
                            }
                        };
                        assert forall|i2: int|
                            0 <= i2 < out@.len() implies (#[trigger] out@[i2]).1.result == (SsaName { reg, version: 0 })
                                && out@[i2].1.operands@.len() == 0 by {
                            if i2 < o0.len() {
                                assert(out@[i2] == o0[i2]);
                            }
                        };
                        lemma_added_bound(w1, w_init.len() as int, fl);
                    }
                }
                k = k + 1;
            }
            proof {
                assert forall|b2: BlockId, j: int|
                    u32_set_items(in_wl).contains(b2) && !work@.contains(b2) && 0 <= j < frontier_of(df@, b2).len()
                        implies u32_set_items(placed).contains(#[trigger] frontier_of(df@, b2)[j]) by {
                    if b2 == b {
                        assert(f@[j] == frontier_of(df@, b2)[j]);
                    }
                };
            }
        }
        proof {
            let pl = u32_set_items(placed);
            assert forall|b2: BlockId, j: int|
                (defs.contains(b2) || pl.contains(b2)) && 0 <= j < frontier_of(df@, b2).len() implies pl.contains(
                #[trigger] frontier_of(df@, b2)[j],
            ) by {
                assert(u32_set_items(in_wl).contains(b2));
            };
        }
        out
    }
}

} // verus!
