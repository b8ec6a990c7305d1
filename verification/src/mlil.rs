//! Lowering of the SSA form to the medium-level IL: SSA names become
//! variables, stores and assignments through the frame pointer become
//! assignments to stack variables, a branch on flags becomes a comparison,
//! and each phi node becomes copies at the end of its predecessors.

use vstd::prelude::*;
use crate::calling_conv::{CallSignature, IrType};
use crate::cfg::BlockId;
use crate::collections::{
    assoc_get,
    assoc_insert,
    lemma_assoc_insert_get,
    u64_usize_map_get,
    u64_usize_map_insert,
    u64_usize_map_items,
    u64_usize_map_new,
};
use crate::semantic_lower::SemanticFunction;
use crate::ssa::{
    key_of,
    name_key,
    BinOp,
    FlagCondition,
    OperandSize,
    PhiNode,
    PhiOperand,
    SsaBlock,
    SsaDest,
    SsaExpr,
    SsaFunction,
    SsaInstr,
    SsaName,
};
use crate::stack_vars::StackVar;
use crate::text::{dec, hex_lower, push_dec, push_hex_lower};
use indexmap::IndexMap;

verus! {

/// Identifies an MLIL variable: its place in the function's variable list.
pub type VarId = usize;

/// Where an MLIL variable comes from.
#[derive(Debug, Clone, Copy, PartialEq, Eq, Structural)]
pub enum VarSource {
    Register(u32),
    Parameter(usize),
    StackOffset(i64),
}

/// A variable of the MLIL form.
#[derive(Debug)]
pub struct MlilVar {
    pub id: VarId,
    pub name: String,
    pub ty: IrType,
    pub source: VarSource,
}

/// An expression of the MLIL form.
#[derive(Debug)]
pub enum MlilExpr {
    Var(VarId),
    Const { value: u64, size: OperandSize },
    BinOp { op: BinOp, lhs: Box<MlilExpr>, rhs: Box<MlilExpr> },
    UnOp { operand: Box<MlilExpr> },
    Load { addr: Box<MlilExpr>, size: OperandSize },
    Sx { expr: Box<MlilExpr> },
    Zx { expr: Box<MlilExpr> },
}

/// Where an MLIL assignment writes.
#[derive(Debug)]
pub enum MlilDest {
    Var(VarId),
    Mem { addr: Box<MlilExpr>, size: OperandSize },
}

/// An instruction of the MLIL form.
#[derive(Debug)]
pub enum MlilInstr {
    Assign { dest: MlilDest, expr: MlilExpr },
    Store { addr: MlilExpr, value: MlilExpr, size: OperandSize },
    Call { target: MlilExpr, args: Vec<MlilExpr>, ret: Option<VarId> },
    Return { value: Option<MlilExpr> },
    If { cond: MlilExpr, true_target: BlockId, false_target: BlockId },
    Goto { target: BlockId },
}

/// A block of the MLIL form.
#[derive(Debug)]
pub struct MlilBlock {
    pub id: BlockId,
    pub instrs: Vec<MlilInstr>,
}

/// A function in MLIL form: its blocks in the order of the SSA blocks, its
/// variables by id, the order the pipeline ran its passes in, and its
/// semantic form.
#[derive(Debug)]
pub struct MlilFunction {
    pub blocks: Vec<MlilBlock>,
    pub vars: Vec<MlilVar>,
    pub scheduled_order: Vec<String>,
    pub semantic: Option<SemanticFunction>,
}

/// An MLIL instruction as a mathematical value.
pub enum MInstr {
    Assign { dest: MlilDest, expr: MlilExpr },
    Store { addr: MlilExpr, value: MlilExpr, size: OperandSize },
    Call { target: MlilExpr, args: Seq<MlilExpr>, ret: Option<VarId> },
    Return { value: Option<MlilExpr> },
    If { cond: MlilExpr, true_target: BlockId, false_target: BlockId },
    Goto { target: BlockId },
}

/// The view of an instruction.
pub open spec fn minstr(i: MlilInstr) -> MInstr {
    match i {
        MlilInstr::Assign { dest, expr } => MInstr::Assign { dest, expr },
        MlilInstr::Store { addr, value, size } => MInstr::Store { addr, value, size },
        MlilInstr::Call { target, args, ret } => MInstr::Call { target, args: args@, ret },
        MlilInstr::Return { value } => MInstr::Return { value },
        MlilInstr::If { cond, true_target, false_target } => MInstr::If { cond, true_target, false_target },
        MlilInstr::Goto { target } => MInstr::Goto { target },
    }
}

/// A variable by its id, name, type and source.
pub type VarView = (VarId, Seq<char>, IrType, VarSource);

/// The view of a variable.
pub open spec fn var_view(v: MlilVar) -> VarView {
    (v.id, v.name@, v.ty, v.source)
}

/// The views of a list of instructions.
pub open spec fn minstrs(s: Seq<MlilInstr>) -> Seq<MInstr> {
    Seq::new(s.len(), |i: int| minstr(s[i]))
}

/// The views of a list of variables.
pub open spec fn var_views(s: Seq<MlilVar>) -> Seq<VarView> {
    Seq::new(s.len(), |i: int| var_view(s[i]))
}

/// A function in MLIL form as a mathematical value: each block by id and
/// instructions, the variables, and the pass order.
pub type MlilView = (Seq<(BlockId, Seq<MInstr>)>, Seq<VarView>, Seq<Seq<char>>);

/// The view of a function in MLIL form.
pub open spec fn mlil_view(m: MlilFunction) -> MlilView {
    (
        Seq::new(m.blocks@.len(), |i: int| (m.blocks@[i].id, minstrs(m.blocks@[i].instrs@))),
        var_views(m.vars@),
        Seq::new(m.scheduled_order@.len(), |i: int| m.scheduled_order@[i]@),
    )
}

/// The lowering state: the variables so far, and the variable of each SSA
/// name met so far, keyed by `name_key`.
pub type LowerSt = (Seq<VarView>, Seq<(u64, VarId)>);

/// The name of the variable of an SSA name: `v`, its register, `_`, its
/// version.
pub open spec fn reg_var_name(n: SsaName) -> Seq<char> {
    "v"@ + dec(n.reg as nat) + "_"@ + dec(n.version as nat)
}

/// The variable of SSA name `n`: the one met before, else a new 64-bit
/// unsigned variable from its register.
pub open spec fn var_for(n: SsaName, st: LowerSt) -> (VarId, LowerSt) {
    match assoc_get(st.1, name_key(n)) {
        Some(id) => (id, st),
        None => {
            let id = st.0.len() as usize;
            (
                id,
                (
                    st.0.push(
                        (
                            id,
                            reg_var_name(n),
                            IrType::Int { bit_width: 64, signed: false },
                            VarSource::Register(n.reg),
                        ),
                    ),
                    assoc_insert(st.1, name_key(n), id),
                ),
            )
        },
    }
}

/// An expression in MLIL form, its names taken in order (left operand
/// first); an expression MLIL does not hold becomes the constant 0.
pub open spec fn tr(e: SsaExpr, st: LowerSt) -> (MlilExpr, LowerSt)
    decreases e,
{
    match e {
        SsaExpr::Reg { reg } => {
            let (id, s1) = var_for(reg, st);
            (MlilExpr::Var(id), s1)
        },
        SsaExpr::Const { value, size } => (MlilExpr::Const { value, size }, st),
        SsaExpr::BinOp { op, lhs, rhs } => {
            let (l, s1) = tr(*lhs, st);
            let (r, s2) = tr(*rhs, s1);
            (MlilExpr::BinOp { op, lhs: Box::new(l), rhs: Box::new(r) }, s2)
        },
        SsaExpr::UnOp { operand } => {
            let (m, s1) = tr(*operand, st);
            (MlilExpr::UnOp { operand: Box::new(m) }, s1)
        },
        SsaExpr::Load { addr, size } => {
            let (m, s1) = tr(*addr, st);
            (MlilExpr::Load { addr: Box::new(m), size }, s1)
        },
        SsaExpr::Sx { expr } => {
            let (m, s1) = tr(*expr, st);
            (MlilExpr::Sx { expr: Box::new(m) }, s1)
        },
        SsaExpr::Zx { expr } => {
            let (m, s1) = tr(*expr, st);
            (MlilExpr::Zx { expr: Box::new(m) }, s1)
        },
        _ => (MlilExpr::Const { value: 0, size: OperandSize::Bits64 }, st),
    }
}

/// A list of expressions in MLIL form, in order.
pub open spec fn tr_list(s: Seq<SsaExpr>, st: LowerSt) -> (Seq<MlilExpr>, LowerSt)
    decreases s.len(),
{
    if s.len() == 0 {
        (Seq::empty(), st)
    } else {
        let (p, s1) = tr_list(s.drop_last(), st);
        let (e, s2) = tr(s.last(), s1);
        (p.push(e), s2)
    }
}

/// Negation that leaves the least `i64` as it is.
pub open spec fn neg_wrap(x: i64) -> i64 {
    if x == i64::MIN {
        x
    } else {
        (-x) as i64
    }
}

/// The frame offset an address names: the frame or stack pointer
/// (registers 6 and 7) minus a constant.
pub open spec fn stack_offset_of(addr: SsaExpr) -> Option<i64> {
    match addr {
        SsaExpr::BinOp { op: BinOp::Sub, lhs, rhs } => match (*lhs, *rhs) {
            (SsaExpr::Reg { reg }, SsaExpr::Const { value, .. }) => if reg.reg == 6 || reg.reg == 7 {
                Some(neg_wrap(value as i64))
            } else {
                None
            },
            _ => None,
        },
        _ => None,
    }
}

/// The stack variable an address names, if any.
pub open spec fn stack_var_at(stack: Seq<(u64, VarId)>, addr: SsaExpr) -> Option<VarId> {
    match stack_offset_of(addr) {
        Some(off) => assoc_get(stack, off as u64),
        None => None,
    }
}

/// The comparison a flag condition tests, after a flag-setting `op`.
pub open spec fn cmp_of(fc: FlagCondition, op: BinOp) -> BinOp {
    match fc {
        FlagCondition::Equal => BinOp::CmpE,
        FlagCondition::NotEqual => BinOp::CmpNe,
        FlagCondition::Less => BinOp::CmpSlt,
        FlagCondition::LessEq => BinOp::CmpSle,
        FlagCondition::Greater => BinOp::CmpSgt,
        FlagCondition::GreaterEq => BinOp::CmpSge,
        FlagCondition::Below => BinOp::CmpUlt,
        FlagCondition::BelowEq => BinOp::CmpUle,
        FlagCondition::Above => BinOp::CmpUgt,
        FlagCondition::AboveEq => BinOp::CmpUge,
        FlagCondition::Other => op,
    }
}

/// The operands of the last flag-setting instruction of a block, if not
/// yet used by a branch.
pub type Flags = Option<(BinOp, MlilExpr, MlilExpr)>;

/// One instruction in MLIL form: what it lowers to, the state after it,
/// and the pending flags.
pub open spec fn lower_instr(ins: SsaInstr, stack: Seq<(u64, VarId)>, st: LowerSt, fl: Flags) -> (
    Seq<MInstr>,
    LowerSt,
    Flags,
) {
    match ins {
        SsaInstr::SetFlags { op, lhs, rhs } => {
            let (l, s1) = tr(lhs, st);
            let (r, s2) = tr(rhs, s1);
            (Seq::empty(), s2, Some((op, l, r)))
        },
        SsaInstr::Assign { dest, expr } => match dest {
            SsaDest::Reg(reg) => {
                let (id, s1) = var_for(reg, st);
                let (e, s2) = tr(expr, s1);
                (seq![MInstr::Assign { dest: MlilDest::Var(id), expr: e }], s2, fl)
            },
            SsaDest::Mem { addr, size } => match stack_var_at(stack, addr) {
                Some(vid) => {
                    let (e, s1) = tr(expr, st);
                    (seq![MInstr::Assign { dest: MlilDest::Var(vid), expr: e }], s1, fl)
                },
                None => {
                    let (a, s1) = tr(addr, st);
                    let (e, s2) = tr(expr, s1);
                    (seq![MInstr::Assign { dest: MlilDest::Mem { addr: Box::new(a), size }, expr: e }], s2, fl)
                },
            },
        },
        SsaInstr::Store { addr, value, size } => match stack_var_at(stack, addr) {
            Some(vid) => {
                let (e, s1) = tr(value, st);
                (seq![MInstr::Assign { dest: MlilDest::Var(vid), expr: e }], s1, fl)
            },
            None => {
                let (a, s1) = tr(addr, st);
                let (v, s2) = tr(value, s1);
                (seq![MInstr::Store { addr: a, value: v, size }], s2, fl)
            },
        },
        SsaInstr::Call { target, args, ret } => {
            let (xs, s1) = tr_list(args@, st);
            let (r, s2) = match ret {
                Some(n) => {
                    let (id, s) = var_for(n, s1);
                    (Some(id), s)
                },
                None => (None, s1),
            };
            let (t, s3) = tr(target, s2);
            (seq![MInstr::Call { target: t, args: xs, ret: r }], s3, fl)
        },
        SsaInstr::Return { value } => match value {
            Some(v) => {
                let (e, s1) = tr(v, st);
                (seq![MInstr::Return { value: Some(e) }], s1, fl)
            },
            None => (seq![MInstr::Return { value: None }], st, fl),
        },
        SsaInstr::If { cond, true_target, false_target } => match (cond, fl) {
            (SsaExpr::FlagCond { cond: fc }, Some((op, l, r))) => (
                seq![
                    MInstr::If {
                        cond: MlilExpr::BinOp { op: cmp_of(fc, op), lhs: Box::new(l), rhs: Box::new(r) },
                        true_target,
                        false_target,
                    },
                ],
                st,
                None,
            ),
            _ => {
                let (c, s1) = tr(cond, st);
                (seq![MInstr::If { cond: c, true_target, false_target }], s1, fl)
            },
        },
        SsaInstr::Goto { target } => (seq![MInstr::Goto { target }], st, fl),
        _ => (Seq::empty(), st, fl),
    }
}

/// A block's instructions in MLIL form, in order.
pub open spec fn lower_instrs(s: Seq<SsaInstr>, stack: Seq<(u64, VarId)>, st: LowerSt, fl: Flags) -> (
    Seq<MInstr>,
    LowerSt,
    Flags,
)
    decreases s.len(),
{
    if s.len() == 0 {
        (Seq::empty(), st, fl)
    } else {
        let (p, s1, f1) = lower_instrs(s.drop_last(), stack, st, fl);
        let (q, s2, f2) = lower_instr(s.last(), stack, s1, f1);
        (p + q, s2, f2)
    }
}

/// The first `k` blocks in MLIL form, each by id, before phi copies; each
/// block starts with no pending flags.
pub open spec fn lower_blocks(bs: Seq<SsaBlock>, k: int, stack: Seq<(u64, VarId)>, st: LowerSt) -> (
    Seq<(BlockId, Seq<MInstr>)>,
    LowerSt,
)
    decreases k,
{
    if k <= 0 {
        (Seq::empty(), st)
    } else {
        let (p, s1) = lower_blocks(bs, k - 1, stack, st);
        let (q, s2, _f) = lower_instrs(bs[k - 1].instrs@, stack, s1, None);
        (p.push((bs[k - 1].id, q)), s2)
    }
}

/// The copies a phi node's operands need, each with the block it flows in
/// from: operand by operand, a copy into `dest` unless the operand's
/// variable is `dest` itself.
pub open spec fn phi_op_copies(ops: Seq<PhiOperand>, dest: VarId, st: LowerSt) -> (
    Seq<(BlockId, MInstr)>,
    LowerSt,
)
    decreases ops.len(),
{
    if ops.len() == 0 {
        (Seq::empty(), st)
    } else {
        let (p, s1) = phi_op_copies(ops.drop_last(), dest, st);
        let (src, s2) = var_for(ops.last().name, s1);
        if dest != src {
            (
                p.push(
                    (
                        ops.last().block,
                        MInstr::Assign { dest: MlilDest::Var(dest), expr: MlilExpr::Var(src) },
                    ),
                ),
                s2,
            )
        } else {
            (p, s2)
        }
    }
}

/// The copies of a block's phi nodes, in order.
pub open spec fn phis_copies(ps: Seq<PhiNode>, st: LowerSt) -> (Seq<(BlockId, MInstr)>, LowerSt)
    decreases ps.len(),
{
    if ps.len() == 0 {
        (Seq::empty(), st)
    } else {
        let (p, s1) = phis_copies(ps.drop_last(), st);
        let (dest, s2) = var_for(ps.last().result, s1);
        let (q, s3) = phi_op_copies(ps.last().operands@, dest, s2);
        (p + q, s3)
    }
}

/// The copies of the phi nodes of the first `k` blocks, in order.
pub open spec fn blocks_copies(bs: Seq<SsaBlock>, k: int, st: LowerSt) -> (Seq<(BlockId, MInstr)>, LowerSt)
    decreases k,
{
    if k <= 0 {
        (Seq::empty(), st)
    } else {
        let (p, s1) = blocks_copies(bs, k - 1, st);
        let (q, s2) = phis_copies(bs[k - 1].phis@, s1);
        (p + q, s2)
    }
}

/// The copies that go to block `b`, in order.
pub open spec fn copies_for(c: Seq<(BlockId, MInstr)>, b: BlockId) -> Seq<MInstr>
    decreases c.len(),
{
    if c.len() == 0 {
        Seq::empty()
    } else if c.last().0 == b {
        copies_for(c.drop_last(), b).push(c.last().1)
    } else {
        copies_for(c.drop_last(), b)
    }
}

/// Whether an instruction ends a block: a branch, a jump or a return.
pub open spec fn is_terminator(i: MInstr) -> bool {
    i is If || i is Goto || i is Return
}

/// A block's instructions with copies placed at its end, before its
/// terminator when it ends in one.
pub open spec fn splice(instrs: Seq<MInstr>, copies: Seq<MInstr>) -> Seq<MInstr> {
    if instrs.len() > 0 && is_terminator(instrs.last()) {
        instrs.drop_last() + copies + seq![instrs.last()]
    } else {
        instrs + copies
    }
}

/// The variables of the parameters (`arg_i`, of the parameter's type),
/// then of the stack variables (`local_` and the offset's magnitude in
/// hexadecimal, an unsigned integer of the variable's size).
pub open spec fn initial_vars(params: Seq<IrType>, frame: Seq<(i64, u8)>) -> Seq<VarView> {
    Seq::new(
        params.len(),
        |i: int| (i as usize, "arg_"@ + dec(i as nat), params[i], VarSource::Parameter(i as usize)),
    ) + Seq::new(
        frame.len(),
        |j: int|
            (
                (params.len() + j) as usize,
                "local_"@ + hex_lower(abs_i64(frame[j].0)),
                IrType::Int { bit_width: (frame[j].1 * 8) as u16, signed: false },
                VarSource::StackOffset(frame[j].0),
            ),
    )
}

/// The magnitude of an offset.
pub open spec fn abs_i64(x: i64) -> nat {
    if x < 0 {
        (-x) as nat
    } else {
        x as nat
    }
}

/// The variable of each stack offset: the last stack variable at it.
pub open spec fn stack_map_of(np: nat, frame: Seq<(i64, u8)>) -> Seq<(u64, VarId)>
    decreases frame.len(),
{
    if frame.len() == 0 {
        Seq::empty()
    } else {
        assoc_insert(
            stack_map_of(np, frame.drop_last()),
            frame.last().0 as u64,
            (np + frame.len() - 1) as usize,
        )
    }
}

/// The parameter types of a signature.
pub open spec fn param_types(sig: CallSignature) -> Seq<IrType> {
    Seq::new(sig.params@.len(), |i: int| sig.params@[i].ty)
}

/// The offsets and sizes of a frame's variables.
pub open spec fn frame_slots(vars: Seq<StackVar>) -> Seq<(i64, u8)> {
    Seq::new(vars.len(), |j: int| (vars[j].offset, vars[j].size))
}

/// The MLIL form of `ssa`: its blocks lowered in order, with the variables
/// of the parameters and of the stack frame first, then those of the SSA
/// names as they are met; then the copies of each phi node placed at the
/// end of the predecessor they flow in from, before its terminator.
pub open spec fn mlil_of(ssa: SsaFunction, sig: CallSignature, frame: Seq<StackVar>, order: Seq<Seq<char>>) -> MlilView {
    let params = param_types(sig);
    let slots = frame_slots(frame);
    let st0: LowerSt = (initial_vars(params, slots), Seq::empty());
    let stack = stack_map_of(params.len(), slots);
    let bs = ssa.blocks@;
    let (lowered, s1) = lower_blocks(bs, bs.len() as int, stack, st0);
    let (copies, s2) = blocks_copies(bs, bs.len() as int, s1);
    (
        Seq::new(lowered.len(), |i: int| (lowered[i].0, splice(lowered[i].1, copies_for(copies, lowered[i].0)))),
        s2.0,
        order,
    )
}


/// The state of a lowering: the variables so far, and the variable of each
/// SSA name met so far.
struct Ctx {
    vars: Vec<MlilVar>,
    names: IndexMap<u64, usize>,
}

/// The lowering state a context holds.
spec fn ctx_st(c: &Ctx) -> LowerSt {
    (var_views(c.vars@), u64_usize_map_items(c.names))
}

proof fn lemma_var_views_push(s: Seq<MlilVar>, v: MlilVar)
    ensures
        var_views(s.push(v)) == var_views(s).push(var_view(v)),
{
    assert(var_views(s.push(v)) =~= var_views(s).push(var_view(v)));
}

/// Appends a new variable and returns its id.
fn new_var(c: &mut Ctx, name: String, ty: IrType, source: VarSource) -> (id: VarId)
    ensures
        id == old(c).vars@.len(),
        ctx_st(final(c)) == (ctx_st(old(c)).0.push((id, name@, ty, source)), ctx_st(old(c)).1),
{
    let id = c.vars.len();
    let v = MlilVar { id, name, ty, source };
    proof {
        lemma_var_views_push(c.vars@, v);
    }
    c.vars.push(v);
    id
}

/// The variable of SSA name `n`.
fn var_for_exec(c: &mut Ctx, n: SsaName) -> (id: VarId)
    ensures
        (id, ctx_st(final(c))) == var_for(n, ctx_st(old(c))),
{
    let k = key_of(n);
    match u64_usize_map_get(&c.names, k) {
        Some(id) => id,
        None => {
            let mut name = String::new();
            name.append("v");
            push_dec(&mut name, n.reg as u64);
            name.append("_");
            push_dec(&mut name, n.version as u64);
            let ghost m0 = u64_usize_map_items(c.names);
            let id = new_var(c, name, IrType::Int { bit_width: 64, signed: false }, VarSource::Register(n.reg));
            u64_usize_map_insert(&mut c.names, k, id);
            id
        },
    }
}

/// An expression in MLIL form.
fn tr_exec(c: &mut Ctx, e: &SsaExpr) -> (r: MlilExpr)
    ensures
        (r, ctx_st(final(c))) == tr(*e, ctx_st(old(c))),
    decreases e,
{
    match e {
        SsaExpr::Reg { reg } => MlilExpr::Var(var_for_exec(c, *reg)),
        SsaExpr::Const { value, size } => MlilExpr::Const { value: *value, size: *size },
        SsaExpr::BinOp { op, lhs, rhs } => {
            let l = tr_exec(c, lhs);
            let r = tr_exec(c, rhs);
            MlilExpr::BinOp { op: *op, lhs: Box::new(l), rhs: Box::new(r) }
        },
        SsaExpr::UnOp { operand } => {
            let m = tr_exec(c, operand);
            MlilExpr::UnOp { operand: Box::new(m) }
        },
        SsaExpr::Load { addr, size } => {
            let m = tr_exec(c, addr);
            MlilExpr::Load { addr: Box::new(m), size: *size }
        },
        SsaExpr::Sx { expr } => {
            let m = tr_exec(c, expr);
            MlilExpr::Sx { expr: Box::new(m) }
        },
        SsaExpr::Zx { expr } => {
            let m = tr_exec(c, expr);
            MlilExpr::Zx { expr: Box::new(m) }
        },
        _ => MlilExpr::Const { value: 0, size: OperandSize::Bits64 },
    }
}

/// A list of expressions in MLIL form.
fn tr_list_exec(c: &mut Ctx, v: &Vec<SsaExpr>) -> (r: Vec<MlilExpr>)
    ensures
        (r@, ctx_st(final(c))) == tr_list(v@, ctx_st(old(c))),
{
    let ghost st0 = ctx_st(c);
    let mut out: Vec<MlilExpr> = Vec::new();
    let mut i: usize = 0;
    proof {
        assert(v@.take(0) =~= Seq::<SsaExpr>::empty());
    }
    while i < v.len()
        invariant
            i <= v@.len(),
            (out@, ctx_st(c)) == tr_list(v@.take(i as int), st0),
        decreases v@.len() - i,
    {
        let e = tr_exec(c, &v[i]);
        out.push(e);
        proof {
            assert(v@.take(i + 1).drop_last() =~= v@.take(i as int));
        }
        i = i + 1;
    }
    proof {
        assert(v@.take(v@.len() as int) =~= v@);
    }
    out
}


/// The stack variable an address names, if any.
fn stack_var_exec(stack: &IndexMap<u64, usize>, addr: &SsaExpr) -> (r: Option<VarId>)
    ensures
        r == stack_var_at(u64_usize_map_items(*stack), *addr),
{
    match addr {
        SsaExpr::BinOp { op, lhs, rhs } => {
            if *op != BinOp::Sub {
                return None;
            }
            match &**lhs {
                SsaExpr::Reg { reg } => match &**rhs {
                    SsaExpr::Const { value, .. } => {
                        if reg.reg == 6 || reg.reg == 7 {
                            let v = *value as i64;
                            let off = if v == i64::MIN {
                                v
                            } else {
                                -v
                            };
                            u64_usize_map_get(stack, off as u64)
                        } else {
                            None
                        }
                    },
                    _ => None,
                },
                _ => None,
            }
        },
        _ => None,
    }
}

/// The comparison a flag condition tests.
fn cmp_of_exec(fc: FlagCondition, op: BinOp) -> (r: BinOp)
    ensures
        r == cmp_of(fc, op),
{
    match fc {
        FlagCondition::Equal => BinOp::CmpE,
        FlagCondition::NotEqual => BinOp::CmpNe,
        FlagCondition::Less => BinOp::CmpSlt,
        FlagCondition::LessEq => BinOp::CmpSle,
        FlagCondition::Greater => BinOp::CmpSgt,
        FlagCondition::GreaterEq => BinOp::CmpSge,
        FlagCondition::Below => BinOp::CmpUlt,
        FlagCondition::BelowEq => BinOp::CmpUle,
        FlagCondition::Above => BinOp::CmpUgt,
        FlagCondition::AboveEq => BinOp::CmpUge,
        FlagCondition::Other => op,
    }
}

proof fn lemma_minstrs_push(s: Seq<MlilInstr>, i: MlilInstr)
    ensures
        minstrs(s.push(i)) == minstrs(s) + seq![minstr(i)],
{
    assert(minstrs(s.push(i)) =~= minstrs(s) + seq![minstr(i)]);
}

/// Lowers one instruction, appending what it lowers to; returns the
/// pending flags.
fn lower_instr_exec(
    c: &mut Ctx,
    ins: &SsaInstr,
    stack: &IndexMap<u64, usize>,
    fl: Flags,
    out: &mut Vec<MlilInstr>,
) -> (r: Flags)
    ensures
        ({
            let (q, s, f) = lower_instr(*ins, u64_usize_map_items(*stack), ctx_st(old(c)), fl);
            &&& minstrs(final(out)@) == minstrs(old(out)@) + q
            &&& ctx_st(final(c)) == s
            &&& r == f
        }),
{
    let ghost o0 = out@;
    match ins {
        SsaInstr::SetFlags { op, lhs, rhs } => {
            let l = tr_exec(c, lhs);
            let r = tr_exec(c, rhs);
            proof {
                assert(minstrs(o0) + Seq::<MInstr>::empty() =~= minstrs(o0));
            }
            Some((*op, l, r))
        },
        SsaInstr::Assign { dest, expr } => {
            match dest {
                SsaDest::Reg(reg) => {
                    let id = var_for_exec(c, *reg);
                    let e = tr_exec(c, expr);
                    let i = MlilInstr::Assign { dest: MlilDest::Var(id), expr: e };
                    proof {
                        lemma_minstrs_push(o0, i);
                    }
                    out.push(i);
                },
                SsaDest::Mem { addr, size } => {
                    match stack_var_exec(stack, addr) {
                        Some(vid) => {
                            let e = tr_exec(c, expr);
                            let i = MlilInstr::Assign { dest: MlilDest::Var(vid), expr: e };
                            proof {
                                lemma_minstrs_push(o0, i);
                            }
                            out.push(i);
                        },
                        None => {
                            let a = tr_exec(c, addr);
                            let e = tr_exec(c, expr);
                            let i = MlilInstr::Assign {
                                dest: MlilDest::Mem { addr: Box::new(a), size: *size },
                                expr: e,
                            };
                            proof {
                                lemma_minstrs_push(o0, i);
                            }
                            out.push(i);
                        },
                    }
                },
            }
            fl
        },
        SsaInstr::Store { addr, value, size } => {
            match stack_var_exec(stack, addr) {
                Some(vid) => {
                    let e = tr_exec(c, value);
                    let i = MlilInstr::Assign { dest: MlilDest::Var(vid), expr: e };
                    proof {
                        lemma_minstrs_push(o0, i);
                    }
                    out.push(i);
                },
                None => {
                    let a = tr_exec(c, addr);
                    let v = tr_exec(c, value);
                    let i = MlilInstr::Store { addr: a, value: v, size: *size };
                    proof {
                        lemma_minstrs_push(o0, i);
                    }
                    out.push(i);
                },
            }
            fl
        },
        SsaInstr::Call { target, args, ret } => {
            let xs = tr_list_exec(c, args);
            let r = match ret {
                Some(n) => Some(var_for_exec(c, *n)),
                None => None,
            };
            let t = tr_exec(c, target);
            let i = MlilInstr::Call { target: t, args: xs, ret: r };
            proof {
                lemma_minstrs_push(o0, i);
            }
            out.push(i);
            fl
        },
        SsaInstr::Return { value } => {
            let v = match value {
                Some(v) => Some(tr_exec(c, v)),
                None => None,
            };
            let i = MlilInstr::Return { value: v };
            proof {
                lemma_minstrs_push(o0, i);
            }
            out.push(i);
            fl
        },
        SsaInstr::If { cond, true_target, false_target } => {
            if let SsaExpr::FlagCond { cond: fc } = cond {
                match fl {
                    Some((op, l, r)) => {
                        let i = MlilInstr::If {
                            cond: MlilExpr::BinOp { op: cmp_of_exec(*fc, op), lhs: Box::new(l), rhs: Box::new(r) },
                            true_target: *true_target,
                            false_target: *false_target,
                        };
                        proof {
                            lemma_minstrs_push(o0, i);
                        }
                        out.push(i);
                        return None;
                    },
                    None => {
                        let cm = tr_exec(c, cond);
                        let i = MlilInstr::If { cond: cm, true_target: *true_target, false_target: *false_target };
                        proof {
                            lemma_minstrs_push(o0, i);
                        }
                        out.push(i);
                        return None;
                    },
                }
            }
            let cm = tr_exec(c, cond);
            let i = MlilInstr::If { cond: cm, true_target: *true_target, false_target: *false_target };
            proof {
                lemma_minstrs_push(o0, i);
            }
            out.push(i);
            fl
        },
        SsaInstr::Goto { target } => {
            let i = MlilInstr::Goto { target: *target };
            proof {
                lemma_minstrs_push(o0, i);
            }
            out.push(i);
            fl
        },
        _ => {
            proof {
                assert(minstrs(o0) + Seq::<MInstr>::empty() =~= minstrs(o0));
            }
            fl
        },
    }
}


/// Blocks by id and instruction views.
pub open spec fn blocks_view(v: Seq<MlilBlock>) -> Seq<(BlockId, Seq<MInstr>)> {
    Seq::new(v.len(), |i: int| (v[i].id, minstrs(v[i].instrs@)))
}

/// Phi copies, kept as the block they go to, the variable copied into and
/// the variable copied from, as instructions.
pub open spec fn copies_view(v: Seq<(BlockId, VarId, VarId)>) -> Seq<(BlockId, MInstr)> {
    Seq::new(
        v.len(),
        |i: int| (v[i].0, MInstr::Assign { dest: MlilDest::Var(v[i].1), expr: MlilExpr::Var(v[i].2) }),
    )
}

/// Lowers a block's instructions, starting with no pending flags.
fn lower_block_exec(c: &mut Ctx, ins: &Vec<SsaInstr>, stack: &IndexMap<u64, usize>) -> (out: Vec<MlilInstr>)
    ensures
        ({
            let (q, s, _f) = lower_instrs(ins@, u64_usize_map_items(*stack), ctx_st(old(c)), None);
            minstrs(out@) == q && ctx_st(final(c)) == s
        }),
{
    let ghost st0 = ctx_st(c);
    let ghost sm = u64_usize_map_items(*stack);
    let mut out: Vec<MlilInstr> = Vec::new();
    let mut fl: Flags = None;
    let mut i: usize = 0;
    proof {
        assert(ins@.take(0) =~= Seq::<SsaInstr>::empty());
        assert(minstrs(out@) =~= Seq::<MInstr>::empty());
    }
    while i < ins.len()
        invariant
            sm == u64_usize_map_items(*stack),
            i <= ins@.len(),
            ({
                let (q, s, f) = lower_instrs(ins@.take(i as int), sm, st0, None);
                minstrs(out@) == q && ctx_st(c) == s && fl == f
            }),
        decreases ins@.len() - i,
    {
        proof {
            assert(ins@.take(i + 1).drop_last() =~= ins@.take(i as int));
        }
        fl = lower_instr_exec(c, &ins[i], stack, fl, &mut out);
        i = i + 1;
    }
    proof {
        assert(ins@.take(ins@.len() as int) =~= ins@);
    }
    out
}

/// Collects the copies of a block's phi nodes.
fn phi_copies_exec(c: &mut Ctx, ps: &Vec<PhiNode>, out: &mut Vec<(BlockId, VarId, VarId)>)
    ensures
        ({
            let (q, s) = phis_copies(ps@, ctx_st(old(c)));
            copies_view(final(out)@) == copies_view(old(out)@) + q && ctx_st(final(c)) == s
        }),
{
    let ghost st0 = ctx_st(c);
    let ghost o0 = copies_view(out@);
    let mut j: usize = 0;
    proof {
        assert(ps@.take(0) =~= Seq::<PhiNode>::empty());
        assert(o0 + Seq::<(BlockId, MInstr)>::empty() =~= o0);
    }
    while j < ps.len()
        invariant
            j <= ps@.len(),
            ({
                let (q, s) = phis_copies(ps@.take(j as int), st0);
                copies_view(out@) == o0 + q && ctx_st(c) == s
            }),
        decreases ps@.len() - j,
    {
        let ghost c1 = copies_view(out@);
        let dest = var_for_exec(c, ps[j].result);
        let ghost s2 = ctx_st(c);
        let ops = &ps[j].operands;
        let mut q: usize = 0;
        proof {
            assert(ops@.take(0) =~= Seq::<PhiOperand>::empty());
            assert(c1 + Seq::<(BlockId, MInstr)>::empty() =~= c1);
        }
        while q < ops.len()
            invariant
                q <= ops@.len(),
                ops@ == ps@[j as int].operands@,
                ({
                    let (cq, s) = phi_op_copies(ops@.take(q as int), dest, s2);
                    copies_view(out@) == c1 + cq && ctx_st(c) == s
                }),
            decreases ops@.len() - q,
        {
            let ghost c2 = copies_view(out@);
            let src = var_for_exec(c, ops[q].name);
            if dest != src {
                out.push((ops[q].block, dest, src));
                proof {
                    assert(copies_view(out@) =~= c2.push(
                        (ops@[q as int].block, MInstr::Assign { dest: MlilDest::Var(dest), expr: MlilExpr::Var(src) }),
                    ));
                }
            }
            proof {
                assert(ops@.take(q + 1).drop_last() =~= ops@.take(q as int));
                let (cp, sp) = phi_op_copies(ops@.take(q as int), dest, s2);
                if dest != src {
                    assert(c1 + cp.push(
                        (ops@[q as int].block, MInstr::Assign { dest: MlilDest::Var(dest), expr: MlilExpr::Var(src) }),
                    ) =~= (c1 + cp).push(
                        (ops@[q as int].block, MInstr::Assign { dest: MlilDest::Var(dest), expr: MlilExpr::Var(src) }),
                    ));
                }
            }
            q = q + 1;
        }
        proof {
            assert(ops@.take(ops@.len() as int) =~= ops@);
            assert(ps@.take(j + 1).drop_last() =~= ps@.take(j as int));
            let (pq, ps1) = phis_copies(ps@.take(j as int), st0);
            let (cq, cs) = phi_op_copies(ops@, dest, s2);
            assert(o0 + (pq + cq) =~= (o0 + pq) + cq);
        }
        j = j + 1;
    }
    proof {
        assert(ps@.take(ps@.len() as int) =~= ps@);
    }
}

/// The copies that go to block `b`, as instructions.
fn copies_for_exec(cp: &Vec<(BlockId, VarId, VarId)>, b: BlockId) -> (r: Vec<MlilInstr>)
    ensures
        minstrs(r@) == copies_for(copies_view(cp@), b),
{
    let mut r: Vec<MlilInstr> = Vec::new();
    let mut i: usize = 0;
    proof {
        assert(copies_view(cp@).take(0) =~= Seq::<(BlockId, MInstr)>::empty());
        assert(minstrs(r@) =~= Seq::<MInstr>::empty());
    }
    while i < cp.len()
        invariant
            i <= cp@.len(),
            minstrs(r@) == copies_for(copies_view(cp@).take(i as int), b),
        decreases cp@.len() - i,
    {
        let (blk, d, s) = cp[i];
        proof {
            assert(copies_view(cp@).take(i + 1).drop_last() =~= copies_view(cp@).take(i as int));
        }
        if blk == b {
            let ins = MlilInstr::Assign { dest: MlilDest::Var(d), expr: MlilExpr::Var(s) };
            proof {
                lemma_minstrs_push(r@, ins);
                assert(minstrs(r@) + seq![minstr(ins)] =~= minstrs(r@).push(minstr(ins)));
            }
            r.push(ins);
        }
        i = i + 1;
    }
    proof {
        assert(copies_view(cp@).take(cp@.len() as int) =~= copies_view(cp@));
    }
    r
}

/// Places copies at the end of a block, before its terminator.
fn splice_exec(instrs: &mut Vec<MlilInstr>, copies: Vec<MlilInstr>)
    ensures
        minstrs(final(instrs)@) == splice(minstrs(old(instrs)@), minstrs(copies@)),
{
    let ghost i0 = instrs@;
    let ghost c0 = copies@;
    let n = instrs.len();
    let term = if n > 0 {
        match &instrs[n - 1] {
            MlilInstr::If { .. } | MlilInstr::Goto { .. } | MlilInstr::Return { .. } => true,
            _ => false,
        }
    } else {
        false
    };
    proof {
        if n > 0 {
            assert(minstrs(i0).last() == minstr(i0[n - 1]));
        }
    }
    let mut copies = copies;
    if term {
        let last = instrs.pop().unwrap();
        instrs.append(&mut copies);
        instrs.push(last);
        proof {
            assert(minstrs(i0).drop_last() =~= minstrs(i0.drop_last()));
            assert(minstrs(instrs@) =~= minstrs(i0).drop_last() + minstrs(c0) + seq![minstrs(i0).last()]);
        }
    } else {
        instrs.append(&mut copies);
        proof {
            assert(minstrs(instrs@) =~= minstrs(i0) + minstrs(c0));
        }
    }
}


/// Lowers `ssa_func` to MLIL form: the variables of the parameters of
/// `sig` and of the stack variables come first, SSA names become
/// variables as they are met, assignments and stores through the frame or
/// stack pointer minus a constant become assignments to the stack variable
/// at that offset, a branch on flags becomes a comparison of the last
/// flag-setting operands, and each phi node becomes copies at the end of
/// its predecessors, before their terminators. The pass order and the
/// semantic form are carried along.
pub fn lower_to_mlil(
    ssa_func: &SsaFunction,
    sig: &CallSignature,
    stack_vars: &[StackVar],
    semantic: SemanticFunction,
    scheduled_order: &[&str],
) -> (m: MlilFunction)
    requires
        forall|j: int|
            0 <= j < stack_vars@.len() ==> (#[trigger] stack_vars@[j]).offset != i64::MIN
                && stack_vars@[j].size < 32,
    ensures
        mlil_view(m) == mlil_of(
            *ssa_func,
            *sig,
            stack_vars@,
            Seq::new(scheduled_order@.len(), |i: int| scheduled_order@[i]@),
        ),
        m.semantic == Some(semantic),
{
    let ghost params = param_types(*sig);
    let ghost slots = frame_slots(stack_vars@);
    let mut c = Ctx { vars: Vec::new(), names: u64_usize_map_new() };
    let np = sig.params.len();
    let mut i: usize = 0;
    proof {
        assert(var_views(c.vars@) =~= initial_vars(params.take(0), Seq::empty()));
    }
    while i < np
        invariant
            np == sig.params@.len(),
            params == param_types(*sig),
            i <= np,
            ctx_st(&c) == (initial_vars(params.take(i as int), Seq::empty()), Seq::<(u64, VarId)>::empty()),
            c.vars@.len() == i,
        decreases np - i,
    {
        let mut name = String::new();
        name.append("arg_");
        push_dec(&mut name, i as u64);
        new_var(&mut c, name, sig.params[i].ty, VarSource::Parameter(i));
        proof {
            assert(initial_vars(params.take(i + 1), Seq::empty()) =~= initial_vars(params.take(i as int), Seq::empty()).push(
                (i as usize, "arg_"@ + dec(i as nat), params[i as int], VarSource::Parameter(i as usize)),
            ));
        }
        i = i + 1;
    }
    proof {
        assert(params.take(np as int) =~= params);
    }
    let mut stack = u64_usize_map_new();
    let nv = stack_vars.len();
    let mut j: usize = 0;
    proof {
        assert(slots.take(0) =~= Seq::<(i64, u8)>::empty());
    }
    while j < nv
        invariant
            nv == stack_vars@.len(),
            slots == frame_slots(stack_vars@),
            params.len() == np,
            j <= nv,
            forall|k: int|
                0 <= k < stack_vars@.len() ==> (#[trigger] stack_vars@[k]).offset != i64::MIN
                    && stack_vars@[k].size < 32,
            ctx_st(&c) == (initial_vars(params, slots.take(j as int)), Seq::<(u64, VarId)>::empty()),
            c.vars@.len() == np + j,
            u64_usize_map_items(stack) == stack_map_of(np as nat, slots.take(j as int)),
        decreases nv - j,
    {
        let off = stack_vars[j].offset;
        let size = stack_vars[j].size;
        let mag: u64 = if off < 0 {
            (-off) as u64
        } else {
            off as u64
        };
        let mut name = String::new();
        name.append("local_");
        push_hex_lower(&mut name, mag);
        let id = new_var(
            &mut c,
            name,
            IrType::Int { bit_width: (size * 8) as u16, signed: false },
            VarSource::StackOffset(off),
        );
        u64_usize_map_insert(&mut stack, off as u64, id);
        proof {
            assert(mag as nat == abs_i64(off));
            assert(slots.take(j + 1).drop_last() =~= slots.take(j as int));
            assert(initial_vars(params, slots.take(j + 1)) =~= initial_vars(params, slots.take(j as int)).push(
                (
                    (np + j) as usize,
                    "local_"@ + hex_lower(abs_i64(off)),
                    IrType::Int { bit_width: (size * 8) as u16, signed: false },
                    VarSource::StackOffset(off),
                ),
            ));
        }
        j = j + 1;
    }
    proof {
        assert(slots.take(nv as int) =~= slots);
    }
    let ghost st0 = ctx_st(&c);
    let ghost sm = u64_usize_map_items(stack);
    let ghost bs = ssa_func.blocks@;
    let nb = ssa_func.blocks.len();
    let mut lowered: Vec<MlilBlock> = Vec::new();
    let mut k: usize = 0;
    proof {
        assert(blocks_view(lowered@) =~= Seq::<(BlockId, Seq<MInstr>)>::empty());
    }
    while k < nb
        invariant
            bs == ssa_func.blocks@,
            nb == bs.len(),
            k <= nb,
            sm == u64_usize_map_items(stack),
            lowered@.len() == k,
            ({
                let (lw, s) = lower_blocks(bs, k as int, sm, st0);
                blocks_view(lowered@) == lw && ctx_st(&c) == s
            }),
        decreases nb - k,
    {
        let ins = lower_block_exec(&mut c, &ssa_func.blocks[k].instrs, &stack);
        let b = MlilBlock { id: ssa_func.blocks[k].id, instrs: ins };
        proof {
            assert(blocks_view(lowered@.push(b)) =~= blocks_view(lowered@).push((b.id, minstrs(b.instrs@))));
        }
        lowered.push(b);
        k = k + 1;
    }
    let ghost s1 = ctx_st(&c);
    let mut cp: Vec<(BlockId, VarId, VarId)> = Vec::new();
    k = 0;
    proof {
        assert(copies_view(cp@) =~= Seq::<(BlockId, MInstr)>::empty());
    }
    while k < nb
        invariant
            bs == ssa_func.blocks@,
            nb == bs.len(),
            k <= nb,
            ({
                let (q, s) = blocks_copies(bs, k as int, s1);
                copies_view(cp@) == q && ctx_st(&c) == s
            }),
        decreases nb - k,
    {
        phi_copies_exec(&mut c, &ssa_func.blocks[k].phis, &mut cp);
        k = k + 1;
    }
    let ghost lw = blocks_view(lowered@);
    let ghost cps = copies_view(cp@);
    let mut blocks: Vec<MlilBlock> = Vec::new();
    k = 0;
    while k < nb
        invariant
            nb == lowered@.len(),
            lw.len() == nb,
            cps == copies_view(cp@),
            k <= nb,
            forall|x: int| k <= x < nb ==> (lowered@[x].id, minstrs(lowered@[x].instrs@)) == #[trigger] lw[x],
            blocks@.len() == k,
            forall|x: int|
                0 <= x < k ==> (blocks@[x].id, minstrs(blocks@[x].instrs@)) == (#[trigger] lw[x].0, splice(
                    lw[x].1,
                    copies_for(cps, lw[x].0),
                )),
        decreases nb - k,
    {
        let mut taken = MlilBlock { id: 0, instrs: Vec::new() };
        std::mem::swap(&mut taken, &mut lowered[k]);
        let extra = copies_for_exec(&cp, taken.id);
        splice_exec(&mut taken.instrs, extra);
        proof {
            assert(lw[k as int].0 == taken.id);
        }
        blocks.push(taken);
        k = k + 1;
    }
    let mut order: Vec<String> = Vec::new();
    let mut q: usize = 0;
    while q < scheduled_order.len()
        invariant
            q <= scheduled_order@.len(),
            order@.len() == q,
            forall|x: int| 0 <= x < q ==> (#[trigger] order@[x])@ == scheduled_order@[x]@,
        decreases scheduled_order@.len() - q,
    {
        order.push(String::from_str(scheduled_order[q]));
        q = q + 1;
    }
    let m = MlilFunction { blocks, vars: c.vars, scheduled_order: order, semantic: Some(semantic) };
    proof {
        let (lwb, sa) = lower_blocks(bs, nb as int, sm, st0);
        assert(mlil_view(m).0 =~= Seq::new(lwb.len(), |i: int| (lwb[i].0, splice(lwb[i].1, copies_for(cps, lwb[i].0)))));
        assert(mlil_view(m).2 =~= Seq::new(scheduled_order@.len(), |i: int| scheduled_order@[i]@));
    }
    m
}

} // verus!
