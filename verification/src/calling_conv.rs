//! Calling-convention recovery: a function's signature from the registers
//! it reads before writing them (their entry versions), the types it
//! returns and its name.

use vstd::prelude::*;
use indexmap::{IndexMap, IndexSet};
use crate::collections::{assoc_get, ssa_type_get, ssa_type_items, u32_set_contains, u32_set_insert, u32_set_items, u32_set_new};
use crate::ssa::{all_instrs, instrs_upto, size_bits, SsaDest, SsaExpr, SsaFunction, SsaInstr, SsaName};
use crate::vsa::VsaResult;
use crate::text::{chars_contain_text, contains_text, lowercase_of, push_dec, to_chars, to_lowercase, dec};

verus! {

/// A calling convention.
#[derive(Debug, Clone, Copy, PartialEq, Eq, Structural)]
pub enum CallingConvention {
    Unknown,
    Cdecl,
    Stdcall,
    Fastcall,
    Thiscall,
    SysV64,
    Win64Fastcall,
}

/// A type as signature recovery reads it: void, an integer of a width and
/// signedness, or another type, known by its identifier.
#[derive(Debug, Clone, Copy, PartialEq, Eq, Structural)]
pub enum IrType {
    Void,
    Int { bit_width: u16, signed: bool },
    Other(u64),
}

/// Where a parameter is passed.
#[derive(Debug, Clone, Copy, PartialEq, Eq, Structural)]
pub enum ParamLocation {
    Register(u32),
    Stack { offset: i64 },
}

/// A parameter of a recovered signature.
#[derive(Debug, Clone)]
pub struct CallParam {
    pub name: String,
    pub ty: IrType,
    pub location: ParamLocation,
}

/// A recovered signature.
#[derive(Debug, Clone)]
pub struct CallSignature {
    pub convention: CallingConvention,
    pub params: Vec<CallParam>,
    pub return_type: IrType,
    pub is_variadic: bool,
}

/// A parameter by its name, type and location.
pub type ParamView = (Seq<char>, IrType, ParamLocation);

/// The view of a parameter.
pub open spec fn param_view(p: CallParam) -> ParamView {
    (p.name@, p.ty, p.location)
}

/// A signature by its convention, parameters, return type and whether it
/// is variadic.
pub type SignatureView = (CallingConvention, Seq<ParamView>, IrType, bool);

/// The view of a signature.
pub open spec fn signature_view(s: CallSignature) -> SignatureView {
    (s.convention, s.params@.map_values(|p: CallParam| param_view(p)), s.return_type, s.is_variadic)
}

/// The registers whose entry version `e` reads.
pub open spec fn expr_regs(e: SsaExpr) -> Set<u32>
    decreases e,
{
    match e {
        SsaExpr::Reg { reg } => if reg.version == 0 {
            set![reg.reg]
        } else {
            Set::empty()
        },
        SsaExpr::Load { addr, .. } => expr_regs(*addr),
        SsaExpr::BinOp { lhs, rhs, .. } => expr_regs(*lhs).union(expr_regs(*rhs)),
        SsaExpr::UnOp { operand } => expr_regs(*operand),
        SsaExpr::Sx { expr } => expr_regs(*expr),
        SsaExpr::Zx { expr } => expr_regs(*expr),
        _ => Set::empty(),
    }
}

/// The registers whose entry versions the first `k` of `es` read.
pub open spec fn exprs_regs(es: Seq<SsaExpr>, k: int) -> Set<u32>
    decreases k,
{
    if k <= 0 {
        Set::empty()
    } else {
        exprs_regs(es, k - 1).union(expr_regs(es[k - 1]))
    }
}

/// The registers whose entry versions an instruction reads.
pub open spec fn instr_regs(i: SsaInstr) -> Set<u32> {
    match i {
        SsaInstr::Assign { dest, expr } => expr_regs(expr).union(
            match dest {
                SsaDest::Mem { addr, .. } => expr_regs(addr),
                SsaDest::Reg(_) => Set::empty(),
            },
        ),
        SsaInstr::Store { addr, value, .. } => expr_regs(addr).union(expr_regs(value)),
        SsaInstr::If { cond, .. } => expr_regs(cond),
        SsaInstr::Call { target, args, .. } => expr_regs(target).union(exprs_regs(args@, args@.len() as int)),
        SsaInstr::Return { value: Some(v) } => expr_regs(v),
        SsaInstr::Intrinsic { inputs, .. } => exprs_regs(inputs@, inputs@.len() as int),
        SsaInstr::SetFlags { lhs, rhs, .. } => expr_regs(lhs).union(expr_regs(rhs)),
        _ => Set::empty(),
    }
}

/// The registers whose entry versions the first `k` instructions read.
pub open spec fn used_regs(is: Seq<SsaInstr>, k: int) -> Set<u32>
    decreases k,
{
    if k <= 0 {
        Set::empty()
    } else {
        used_regs(is, k - 1).union(instr_regs(is[k - 1]))
    }
}

/// Some of the first `k` instructions assigns register 0 (the return
/// register).
pub open spec fn writes_return_reg(is: Seq<SsaInstr>, k: int) -> bool
    decreases k,
{
    if k <= 0 {
        false
    } else {
        writes_return_reg(is, k - 1) || (is[k - 1] matches SsaInstr::Assign { dest: SsaDest::Reg(r), .. } && r.reg
            == 0)
    }
}

/// `ts` with `t` appended unless it is already there.
pub open spec fn push_new(ts: Seq<IrType>, t: IrType) -> Seq<IrType> {
    if ts.contains(t) {
        ts
    } else {
        ts.push(t)
    }
}

/// The types the first `k` instructions return, each once, in order: the
/// recorded type of a returned register, the unsigned integer of a
/// returned constant's width; none without recorded types.
pub open spec fn returned_types(is: Seq<SsaInstr>, types: Option<Seq<(SsaName, IrType)>>, k: int) -> Seq<IrType>
    decreases k,
{
    if k <= 0 {
        Seq::empty()
    } else {
        let prev = returned_types(is, types, k - 1);
        match (is[k - 1], types) {
            (SsaInstr::Return { value: Some(v) }, Some(ts)) => match v {
                SsaExpr::Reg { reg } => match assoc_get(ts, reg) {
                    Some(t) => push_new(prev, t),
                    None => prev,
                },
                SsaExpr::Const { size, .. } => push_new(prev, IrType::Int { bit_width: size_bits(size), signed: false }),
                _ => prev,
            },
            _ => prev,
        }
    }
}

/// The widest of the first `k` types: the first, replaced by each later
/// integer wider than a current integer.
pub open spec fn widest(ts: Seq<IrType>, k: int) -> IrType
    decreases k,
{
    if k <= 1 {
        ts[0]
    } else {
        let w = widest(ts, k - 1);
        match (w, ts[k - 1]) {
            (IrType::Int { bit_width: w1, .. }, IrType::Int { bit_width: w2, .. }) => if w2 > w1 {
                ts[k - 1]
            } else {
                w
            },
            _ => w,
        }
    }
}

/// The scores (in tenths) that the register evidence gives fastcall,
/// thiscall, System V and cdecl.
pub open spec fn convention_scores(used: Set<u32>) -> (u32, u32, u32, u32) {
    let rcx = used.contains(1);
    let rdx = used.contains(2);
    let rdi = used.contains(5);
    let rsi = used.contains(4);
    (
        if rcx && rdx { 8 } else if rcx { 4 } else { 1 },
        if rcx && !rdx { 7 } else if rcx { 5 } else { 1 },
        if rdi && rsi { 9 } else if rdi { 6 } else { 1 },
        if !rcx && !rdx && !rdi && !rsi { 8 } else { 2 },
    )
}

/// The convention with the highest score, a later one winning a tie, in
/// the order fastcall, thiscall, System V, cdecl.
pub open spec fn inferred_convention(used: Set<u32>) -> CallingConvention {
    let (f, t, s, c) = convention_scores(used);
    let (b1, c1) = if t >= f { (t, CallingConvention::Thiscall) } else { (f, CallingConvention::Fastcall) };
    let (b2, c2) = if s >= b1 { (s, CallingConvention::SysV64) } else { (b1, c1) };
    if c >= b2 { CallingConvention::Cdecl } else { c2 }
}

/// The argument registers of a convention, in order.
pub open spec fn abi_regs(c: CallingConvention) -> Seq<u32> {
    match c {
        CallingConvention::SysV64 => seq![5u32, 4, 3, 2, 8, 9],
        CallingConvention::Win64Fastcall => seq![2u32, 3, 8, 9],
        CallingConvention::Fastcall => seq![1u32, 2],
        CallingConvention::Thiscall => seq![1u32],
        _ => Seq::empty(),
    }
}

/// The index of the last of the first `k` argument registers that is used.
pub open spec fn last_used(regs: Seq<u32>, used: Set<u32>, k: int) -> Option<int>
    decreases k,
{
    if k <= 0 {
        None
    } else if used.contains(regs[k - 1]) {
        Some(k - 1)
    } else {
        last_used(regs, used, k - 1)
    }
}

/// The parameter in argument register `i` of `regs`.
pub open spec fn register_param(regs: Seq<u32>, i: int) -> ParamView {
    ("arg"@ + dec((i + 1) as nat), IrType::Int { bit_width: 64, signed: false }, ParamLocation::Register(regs[i]))
}

/// The parameters: every argument register up to the last one used.
pub open spec fn params_of(c: CallingConvention, used: Set<u32>) -> Seq<ParamView> {
    let regs = abi_regs(c);
    match last_used(regs, used, regs.len() as int) {
        Some(idx) => Seq::new((idx + 1) as nat, |i: int| register_param(regs, i)),
        None => Seq::empty(),
    }
}

/// The signature that recovery gives `f` under `convention` (inferred from
/// the registers read when unknown), with the recorded types `types`.
pub open spec fn signature_of(
    f: SsaFunction,
    convention: CallingConvention,
    types: Option<Seq<(SsaName, IrType)>>,
) -> SignatureView {
    let is = all_instrs(f);
    let used = used_regs(is, is.len() as int);
    let conv = if convention == CallingConvention::Unknown { inferred_convention(used) } else { convention };
    let lower = lowercase_of(f.name@);
    let variadic = contains_text(lower, "printf"@) || contains_text(lower, "scanf"@) || (conv
        == CallingConvention::SysV64 && used.contains(0));
    let rts = returned_types(is, types, is.len() as int);
    let ret = if rts.len() > 0 {
        widest(rts, rts.len() as int)
    } else if writes_return_reg(is, is.len() as int) {
        IrType::Int { bit_width: 64, signed: false }
    } else {
        IrType::Void
    };
    (conv, params_of(conv, used), ret, variadic)
}

/// Adds the registers whose entry versions `e` reads.
fn walk_expr(e: &SsaExpr, used: &mut IndexSet<u32>)
    ensures
        u32_set_items(*final(used)).to_set() == u32_set_items(*old(used)).to_set().union(expr_regs(*e)),
    decreases e,
{
    let ghost start = u32_set_items(*used).to_set();
    match e {
        SsaExpr::Reg { reg } => {
            if reg.version == 0 {
                let ghost before = u32_set_items(*used);
                u32_set_insert(used, reg.reg);
                proof {
                    crate::seq_facts::lemma_push_to_set(before, reg.reg);
                }
            }
        },
        SsaExpr::Load { addr, .. } => walk_expr(&**addr, used),
        SsaExpr::BinOp { lhs, rhs, .. } => {
            walk_expr(&**lhs, used);
            walk_expr(&**rhs, used);
        },
        SsaExpr::UnOp { operand } => walk_expr(&**operand, used),
        SsaExpr::Sx { expr } => walk_expr(&**expr, used),
        SsaExpr::Zx { expr } => walk_expr(&**expr, used),
        _ => {},
    }
    proof {
        assert(u32_set_items(*used).to_set() =~= start.union(expr_regs(*e)));
    }
}

/// Adds the registers whose entry versions each of `es` reads.
fn walk_exprs(es: &Vec<SsaExpr>, used: &mut IndexSet<u32>)
    ensures
        u32_set_items(*final(used)).to_set() == u32_set_items(*old(used)).to_set().union(
            exprs_regs(es@, es@.len() as int),
        ),
{
    let ghost start = u32_set_items(*used).to_set();
    for k in 0..es.len()
        invariant
            u32_set_items(*used).to_set() == start.union(exprs_regs(es@, k as int)),
    {
        walk_expr(&es[k], used);
        proof {
            assert(u32_set_items(*used).to_set() =~= start.union(exprs_regs(es@, k + 1)));
        }
    }
}

/// Adds the registers whose entry versions an instruction reads.
fn walk_instr(i: &SsaInstr, used: &mut IndexSet<u32>)
    ensures
        u32_set_items(*final(used)).to_set() == u32_set_items(*old(used)).to_set().union(instr_regs(*i)),
{
    let ghost start = u32_set_items(*used).to_set();
    match i {
        SsaInstr::Assign { dest, expr } => {
            walk_expr(expr, used);
            match dest {
                SsaDest::Mem { addr, .. } => walk_expr(addr, used),
                SsaDest::Reg(_) => {},
            }
        },
        SsaInstr::Store { addr, value, .. } => {
            walk_expr(addr, used);
            walk_expr(value, used);
        },
        SsaInstr::If { cond, .. } => walk_expr(cond, used),
        SsaInstr::Call { target, args, .. } => {
            walk_expr(target, used);
            walk_exprs(args, used);
        },
        SsaInstr::Return { value: Some(v) } => walk_expr(v, used),
        SsaInstr::Intrinsic { inputs, .. } => walk_exprs(inputs, used),
        SsaInstr::SetFlags { lhs, rhs, .. } => {
            walk_expr(lhs, used);
            walk_expr(rhs, used);
        },
        _ => {},
    }
    proof {
        assert(u32_set_items(*used).to_set() =~= start.union(instr_regs(*i)));
    }
}

/// Appends `t` to `ts` unless it is already there.
fn push_new_type(ts: &mut Vec<IrType>, t: IrType)
    ensures
        final(ts)@ == push_new(old(ts)@, t),
{
    let mut k: usize = 0;
    while k < ts.len()
        invariant
            k <= ts@.len(),
            forall|j: int| 0 <= j < k ==> ts@[j] != t,
        decreases ts@.len() - k,
    {
        if ts[k] == t {
            proof {
                assert(ts@.contains(t));
            }
            return;
        }
        k += 1;
    }
    ts.push(t);
}

/// Recovers the signature of `f`: the registers whose entry versions it
/// reads decide the convention where `convention` is unknown (scoring
/// fastcall, thiscall, System V and cdecl by which of rcx, rdx, rdi and
/// rsi it reads) and the parameters (every argument register of the
/// convention up to the last one read, each a 64-bit unsigned integer);
/// a name containing `printf` or `scanf`, or a System V function reading
/// rax, is variadic; the return type is the widest of the types it
/// returns, else a 64-bit integer where it writes rax, else void.
pub fn recover_call_signature(
    f: &SsaFunction,
    _vsa: &VsaResult,
    convention: CallingConvention,
    prim_types: Option<&IndexMap<SsaName, IrType>>,
) -> (r: CallSignature)
    ensures
        signature_view(r) == signature_of(
            *f,
            convention,
            match prim_types {
                Some(m) => Some(ssa_type_items(*m)),
                None => None,
            },
        ),
{
    let ghost types = match prim_types {
        Some(m) => Some(ssa_type_items(*m)),
        None => None::<Seq<(SsaName, IrType)>>,
    };
    let ghost is = all_instrs(*f);
    let mut used = u32_set_new();
    let mut rax_written = false;
    let mut returned: Vec<IrType> = Vec::new();
    for b in 0..f.blocks.len()
        invariant
            is == all_instrs(*f),
            types == match prim_types {
                Some(m) => Some(ssa_type_items(*m)),
                None => None::<Seq<(SsaName, IrType)>>,
            },
            ({
                let pre = instrs_upto(f.blocks@, b as int);
                &&& u32_set_items(used).to_set() == used_regs(pre, pre.len() as int)
                &&& rax_written == writes_return_reg(pre, pre.len() as int)
                &&& returned@ == returned_types(pre, types, pre.len() as int)
            }),
    {
        let block = &f.blocks[b];
        let ghost before = instrs_upto(f.blocks@, b as int);
        for k in 0..block.instrs.len()
            invariant
                block == f.blocks@[b as int],
                before == instrs_upto(f.blocks@, b as int),
                types == match prim_types {
                    Some(m) => Some(ssa_type_items(*m)),
                    None => None::<Seq<(SsaName, IrType)>>,
                },
                ({
                    let pre = before + block.instrs@.take(k as int);
                    &&& u32_set_items(used).to_set() == used_regs(pre, pre.len() as int)
                    &&& rax_written == writes_return_reg(pre, pre.len() as int)
                    &&& returned@ == returned_types(pre, types, pre.len() as int)
                }),
        {
            let instr = &block.instrs[k];
            let ghost pre = before + block.instrs@.take(k as int);
            let ghost next = before + block.instrs@.take(k + 1);
            proof {
                assert(next.take(pre.len() as int) =~= pre);
                assert(next[pre.len() as int] == *instr);
                lemma_prefix_facts(next, pre, types, pre.len() as int);
            }
            walk_instr(instr, &mut used);
            match instr {
                SsaInstr::Assign { dest: SsaDest::Reg(r), .. } => {
                    if r.reg == 0 {
                        rax_written = true;
                    }
                },
                SsaInstr::Return { value: Some(v) } => {
                    match prim_types {
                        Some(m) => match v {
                            SsaExpr::Reg { reg } => match ssa_type_get(m, reg) {
                                Some(t) => push_new_type(&mut returned, *t),
                                None => {},
                            },
                            SsaExpr::Const { size, .. } => {
                                push_new_type(&mut returned, IrType::Int { bit_width: size.bits(), signed: false })
                            },
                            _ => {},
                        },
                        None => {},
                    }
                },
                _ => {},
            }
        }
        proof {
            assert(block.instrs@.take(block.instrs@.len() as int) =~= block.instrs@);
        }
    }
    let ghost used_set = used_regs(is, is.len() as int);
    let mut conv = convention;
    if conv == CallingConvention::Unknown {
        let rcx = u32_set_contains(&used, 1);
        let rdx = u32_set_contains(&used, 2);
        let rdi = u32_set_contains(&used, 5);
        let rsi = u32_set_contains(&used, 4);
        let fast: u32 = if rcx && rdx { 8 } else if rcx { 4 } else { 1 };
        let this: u32 = if rcx && !rdx { 7 } else if rcx { 5 } else { 1 };
        let sysv: u32 = if rdi && rsi { 9 } else if rdi { 6 } else { 1 };
        let cdecl: u32 = if !rcx && !rdx && !rdi && !rsi { 8 } else { 2 };
        let (b1, c1) = if this >= fast { (this, CallingConvention::Thiscall) } else { (fast, CallingConvention::Fastcall) };
        let (b2, c2) = if sysv >= b1 { (sysv, CallingConvention::SysV64) } else { (b1, c1) };
        conv = if cdecl >= b2 { CallingConvention::Cdecl } else { c2 };
    }
    let regs: Vec<u32> = match conv {
        CallingConvention::SysV64 => vec![5u32, 4, 3, 2, 8, 9],
        CallingConvention::Win64Fastcall => vec![2u32, 3, 8, 9],
        CallingConvention::Fastcall => vec![1u32, 2],
        CallingConvention::Thiscall => vec![1u32],
        _ => Vec::new(),
    };
    proof {
        assert(regs@ =~= abi_regs(conv));
    }
    let mut last: Option<usize> = None;
    for i in 0..regs.len()
        invariant
            regs@ == abi_regs(conv),
            u32_set_items(used).to_set() == used_set,
            match last {
                Some(j) => last_used(regs@, used_set, i as int) == Some(j as int) && j < i,
                None => last_used(regs@, used_set, i as int) is None,
            },
    {
        if u32_set_contains(&used, regs[i]) {
            last = Some(i);
        }
    }
    let mut params: Vec<CallParam> = Vec::new();
    match last {
        Some(idx) => {
            for i in 0..idx + 1
                invariant
                    idx < regs@.len(),
                    regs@.len() <= 6,
                    params@.len() == i,
                    params@.map_values(|p: CallParam| param_view(p)) == Seq::new(i as nat, |j: int| register_param(regs@, j)),
            {
                let mut name = String::new();
                name.append("arg");
                push_dec(&mut name, (i + 1) as u64);
                let ghost before = params@;
                proof {
                    assert(name@ == "arg"@ + dec((i + 1) as nat));
                }
                params.push(CallParam { name, ty: IrType::Int { bit_width: 64, signed: false }, location: ParamLocation::Register(regs[i]) });
                proof {
                    assert(param_view(params@[i as int]) == register_param(regs@, i as int));
                    let want = Seq::new((i + 1) as nat, |j: int| register_param(regs@, j));
                    let got = params@.map_values(|p: CallParam| param_view(p));
                    assert forall|j: int| 0 <= j < i + 1 implies got[j] == want[j] by {
                        if j < i {
                            assert(params@[j] == before[j]);
                            assert(before.map_values(|p: CallParam| param_view(p))[j] == register_param(regs@, j));
                        }
                    }
                    assert(got =~= want);
                }
            }
        },
        None => {},
    }
    let lower = to_chars(to_lowercase(f.name.as_str()).as_str());
    let mut is_variadic = false;
    if chars_contain_text(&lower, "printf") || chars_contain_text(&lower, "scanf") {
        is_variadic = true;
    } else if conv == CallingConvention::SysV64 && u32_set_contains(&used, 0) {
        is_variadic = true;
    }
    let return_type = if returned.len() > 0 {
        let mut w = returned[0];
        for k in 1..returned.len()
            invariant
                returned@.len() > 0,
                w == widest(returned@, k as int),
        {
            let t = returned[k];
            match (w, t) {
                (IrType::Int { bit_width: w1, .. }, IrType::Int { bit_width: w2, .. }) => {
                    if w2 > w1 {
                        w = t;
                    }
                },
                _ => {},
            }
        }
        w
    } else if rax_written {
        IrType::Int { bit_width: 64, signed: false }
    } else {
        IrType::Void
    };
    let r = CallSignature { convention: conv, params, return_type, is_variadic };
    proof {
        assert(instrs_upto(f.blocks@, f.blocks@.len() as int) == is);
        assert(u32_set_items(used).to_set() == used_set);
        let sig = signature_of(*f, convention, types);
        assert(r.convention == sig.0);
        match last {
            Some(idx) => {
                assert(last_used(regs@, used_set, regs@.len() as int) == Some(idx as int));
                assert(signature_view(r).1 =~= sig.1);
            },
            None => {
                assert(last_used(regs@, used_set, regs@.len() as int) is None);
                assert(signature_view(r).1 =~= sig.1);
            },
        }
        assert(lower@ == lowercase_of(f.name@));
        assert(r.is_variadic == sig.3);
        assert(r.return_type == sig.2);
    }
    r
}

/// The facts gathered from a prefix of the instructions depend on that
/// prefix alone.
proof fn lemma_prefix_facts(s: Seq<SsaInstr>, t: Seq<SsaInstr>, types: Option<Seq<(SsaName, IrType)>>, k: int)
    requires
        0 <= k <= t.len(),
        k <= s.len(),
        forall|j: int| 0 <= j < k ==> s[j] == t[j],
    ensures
        used_regs(s, k) == used_regs(t, k),
        writes_return_reg(s, k) == writes_return_reg(t, k),
        returned_types(s, types, k) == returned_types(t, types, k),
    decreases k,
{
    if k > 0 {
        lemma_prefix_facts(s, t, types, k - 1);
    }
}

} // verus!
