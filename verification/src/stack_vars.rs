//! The stack frame of a function: the variables recovered at offsets from
//! its frame pointer.

use vstd::prelude::*;
use crate::calling_conv::IrType;
use crate::collections::{assoc_get, vsa_value_get, vsa_value_items};
use crate::ssa::{size_bytes, SsaBlock, SsaDest, SsaExpr, SsaFunction, SsaInstr, SsaName};
use crate::text::{hex_lower, push_hex_lower};
use crate::vsa::{PtrBase, ValueSet, VsaResult};
use indexmap::IndexMap;

verus! {

/// A variable in a stack frame: its offset, its size in bytes, its name and
/// its type.
#[derive(Debug, Clone)]
pub struct StackVar {
    pub offset: i64,
    pub size: u8,
    pub name: String,
    pub ty: IrType,
}

/// The recovered stack frame of a function.
#[derive(Debug)]
pub struct StackFrame {
    pub vars: Vec<StackVar>,
    pub frame_size: u64,
}


/// The frame offset that `addr` points at: a register whose value set is a
/// pointer into the stack frame.
pub open spec fn frame_access(vals: Seq<(SsaName, ValueSet)>, addr: SsaExpr) -> Option<i64> {
    match addr {
        SsaExpr::Reg { reg } => match assoc_get(vals, reg) {
            Some(ValueSet::PtrOffset { base: PtrBase::StackFrame, offset }) => Some(offset),
            _ => None,
        },
        _ => None,
    }
}

/// The access of `size` bytes through `addr`, when it is a frame access.
pub open spec fn access_at(vals: Seq<(SsaName, ValueSet)>, addr: SsaExpr, size: u8) -> Seq<(i64, u8)> {
    match frame_access(vals, addr) {
        Some(o) => seq![(o, size)],
        None => Seq::empty(),
    }
}

/// The frame accesses of the loads in an expression, outermost first.
pub open spec fn expr_accesses(vals: Seq<(SsaName, ValueSet)>, e: SsaExpr) -> Seq<(i64, u8)>
    decreases e,
{
    match e {
        SsaExpr::Load { addr, size } => access_at(vals, *addr, size_bytes(size)) + expr_accesses(vals, *addr),
        SsaExpr::BinOp { lhs, rhs, .. } => expr_accesses(vals, *lhs) + expr_accesses(vals, *rhs),
        SsaExpr::UnOp { operand } => expr_accesses(vals, *operand),
        SsaExpr::Sx { expr } => expr_accesses(vals, *expr),
        SsaExpr::Zx { expr } => expr_accesses(vals, *expr),
        _ => Seq::empty(),
    }
}

/// The frame accesses of a list of expressions, in order.
pub open spec fn exprs_accesses(vals: Seq<(SsaName, ValueSet)>, s: Seq<SsaExpr>) -> Seq<(i64, u8)>
    decreases s.len(),
{
    if s.len() == 0 {
        Seq::empty()
    } else {
        exprs_accesses(vals, s.drop_last()) + expr_accesses(vals, s.last())
    }
}

/// The frame accesses of an instruction: a store or a memory assignment
/// through its address, then the loads it reads.
pub open spec fn instr_accesses(vals: Seq<(SsaName, ValueSet)>, i: SsaInstr) -> Seq<(i64, u8)> {
    match i {
        SsaInstr::Assign { dest, expr } => (match dest {
            SsaDest::Mem { addr, size } => access_at(vals, addr, size_bytes(size)) + expr_accesses(vals, addr),
            _ => Seq::empty(),
        }) + expr_accesses(vals, expr),
        SsaInstr::Store { addr, value, size } => access_at(vals, addr, size_bytes(size)) + expr_accesses(vals, addr)
            + expr_accesses(vals, value),
        SsaInstr::If { cond, .. } => expr_accesses(vals, cond),
        SsaInstr::Call { target, args, .. } => expr_accesses(vals, target) + exprs_accesses(vals, args@),
        SsaInstr::Return { value: Some(v) } => expr_accesses(vals, v),
        SsaInstr::Intrinsic { inputs, .. } => exprs_accesses(vals, inputs@),
        SsaInstr::SetFlags { lhs, rhs, .. } => expr_accesses(vals, lhs) + expr_accesses(vals, rhs),
        _ => Seq::empty(),
    }
}

/// The frame accesses of a list of instructions, in order.
pub open spec fn instrs_accesses(vals: Seq<(SsaName, ValueSet)>, s: Seq<SsaInstr>) -> Seq<(i64, u8)>
    decreases s.len(),
{
    if s.len() == 0 {
        Seq::empty()
    } else {
        instrs_accesses(vals, s.drop_last()) + instr_accesses(vals, s.last())
    }
}

/// The frame accesses of the first `k` blocks, in order.
pub open spec fn blocks_accesses(vals: Seq<(SsaName, ValueSet)>, bs: Seq<SsaBlock>, k: int) -> Seq<(i64, u8)>
    decreases k,
{
    if k <= 0 {
        Seq::empty()
    } else {
        blocks_accesses(vals, bs, k - 1) + instrs_accesses(vals, bs[k - 1].instrs@)
    }
}

/// Where offset `o` goes in table `t`: the first entry at `o` or past it.
pub open spec fn slot_of(t: Seq<(i64, u8)>, o: i64, p: int) -> bool {
    &&& 0 <= p <= t.len()
    &&& forall|q: int| 0 <= q < p ==> #[trigger] t[q].0 < o
    &&& p == t.len() || t[p].0 >= o
}

/// Records an access in a table of offsets and sizes kept in offset
/// order: an offset already present keeps the larger size, a new one is
/// inserted in its place.
pub open spec fn table_insert(t: Seq<(i64, u8)>, o: i64, s: u8) -> Seq<(i64, u8)> {
    let p = choose|p: int| slot_of(t, o, p);
    if p < t.len() && t[p].0 == o {
        t.update(p, (o, if s > t[p].1 { s } else { t[p].1 }))
    } else {
        t.insert(p, (o, s))
    }
}

/// A table with accesses recorded in order.
pub open spec fn record_all(t: Seq<(i64, u8)>, a: Seq<(i64, u8)>) -> Seq<(i64, u8)>
    decreases a.len(),
{
    if a.len() == 0 {
        t
    } else {
        let r = record_all(t, a.drop_last());
        table_insert(r, a.last().0, a.last().1)
    }
}

/// Adjacent or overlapping accesses merged, in offset order: an entry that
/// starts before the end of the last cluster extends it.
pub open spec fn cluster(t: Seq<(i64, u8)>) -> Seq<(i64, u8)>
    decreases t.len(),
{
    if t.len() == 0 {
        Seq::empty()
    } else {
        let c = cluster(t.drop_last());
        let o = t.last().0;
        let s = t.last().1;
        if c.len() > 0 && o < c.last().0 + c.last().1 {
            let last_end = c.last().0 + c.last().1;
            let end = if last_end > o + s { last_end } else { o + s };
            c.update(c.len() - 1, (c.last().0, (end - c.last().0) as u8))
        } else {
            c.push((o, s))
        }
    }
}

/// The name of the variable at offset `o`: `local_0x` and the magnitude in
/// hexadecimal below the frame pointer, `arg_0x` and the offset above.
pub open spec fn slot_name(o: i64) -> Seq<char> {
    if o < 0 {
        "local_0x"@ + hex_lower((-o) as nat)
    } else {
        "arg_0x"@ + hex_lower(o as nat)
    }
}

/// A stack variable by offset, size, name and type.
pub type StackVarView = (i64, u8, Seq<char>, IrType);

/// The view of a stack variable.
pub open spec fn stack_var_view(v: StackVar) -> StackVarView {
    (v.offset, v.size, v.name@, v.ty)
}

/// The lowest offset among `c`, or 0.
pub open spec fn min_offset(c: Seq<(i64, u8)>) -> i64
    decreases c.len(),
{
    if c.len() == 0 {
        0
    } else {
        let m = min_offset(c.drop_last());
        if c.last().0 < m {
            c.last().0
        } else {
            m
        }
    }
}

/// The frame that the accesses of a function give: one variable per
/// cluster of accesses, an unsigned integer of its size, and the frame's
/// size down to its lowest offset.
pub open spec fn frame_of(f: SsaFunction, vals: Seq<(SsaName, ValueSet)>) -> (Seq<StackVarView>, u64) {
    let acc = blocks_accesses(vals, f.blocks@, f.blocks@.len() as int);
    let c = cluster(record_all(Seq::empty(), acc));
    (
        Seq::new(
            c.len(),
            |i: int| (c[i].0, c[i].1, slot_name(c[i].0), IrType::Int { bit_width: (c[i].1 * 8) as u16, signed: false }),
        ),
        if min_offset(c) < 0 {
            (-min_offset(c)) as u64
        } else {
            0
        },
    )
}


/// Every offset of `t` lies where the frame arithmetic cannot overflow.
pub open spec fn offsets_bounded(t: Seq<(i64, u8)>) -> bool {
    forall|i: int| 0 <= i < t.len() ==> i64::MIN < #[trigger] t[i].0 && t[i].0 <= i64::MAX - 255
}

proof fn lemma_slot_unique(t: Seq<(i64, u8)>, o: i64, p1: int, p2: int)
    requires
        slot_of(t, o, p1),
        slot_of(t, o, p2),
    ensures
        p1 == p2,
{
    if p1 < p2 {
        assert(t[p1].0 < o);
    } else if p2 < p1 {
        assert(t[p2].0 < o);
    }
}

proof fn lemma_slot_exists(t: Seq<(i64, u8)>, o: i64, k: int)
    requires
        0 <= k <= t.len(),
        forall|q: int| 0 <= q < k ==> #[trigger] t[q].0 < o,
    ensures
        exists|p: int| slot_of(t, o, p),
    decreases t.len() - k,
{
    if k == t.len() || t[k].0 >= o {
        assert(slot_of(t, o, k));
    } else {
        lemma_slot_exists(t, o, k + 1);
    }
}

proof fn lemma_insert_bounded(t: Seq<(i64, u8)>, o: i64, s: u8)
    requires
        offsets_bounded(t),
        i64::MIN < o && o <= i64::MAX - 255,
    ensures
        offsets_bounded(table_insert(t, o, s)),
{
    lemma_slot_exists(t, o, 0);
    let k = choose|p: int| slot_of(t, o, p);
    let r = table_insert(t, o, s);
    assert forall|i: int| 0 <= i < r.len() implies i64::MIN < #[trigger] r[i].0 && r[i].0 <= i64::MAX - 255 by {
        if k < t.len() && t[k].0 == o {
            assert(r == t.update(k, (o, if s > t[k].1 { s } else { t[k].1 })));
        } else {
            assert(r == t.insert(k, (o, s)));
            if i > k {
                assert(r[i] == t[i - 1]);
            } else if i < k {
                assert(r[i] == t[i]);
            }
        }
    };
}

proof fn lemma_record_all_concat(t: Seq<(i64, u8)>, a: Seq<(i64, u8)>, b: Seq<(i64, u8)>)
    ensures
        record_all(t, a + b) == record_all(record_all(t, a), b),
    decreases b.len(),
{
    if b.len() == 0 {
        assert(a + b =~= a);
    } else {
        assert((a + b).drop_last() =~= a + b.drop_last());
        lemma_record_all_concat(t, a, b.drop_last());
    }
}

pub proof fn lemma_record_all_bounded(t: Seq<(i64, u8)>, a: Seq<(i64, u8)>)
    requires
        offsets_bounded(t),
        offsets_bounded(a),
    ensures
        offsets_bounded(record_all(t, a)),
    decreases a.len(),
{
    if a.len() > 0 {
        assert(offsets_bounded(a.drop_last())) by {
            assert forall|i: int| 0 <= i < a.drop_last().len() implies i64::MIN < #[trigger] a.drop_last()[i].0
                && a.drop_last()[i].0 <= i64::MAX - 255 by {
                assert(a.drop_last()[i] == a[i]);
            };
        };
        lemma_record_all_bounded(t, a.drop_last());
        assert(a.last() == a[a.len() - 1]);
        lemma_insert_bounded(record_all(t, a.drop_last()), a.last().0, a.last().1);
    }
}

pub proof fn lemma_cluster_bounded(t: Seq<(i64, u8)>)
    requires
        offsets_bounded(t),
    ensures
        offsets_bounded(cluster(t)),
    decreases t.len(),
{
    if t.len() > 0 {
        assert(offsets_bounded(t.drop_last())) by {
            assert forall|i: int| 0 <= i < t.drop_last().len() implies i64::MIN < #[trigger] t.drop_last()[i].0
                && t.drop_last()[i].0 <= i64::MAX - 255 by {
                assert(t.drop_last()[i] == t[i]);
            };
        };
        lemma_cluster_bounded(t.drop_last());
        assert(t.last() == t[t.len() - 1]);
        let c = cluster(t.drop_last());
        if c.len() > 0 {
            assert(c.last() == c[c.len() - 1]);
        }
    }
}

/// Records one access of `s` bytes at offset `o`.
pub(crate) fn record(t: &mut Vec<(i64, u8)>, o: i64, s: u8)
    ensures
        final(t)@ == table_insert(old(t)@, o, s),
{
    let mut p: usize = 0;
    while p < t.len() && t[p].0 < o
        invariant
            p <= t@.len(),
            forall|q: int| 0 <= q < p ==> #[trigger] t@[q].0 < o,
        decreases t@.len() - p,
    {
        p = p + 1;
    }
    proof {
        assert(slot_of(t@, o, p as int));
        let c = choose|c: int| slot_of(t@, o, c);
        lemma_slot_unique(t@, o, c, p as int);
    }
    if p < t.len() && t[p].0 == o {
        let cur = t[p].1;
        if s > cur {
            t.set(p, (o, s));
        } else {
            proof {
                assert(t@.update(p as int, (o, cur)) =~= t@);
            }
        }
    } else {
        t.insert(p, (o, s));
    }
}

/// Records the access through `addr`, when it is a frame access.
fn note_access(vsa: &VsaResult, addr: &SsaExpr, size: u8, t: &mut Vec<(i64, u8)>)
    ensures
        final(t)@ == record_all(old(t)@, access_at(vsa_value_items(vsa.values), *addr, size)),
{
    let ghost t0 = t@;
    proof {
        assert(record_all(t0, Seq::<(i64, u8)>::empty()) == t0);
    }
    if let SsaExpr::Reg { reg } = addr {
        if let Some(v) = vsa_value_get(&vsa.values, reg) {
            if let ValueSet::PtrOffset { base, offset } = v {
                if let PtrBase::StackFrame = base {
                    record(t, *offset, size);
                    proof {
                        let a = seq![(*offset, size)];
                        assert(a.drop_last() =~= Seq::<(i64, u8)>::empty());
                    }
                }
            }
        }
    }
}

/// Records the frame accesses of the loads in `e`.
fn walk_expr(vsa: &VsaResult, e: &SsaExpr, t: &mut Vec<(i64, u8)>)
    ensures
        final(t)@ == record_all(old(t)@, expr_accesses(vsa_value_items(vsa.values), *e)),
    decreases e,
{
    let ghost vals = vsa_value_items(vsa.values);
    let ghost t0 = t@;
    match e {
        SsaExpr::Load { addr, size } => {
            note_access(vsa, addr, size.bytes(), t);
            walk_expr(vsa, addr, t);
            proof {
                lemma_record_all_concat(t0, access_at(vals, **addr, size_bytes(*size)), expr_accesses(vals, **addr));
            }
        },
        SsaExpr::BinOp { lhs, rhs, .. } => {
            walk_expr(vsa, lhs, t);
            walk_expr(vsa, rhs, t);
            proof {
                lemma_record_all_concat(t0, expr_accesses(vals, **lhs), expr_accesses(vals, **rhs));
            }
        },
        SsaExpr::UnOp { operand } => walk_expr(vsa, operand, t),
        SsaExpr::Sx { expr } => walk_expr(vsa, expr, t),
        SsaExpr::Zx { expr } => walk_expr(vsa, expr, t),
        _ => {},
    }
}

/// Records the frame accesses of a list of expressions.
fn walk_exprs(vsa: &VsaResult, v: &Vec<SsaExpr>, t: &mut Vec<(i64, u8)>)
    ensures
        final(t)@ == record_all(old(t)@, exprs_accesses(vsa_value_items(vsa.values), v@)),
{
    let ghost vals = vsa_value_items(vsa.values);
    let ghost t0 = t@;
    let mut i: usize = 0;
    proof {
        assert(v@.take(0) =~= Seq::<SsaExpr>::empty());
    }
    while i < v.len()
        invariant
            vals == vsa_value_items(vsa.values),
            i <= v@.len(),
            t@ == record_all(t0, exprs_accesses(vals, v@.take(i as int))),
        decreases v@.len() - i,
    {
        walk_expr(vsa, &v[i], t);
        proof {
            assert(v@.take(i + 1).drop_last() =~= v@.take(i as int));
            lemma_record_all_concat(t0, exprs_accesses(vals, v@.take(i as int)), expr_accesses(vals, v@[i as int]));
        }
        i = i + 1;
    }
    proof {
        assert(v@.take(v@.len() as int) =~= v@);
    }
}

/// Records the frame accesses of an instruction.
fn walk_instr(vsa: &VsaResult, ins: &SsaInstr, t: &mut Vec<(i64, u8)>)
    ensures
        final(t)@ == record_all(old(t)@, instr_accesses(vsa_value_items(vsa.values), *ins)),
{
    let ghost vals = vsa_value_items(vsa.values);
    let ghost t0 = t@;
    match ins {
        SsaInstr::Assign { dest, expr } => {
            let ghost da = match dest {
                SsaDest::Mem { addr, size } => access_at(vals, *addr, size_bytes(*size)) + expr_accesses(vals, *addr),
                _ => Seq::empty(),
            };
            match dest {
                SsaDest::Mem { addr, size } => {
                    note_access(vsa, addr, size.bytes(), t);
                    walk_expr(vsa, addr, t);
                    proof {
                        lemma_record_all_concat(t0, access_at(vals, *addr, size_bytes(*size)), expr_accesses(vals, *addr));
                    }
                },
                _ => {
                    proof {
                        assert(record_all(t0, Seq::<(i64, u8)>::empty()) == t0);
                    }
                },
            }
            walk_expr(vsa, expr, t);
            proof {
                lemma_record_all_concat(t0, da, expr_accesses(vals, *expr));
            }
        },
        SsaInstr::Store { addr, value, size } => {
            note_access(vsa, addr, size.bytes(), t);
            walk_expr(vsa, addr, t);
            walk_expr(vsa, value, t);
            proof {
                let a1 = access_at(vals, *addr, size_bytes(*size));
                let a2 = expr_accesses(vals, *addr);
                let a3 = expr_accesses(vals, *value);
                lemma_record_all_concat(t0, a1, a2);
                lemma_record_all_concat(t0, a1 + a2, a3);
            }
        },
        SsaInstr::If { cond, .. } => walk_expr(vsa, cond, t),
        SsaInstr::Call { target, args, .. } => {
            walk_expr(vsa, target, t);
            walk_exprs(vsa, args, t);
            proof {
                lemma_record_all_concat(t0, expr_accesses(vals, *target), exprs_accesses(vals, args@));
            }
        },
        SsaInstr::Return { value } => {
            match value {
                Some(v) => walk_expr(vsa, v, t),
                None => {
                    proof {
                        assert(record_all(t0, Seq::<(i64, u8)>::empty()) == t0);
                    }
                },
            }
        },
        SsaInstr::Intrinsic { inputs, .. } => walk_exprs(vsa, inputs, t),
        SsaInstr::SetFlags { lhs, rhs, .. } => {
            walk_expr(vsa, lhs, t);
            walk_expr(vsa, rhs, t);
            proof {
                lemma_record_all_concat(t0, expr_accesses(vals, *lhs), expr_accesses(vals, *rhs));
            }
        },
        _ => {
            proof {
                assert(record_all(t0, Seq::<(i64, u8)>::empty()) == t0);
            }
        },
    }
}


/// Merges adjacent or overlapping entries of an offset-ordered table.
pub(crate) fn cluster_exec(table: &Vec<(i64, u8)>) -> (clustered: Vec<(i64, u8)>)
    requires
        offsets_bounded(table@),
    ensures
        clustered@ == cluster(table@),
        offsets_bounded(clustered@),
{
    let ghost tb = table@;
    let mut clustered: Vec<(i64, u8)> = Vec::new();
    let mut j: usize = 0;
    proof {
        assert(tb.take(0) =~= Seq::<(i64, u8)>::empty());
    }
    while j < table.len()
        invariant
            tb == table@,
            offsets_bounded(tb),
            j <= tb.len(),
            clustered@ == cluster(tb.take(j as int)),
        decreases tb.len() - j,
    {
        proof {
            assert(tb.take(j + 1).drop_last() =~= tb.take(j as int));
            lemma_cluster_bounded(tb.take(j as int));
            assert(tb.take(j as int) =~= tb.take(j as int));
            assert(tb[j as int].0 <= i64::MAX - 255);
            if clustered@.len() > 0 {
                assert(clustered@.last() == clustered@[clustered@.len() - 1]);
                assert(offsets_bounded(tb.take(j as int))) by {
                    assert forall|i: int| 0 <= i < tb.take(j as int).len() implies i64::MIN < #[trigger] tb.take(
                        j as int,
                    )[i].0 && tb.take(j as int)[i].0 <= i64::MAX - 255 by {
                        assert(tb.take(j as int)[i] == tb[i]);
                    };
                };
                lemma_cluster_bounded(tb.take(j as int));
            }
        }
        let (o, sz) = table[j];
        let n = clustered.len();
        let mut merged = false;
        if n > 0 {
            let (lo, ls) = clustered[n - 1];
            let last_end = lo + ls as i64;
            if o < last_end {
                let new_end = if last_end > o + sz as i64 {
                    last_end
                } else {
                    o + sz as i64
                };
                clustered.set(n - 1, (lo, (new_end - lo) as u8));
                merged = true;
            }
        }
        if !merged {
            clustered.push((o, sz));
        }
        j = j + 1;
    }
    proof {
        assert(tb.take(tb.len() as int) =~= tb);
    }
    proof {
        lemma_cluster_bounded(tb);
    }
    clustered
}

/// The accesses of every block of `f`.
pub open spec fn func_accesses(f: SsaFunction, vals: Seq<(SsaName, ValueSet)>) -> Seq<(i64, u8)> {
    blocks_accesses(vals, f.blocks@, f.blocks@.len() as int)
}

/// The clusters of a function's frame accesses.
pub open spec fn func_clusters(f: SsaFunction, vals: Seq<(SsaName, ValueSet)>) -> Seq<(i64, u8)> {
    cluster(record_all(Seq::empty(), func_accesses(f, vals)))
}

/// Recovers the stack frame of `func` from the frame pointers that `vsa`
/// found: every load, store or memory assignment through a register that
/// points into the frame is an access of its width at that offset; the
/// accesses at each offset keep their widest size, overlapping ones merge
/// into one variable, and the frame reaches down to the lowest offset.
pub fn recover_stack_vars(func: &SsaFunction, vsa: &VsaResult) -> (frame: StackFrame)
    requires
        offsets_bounded(func_accesses(*func, vsa_value_items(vsa.values))),
        forall|i: int|
            0 <= i < func_clusters(*func, vsa_value_items(vsa.values)).len() ==> (#[trigger] func_clusters(
                *func,
                vsa_value_items(vsa.values),
            )[i]).1 < 32,
    ensures
        ({
            let (vars, size) = frame_of(*func, vsa_value_items(vsa.values));
            &&& Seq::new(frame.vars@.len(), |i: int| stack_var_view(frame.vars@[i])) == vars
            &&& frame.frame_size == size
        }),
{
    let ghost vals = vsa_value_items(vsa.values);
    let ghost bs = func.blocks@;
    let mut table: Vec<(i64, u8)> = Vec::new();
    let nb = func.blocks.len();
    let mut k: usize = 0;
    while k < nb
        invariant
            vals == vsa_value_items(vsa.values),
            bs == func.blocks@,
            nb == bs.len(),
            k <= nb,
            table@ == record_all(Seq::empty(), blocks_accesses(vals, bs, k as int)),
        decreases nb - k,
    {
        let ins = &func.blocks[k].instrs;
        let ghost t1 = table@;
        let mut i: usize = 0;
        proof {
            assert(ins@.take(0) =~= Seq::<SsaInstr>::empty());
            assert(record_all(t1, Seq::<(i64, u8)>::empty()) == t1);
        }
        while i < ins.len()
            invariant
                vals == vsa_value_items(vsa.values),
                i <= ins@.len(),
                table@ == record_all(t1, instrs_accesses(vals, ins@.take(i as int))),
            decreases ins@.len() - i,
        {
            walk_instr(vsa, &ins[i], &mut table);
            proof {
                assert(ins@.take(i + 1).drop_last() =~= ins@.take(i as int));
                lemma_record_all_concat(t1, instrs_accesses(vals, ins@.take(i as int)), instr_accesses(vals, ins@[i as int]));
            }
            i = i + 1;
        }
        proof {
            assert(ins@.take(ins@.len() as int) =~= ins@);
            lemma_record_all_concat(Seq::empty(), blocks_accesses(vals, bs, k as int), instrs_accesses(vals, ins@));
        }
        k = k + 1;
    }
    proof {
        lemma_record_all_bounded(Seq::empty(), func_accesses(*func, vals));
        lemma_cluster_bounded(table@);
    }
    let clustered = cluster_exec(&table);
    let ghost cl = clustered@;
    let mut vars: Vec<StackVar> = Vec::new();
    let mut min_off: i64 = 0;
    let mut q: usize = 0;
    proof {
        assert(cl.take(0) =~= Seq::<(i64, u8)>::empty());
    }
    while q < clustered.len()
        invariant
            cl == clustered@,
            cl == func_clusters(*func, vals),
            offsets_bounded(cl),
            forall|i: int| 0 <= i < cl.len() ==> (#[trigger] cl[i]).1 < 32,
            q <= cl.len(),
            vars@.len() == q,
            forall|i: int|
                0 <= i < q ==> stack_var_view(#[trigger] vars@[i]) == (
                    cl[i].0,
                    cl[i].1,
                    slot_name(cl[i].0),
                    IrType::Int { bit_width: (cl[i].1 * 8) as u16, signed: false },
                ),
            min_off == min_offset(cl.take(q as int)),
            min_off <= 0,
            i64::MIN < min_off,
        decreases cl.len() - q,
    {
        let (o, sz) = clustered[q];
        proof {
            assert(cl[q as int].0 > i64::MIN);
            assert(cl.take(q + 1).drop_last() =~= cl.take(q as int));
        }
        if o < min_off {
            min_off = o;
        }
        let mut name = String::new();
        if o < 0 {
            name.append("local_0x");
            push_hex_lower(&mut name, (-o) as u64);
        } else {
            name.append("arg_0x");
            push_hex_lower(&mut name, o as u64);
        }
        vars.push(
            StackVar {
                offset: o,
                size: sz,
                name,
                ty: IrType::Int { bit_width: (sz * 8) as u16, signed: false },
            },
        );
        q = q + 1;
    }
    proof {
        assert(cl.take(cl.len() as int) =~= cl);
    }
    let frame_size: u64 = if min_off < 0 {
        (-min_off) as u64
    } else {
        0
    };
    let frame = StackFrame { vars, frame_size };
    proof {
        let (vs, _size) = frame_of(*func, vals);
        assert(Seq::new(frame.vars@.len(), |i: int| stack_var_view(frame.vars@[i])) =~= vs);
    }
    frame
}

} // verus!
