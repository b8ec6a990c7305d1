//! Structure accesses: the memory accesses of a function's SSA form whose
//! address is a register, or a register plus a constant, with the access
//! size and whether it writes; accesses through stack-frame pointers are
//! left to stack-variable recovery.

use vstd::prelude::*;
use crate::collections::{assoc_get, vsa_value_get, vsa_value_items};
use crate::ssa::{all_instrs, instrs_upto, size_bytes, BinOp, OperandSize, SsaBlock, SsaDest, SsaExpr, SsaFunction, SsaInstr, SsaName};
use crate::vsa::{PtrBase, ValueSet, VsaResult};
use crate::collections::{u64_usize_map_get, u64_usize_map_insert, u64_usize_map_items, u64_usize_map_new};
use crate::ssa::{key_of, lemma_name_key_injective, name_key};
use crate::stack_vars::{
    cluster,
    cluster_exec,
    lemma_record_all_bounded,
    offsets_bounded,
    record,
    record_all,
    table_insert,
};
use crate::text::{dec, hex_lower, push_dec, push_hex_lower};
use indexmap::IndexMap;

verus! {

/// An access at a constant offset from the value of an SSA name.
#[derive(Debug, Clone, Copy, PartialEq, Eq, Structural)]
pub struct StructAccess {
    pub base: SsaName,
    pub offset: i64,
    pub size: u8,
    pub is_write: bool,
}

/// The access that the address `addr` makes when it is a register plus a
/// constant (either way round), then the one it makes when it is a
/// register alone.
pub open spec fn address_accesses(addr: SsaExpr, size: OperandSize, is_write: bool) -> Seq<StructAccess> {
    let acc = |base: SsaName, off: i64| StructAccess { base, offset: off, size: size_bytes(size), is_write };
    match addr {
        SsaExpr::BinOp { op: BinOp::Add, lhs, rhs } => (match (*lhs, *rhs) {
            (SsaExpr::Reg { reg }, SsaExpr::Const { value, .. }) => seq![acc(reg, value as i64)],
            _ => Seq::empty(),
        }) + (match (*lhs, *rhs) {
            (SsaExpr::Const { value, .. }, SsaExpr::Reg { reg }) => seq![acc(reg, value as i64)],
            _ => Seq::empty(),
        }),
        SsaExpr::Reg { reg } => seq![acc(reg, 0)],
        _ => Seq::empty(),
    }
}

/// The accesses of the loads within `e`, outermost first, in operand
/// order.
pub open spec fn expr_accesses(e: SsaExpr) -> Seq<StructAccess>
    decreases e,
{
    match e {
        SsaExpr::Load { addr, size } => address_accesses(*addr, size, false) + expr_accesses(*addr),
        SsaExpr::BinOp { lhs, rhs, .. } => expr_accesses(*lhs) + expr_accesses(*rhs),
        SsaExpr::UnOp { operand } => expr_accesses(*operand),
        SsaExpr::Sx { expr } => expr_accesses(*expr),
        SsaExpr::Zx { expr } => expr_accesses(*expr),
        _ => Seq::empty(),
    }
}

/// The accesses of the loads within the first `k` expressions of `es`.
pub open spec fn exprs_accesses(es: Seq<SsaExpr>, k: int) -> Seq<StructAccess>
    decreases k,
{
    if k <= 0 {
        Seq::empty()
    } else {
        exprs_accesses(es, k - 1) + expr_accesses(es[k - 1])
    }
}

/// The accesses of one instruction: a write through a memory destination
/// or a store, then the loads its operands make.
pub open spec fn instr_accesses(i: SsaInstr) -> Seq<StructAccess> {
    match i {
        SsaInstr::Assign { dest, expr } => (match dest {
            SsaDest::Mem { addr, size } => address_accesses(addr, size, true) + expr_accesses(addr),
            SsaDest::Reg(_) => Seq::empty(),
        }) + expr_accesses(expr),
        SsaInstr::Store { addr, value, size } => address_accesses(addr, size, true) + expr_accesses(addr)
            + expr_accesses(value),
        SsaInstr::If { cond, .. } => expr_accesses(cond),
        SsaInstr::Call { target, args, .. } => expr_accesses(target) + exprs_accesses(args@, args@.len() as int),
        SsaInstr::Return { value: Some(v) } => expr_accesses(v),
        SsaInstr::Intrinsic { inputs, .. } => exprs_accesses(inputs@, inputs@.len() as int),
        SsaInstr::SetFlags { lhs, rhs, .. } => expr_accesses(lhs) + expr_accesses(rhs),
        _ => Seq::empty(),
    }
}

/// The accesses of the first `k` instructions.
pub open spec fn instrs_accesses(is: Seq<SsaInstr>, k: int) -> Seq<StructAccess>
    decreases k,
{
    if k <= 0 {
        Seq::empty()
    } else {
        instrs_accesses(is, k - 1) + instr_accesses(is[k - 1])
    }
}

/// The SSA name holds a pointer into the stack frame.
pub open spec fn stack_based(values: Seq<(SsaName, ValueSet)>, n: SsaName) -> bool {
    assoc_get(values, n) matches Some(ValueSet::PtrOffset { base: PtrBase::StackFrame, .. })
}

/// The accesses among the first `k` of `accs` whose base is not a
/// stack-frame pointer, in order.
pub open spec fn off_stack(values: Seq<(SsaName, ValueSet)>, accs: Seq<StructAccess>, k: int) -> Seq<StructAccess>
    decreases k,
{
    if k <= 0 {
        Seq::empty()
    } else {
        off_stack(values, accs, k - 1) + if stack_based(values, accs[k - 1].base) {
            Seq::empty()
        } else {
            seq![accs[k - 1]]
        }
    }
}

/// The structure accesses of `f` under the value sets `values`.
pub open spec fn struct_accesses(f: SsaFunction, values: Seq<(SsaName, ValueSet)>) -> Seq<StructAccess> {
    let all = instrs_accesses(all_instrs(f), all_instrs(f).len() as int);
    off_stack(values, all, all.len() as int)
}

/// Appends the access that `addr` makes as an address.
fn push_address_accesses(addr: &SsaExpr, size: OperandSize, is_write: bool, out: &mut Vec<StructAccess>)
    ensures
        final(out)@ == old(out)@ + address_accesses(*addr, size, is_write),
{
    let bytes = size.bytes();
    let ghost start = out@;
    match addr {
        SsaExpr::BinOp { op: BinOp::Add, lhs, rhs } => {
            match (&**lhs, &**rhs) {
                (SsaExpr::Reg { reg }, SsaExpr::Const { value, .. }) => {
                    out.push(StructAccess { base: *reg, offset: *value as i64, size: bytes, is_write });
                },
                _ => {},
            }
            match (&**lhs, &**rhs) {
                (SsaExpr::Const { value, .. }, SsaExpr::Reg { reg }) => {
                    out.push(StructAccess { base: *reg, offset: *value as i64, size: bytes, is_write });
                },
                _ => {},
            }
        },
        SsaExpr::Reg { reg } => {
            out.push(StructAccess { base: *reg, offset: 0, size: bytes, is_write });
        },
        _ => {},
    }
    proof {
        assert(out@ =~= start + address_accesses(*addr, size, is_write));
    }
}

/// Appends the accesses of the loads within `e`.
fn walk_expr(e: &SsaExpr, out: &mut Vec<StructAccess>)
    ensures
        final(out)@ == old(out)@ + expr_accesses(*e),
    decreases e,
{
    let ghost start = out@;
    match e {
        SsaExpr::Load { addr, size } => {
            push_address_accesses(&**addr, *size, false, out);
            walk_expr(&**addr, out);
        },
        SsaExpr::BinOp { lhs, rhs, .. } => {
            walk_expr(&**lhs, out);
            walk_expr(&**rhs, out);
        },
        SsaExpr::UnOp { operand } => walk_expr(&**operand, out),
        SsaExpr::Sx { expr } => walk_expr(&**expr, out),
        SsaExpr::Zx { expr } => walk_expr(&**expr, out),
        _ => {},
    }
    proof {
        assert(out@ =~= start + expr_accesses(*e));
    }
}

/// Appends the accesses of the loads within each of `es`.
fn walk_exprs(es: &Vec<SsaExpr>, out: &mut Vec<StructAccess>)
    ensures
        final(out)@ == old(out)@ + exprs_accesses(es@, es@.len() as int),
{
    let ghost start = out@;
    for k in 0..es.len()
        invariant
            out@ == start + exprs_accesses(es@, k as int),
    {
        walk_expr(&es[k], out);
        proof {
            assert(out@ =~= start + exprs_accesses(es@, k + 1));
        }
    }
}

/// Appends the accesses of one instruction.
fn walk_instr(i: &SsaInstr, out: &mut Vec<StructAccess>)
    ensures
        final(out)@ == old(out)@ + instr_accesses(*i),
{
    let ghost start = out@;
    match i {
        SsaInstr::Assign { dest, expr } => {
            match dest {
                SsaDest::Mem { addr, size } => {
                    push_address_accesses(addr, *size, true, out);
                    walk_expr(addr, out);
                },
                SsaDest::Reg(_) => {},
            }
            walk_expr(expr, out);
        },
        SsaInstr::Store { addr, value, size } => {
            push_address_accesses(addr, *size, true, out);
            walk_expr(addr, out);
            walk_expr(value, out);
        },
        SsaInstr::If { cond, .. } => walk_expr(cond, out),
        SsaInstr::Call { target, args, .. } => {
            walk_expr(target, out);
            walk_exprs(args, out);
        },
        SsaInstr::Return { value: Some(v) } => walk_expr(v, out),
        SsaInstr::Intrinsic { inputs, .. } => walk_exprs(inputs, out),
        SsaInstr::SetFlags { lhs, rhs, .. } => {
            walk_expr(lhs, out);
            walk_expr(rhs, out);
        },
        _ => {},
    }
    proof {
        assert(out@ =~= start + instr_accesses(*i));
    }
}

/// Collects the structure accesses of `f`: for each instruction in order,
/// a write through a memory destination or store whose address is a
/// register plus a constant or a register alone, then every load within
/// its operands with such an address; accesses whose base the value-set
/// analysis found to point into the stack frame are dropped.
pub fn collect_struct_accesses(f: &SsaFunction, vsa: &VsaResult) -> (r: Vec<StructAccess>)
    ensures
        r@ == struct_accesses(*f, vsa_value_items(vsa.values)),
{
    let ghost ins = all_instrs(*f);
    let mut accesses: Vec<StructAccess> = Vec::new();
    for b in 0..f.blocks.len()
        invariant
            ins == all_instrs(*f),
            accesses@ == instrs_accesses(instrs_upto(f.blocks@, b as int), instrs_upto(f.blocks@, b as int).len() as int),
    {
        let block = &f.blocks[b];
        let ghost before = instrs_upto(f.blocks@, b as int);
        for k in 0..block.instrs.len()
            invariant
                block == f.blocks@[b as int],
                before == instrs_upto(f.blocks@, b as int),
                accesses@ == instrs_accesses(before + block.instrs@.take(k as int), before.len() + k),
        {
            walk_instr(&block.instrs[k], &mut accesses);
            proof {
                let s = before + block.instrs@.take(k + 1);
                assert(s.take(before.len() + k) =~= before + block.instrs@.take(k as int));
                lemma_instrs_accesses_prefix(s, before + block.instrs@.take(k as int), before.len() + k);
                assert(s[before.len() + k] == block.instrs@[k as int]);
            }
        }
        proof {
            assert(block.instrs@.take(block.instrs@.len() as int) =~= block.instrs@);
            assert(instrs_upto(f.blocks@, b + 1) == before + block.instrs@);
        }
    }
    let ghost all = accesses@;
    let ghost values = vsa_value_items(vsa.values);
    let mut filtered: Vec<StructAccess> = Vec::new();
    for k in 0..accesses.len()
        invariant
            all == accesses@,
            values == vsa_value_items(vsa.values),
            filtered@ == off_stack(values, all, k as int),
    {
        let acc = accesses[k];
        let stack = match vsa_value_get(&vsa.values, &acc.base) {
            Some(ValueSet::PtrOffset { base: PtrBase::StackFrame, .. }) => true,
            _ => false,
        };
        if !stack {
            filtered.push(acc);
        }
        proof {
            assert(filtered@ =~= off_stack(values, all, k + 1));
        }
    }
    filtered
}

/// The accesses of a sequence's prefix depend on the prefix alone.
proof fn lemma_instrs_accesses_prefix(s: Seq<SsaInstr>, t: Seq<SsaInstr>, k: int)
    requires
        0 <= k <= t.len(),
        k <= s.len(),
        forall|j: int| 0 <= j < k ==> s[j] == t[j],
    ensures
        instrs_accesses(s, k) == instrs_accesses(t, k),
    decreases k,
{
    if k > 0 {
        lemma_instrs_accesses_prefix(s, t, k - 1);
    }
}


/// Identifies a type in a type arena: its place in the arena.
pub type TypeId = usize;

/// A field of an inferred structure: its offset, its name and its type.
#[derive(Debug)]
pub struct StructField {
    pub offset: u64,
    pub name: String,
    pub ty: TypeId,
}

/// A type that layout inference allocates: an unsigned integer, an array
/// of another type, or a structure of fields.
#[derive(Debug)]
pub enum ArenaType {
    Int { bit_width: u16, signed: bool },
    Array { element: TypeId, count: u64 },
    Struct { name: Option<String>, fields: Vec<StructField> },
}

/// Types allocated in order; a type's id is its place.
#[derive(Debug)]
pub struct TypeArena {
    pub types: Vec<ArenaType>,
}

/// A field by offset, name and type.
pub type FieldView = (u64, Seq<char>, TypeId);

/// An arena type as a mathematical value.
pub enum TypeView {
    Int { bit_width: u16, signed: bool },
    Array { element: TypeId, count: u64 },
    Struct { name: Option<Seq<char>>, fields: Seq<FieldView> },
}

/// The view of a field.
pub open spec fn field_view(f: StructField) -> FieldView {
    (f.offset, f.name@, f.ty)
}

/// The view of an arena type.
pub open spec fn type_view(t: ArenaType) -> TypeView {
    match t {
        ArenaType::Int { bit_width, signed } => TypeView::Int { bit_width, signed },
        ArenaType::Array { element, count } => TypeView::Array { element, count },
        ArenaType::Struct { name, fields } => TypeView::Struct {
            name: match name {
                Some(n) => Some(n@),
                None => None,
            },
            fields: Seq::new(fields@.len(), |i: int| field_view(fields@[i])),
        },
    }
}

/// The views of the types of an arena.
pub open spec fn arena_view(a: Seq<ArenaType>) -> Seq<TypeView> {
    Seq::new(a.len(), |i: int| type_view(a[i]))
}

impl TypeArena {
    /// An empty arena.
    pub fn new() -> (a: TypeArena)
        ensures
            a.types@.len() == 0,
    {
        TypeArena { types: Vec::new() }
    }

    /// Adds `t` and returns its id.
    pub fn allocate(&mut self, t: ArenaType) -> (id: TypeId)
        ensures
            id == old(self).types@.len(),
            arena_view(final(self).types@) == arena_view(old(self).types@).push(type_view(t)),
    {
        let id = self.types.len();
        proof {
            assert(arena_view(self.types@.push(t)) =~= arena_view(self.types@).push(type_view(t)));
        }
        self.types.push(t);
        id
    }
}

/// The distinct bases of `acc`, in order of first access.
pub open spec fn group_bases(acc: Seq<StructAccess>) -> Seq<SsaName>
    decreases acc.len(),
{
    if acc.len() == 0 {
        Seq::empty()
    } else {
        let g = group_bases(acc.drop_last());
        if g.contains(acc.last().base) {
            g
        } else {
            g.push(acc.last().base)
        }
    }
}

/// The offsets and sizes of the accesses through base `b`, in order.
pub open spec fn accesses_of(acc: Seq<StructAccess>, b: SsaName) -> Seq<(i64, u8)>
    decreases acc.len(),
{
    if acc.len() == 0 {
        Seq::empty()
    } else if acc.last().base == b {
        accesses_of(acc.drop_last(), b).push((acc.last().offset, acc.last().size))
    } else {
        accesses_of(acc.drop_last(), b)
    }
}

/// The offset table of base `b`: each offset once, in offset order, with
/// its widest access.
pub open spec fn group_table(acc: Seq<StructAccess>, b: SsaName) -> Seq<(i64, u8)> {
    record_all(Seq::empty(), accesses_of(acc, b))
}

/// The state of laying out fields: the fields so far, the arena, the end of
/// the last field, and whether the first field looks like a vtable pointer.
pub type LayoutSt = (Seq<FieldView>, Seq<TypeView>, i64, bool);

/// Lays out the next cluster `(o, s)`: clusters below the base are skipped;
/// a gap before it becomes a byte-array padding field; a one-byte cluster
/// is a bitfield, the pointer-sized cluster at offset 0 the vtable, any
/// other a field, each an unsigned integer of its size.
pub open spec fn layout_step(st: LayoutSt, o: i64, s: u8) -> LayoutSt {
    let (fields, arena, cur, vt) = st;
    if o < 0 {
        st
    } else {
        let (f1, a1) = if o > cur {
            let elem = arena.len() as usize;
            let arr = (arena.len() + 1) as usize;
            (
                fields.push((cur as u64, "pad_0x"@ + hex_lower(cur as nat), arr)),
                arena.push(TypeView::Int { bit_width: 8, signed: false }).push(
                    TypeView::Array { element: elem, count: (o - cur) as u64 },
                ),
            )
        } else {
            (fields, arena)
        };
        let vt1 = vt || (o == 0 && s == 8);
        let name = if s == 1 {
            "bitfield_0x"@ + hex_lower(o as nat)
        } else if o == 0 && vt1 {
            "vtable"@
        } else {
            "field_0x"@ + hex_lower(o as nat)
        };
        let ty = a1.len() as usize;
        (
            f1.push((o as u64, name, ty)),
            a1.push(TypeView::Int { bit_width: (s * 8) as u16, signed: false }),
            (o + s) as i64,
            vt1,
        )
    }
}

/// `layout_step` over the clusters, in order.
pub open spec fn layout_all(st: LayoutSt, c: Seq<(i64, u8)>) -> LayoutSt
    decreases c.len(),
{
    if c.len() == 0 {
        st
    } else {
        let s1 = layout_all(st, c.drop_last());
        layout_step(s1, c.last().0, c.last().1)
    }
}

/// The name of an inferred structure: `Class_` when its first field looks
/// like a vtable pointer, else `Struct_`, then the base's register and
/// version.
pub open spec fn struct_name(b: SsaName, vt: bool) -> Seq<char> {
    (if vt {
        "Class_"@
    } else {
        "Struct_"@
    }) + dec(b.reg as nat) + "_"@ + dec(b.version as nat)
}

/// Infers the layouts of the first `k` groups: a base with at least two
/// distinct offsets gets a structure of its clustered fields, allocated
/// after them, when any field is at or past offset 0.
pub open spec fn infer_groups(acc: Seq<StructAccess>, arena: Seq<TypeView>, k: int) -> (Seq<(SsaName, TypeId)>, Seq<TypeView>)
    decreases k,
{
    if k <= 0 {
        (Seq::empty(), arena)
    } else {
        let (res, a1) = infer_groups(acc, arena, k - 1);
        let b = group_bases(acc)[k - 1];
        let t = group_table(acc, b);
        if t.len() < 2 {
            (res, a1)
        } else {
            let (fields, a2, _cur, vt) = layout_all((Seq::empty(), a1, 0, false), cluster(t));
            if fields.len() == 0 {
                (res, a2)
            } else {
                let id = a2.len() as usize;
                (
                    res.push((b, id)),
                    a2.push(TypeView::Struct { name: Some(struct_name(b, vt)), fields }),
                )
            }
        }
    }
}

/// The clusters that layout inference turns into fields: those of every
/// base with at least two distinct offsets.
pub open spec fn layout_clusters_fit(acc: Seq<StructAccess>) -> bool {
    forall|k: int, i: int|
        0 <= k < group_bases(acc).len() && group_table(acc, group_bases(acc)[k]).len() >= 2 && 0 <= i
            < cluster(group_table(acc, group_bases(acc)[k])).len() ==> {
            let c = #[trigger] cluster(group_table(acc, group_bases(acc)[k]))[i];
            c.0 >= 0 ==> c.1 < 32
        }
}


/// The offsets of `acc` lie where the layout arithmetic cannot overflow.
pub open spec fn access_offsets_bounded(acc: Seq<StructAccess>) -> bool {
    forall|i: int| 0 <= i < acc.len() ==> i64::MIN < (#[trigger] acc[i]).offset && acc[i].offset <= i64::MAX - 255
}

proof fn lemma_accesses_of_bounded(acc: Seq<StructAccess>, b: SsaName)
    requires
        access_offsets_bounded(acc),
    ensures
        offsets_bounded(accesses_of(acc, b)),
    decreases acc.len(),
{
    if acc.len() > 0 {
        assert(access_offsets_bounded(acc.drop_last())) by {
            assert forall|i: int| 0 <= i < acc.drop_last().len() implies i64::MIN < (#[trigger] acc.drop_last()[i]).offset
                && acc.drop_last()[i].offset <= i64::MAX - 255 by {
                assert(acc.drop_last()[i] == acc[i]);
            };
        };
        lemma_accesses_of_bounded(acc.drop_last(), b);
        assert(acc.last() == acc[acc.len() - 1]);
    }
}

/// The views of a list of fields.
pub open spec fn fields_view(f: Seq<StructField>) -> Seq<FieldView> {
    Seq::new(f.len(), |i: int| field_view(f[i]))
}

/// Lays out the fields of one group's clusters.
fn layout_fields(clustered: &Vec<(i64, u8)>, arena: &mut TypeArena) -> (r: (Vec<StructField>, bool))
    requires
        offsets_bounded(clustered@),
        forall|i: int| 0 <= i < clustered@.len() ==> (#[trigger] clustered@[i]).0 >= 0 ==> clustered@[i].1 < 32,
    ensures
        ({
            let (f, a, _c, vt) = layout_all((Seq::empty(), arena_view(old(arena).types@), 0, false), clustered@);
            fields_view(r.0@) == f && arena_view(final(arena).types@) == a && r.1 == vt
        }),
{
    let ghost a0 = arena_view(arena.types@);
    let ghost cl = clustered@;
    let mut fields: Vec<StructField> = Vec::new();
    let mut cur: i64 = 0;
    let mut vt = false;
    let mut j: usize = 0;
    proof {
        assert(cl.take(0) =~= Seq::<(i64, u8)>::empty());
        assert(fields_view(fields@) =~= Seq::<FieldView>::empty());
    }
    while j < clustered.len()
        invariant
            cl == clustered@,
            offsets_bounded(cl),
            forall|i: int| 0 <= i < cl.len() ==> (#[trigger] cl[i]).0 >= 0 ==> cl[i].1 < 32,
            j <= cl.len(),
            0 <= cur,
            (fields_view(fields@), arena_view(arena.types@), cur, vt) == layout_all(
                (Seq::empty(), a0, 0, false),
                cl.take(j as int),
            ),
        decreases cl.len() - j,
    {
        let (o, sz) = clustered[j];
        proof {
            assert(cl.take(j + 1).drop_last() =~= cl.take(j as int));
            assert(cl[j as int].0 <= i64::MAX - 255);
        }
        if o >= 0 {
            if o > cur {
                let elem = arena.allocate(ArenaType::Int { bit_width: 8, signed: false });
                let arr = arena.allocate(ArenaType::Array { element: elem, count: (o - cur) as u64 });
                let mut name = String::new();
                name.append("pad_0x");
                push_hex_lower(&mut name, cur as u64);
                let f = StructField { offset: cur as u64, name, ty: arr };
                proof {
                    assert(fields_view(fields@.push(f)) =~= fields_view(fields@).push(field_view(f)));
                }
                fields.push(f);
            }
            if o == 0 && sz == 8 {
                vt = true;
            }
            let mut name = String::new();
            if sz == 1 {
                name.append("bitfield_0x");
                push_hex_lower(&mut name, o as u64);
            } else if o == 0 && vt {
                name.append("vtable");
            } else {
                name.append("field_0x");
                push_hex_lower(&mut name, o as u64);
            }
            let ty = arena.allocate(ArenaType::Int { bit_width: (sz * 8) as u16, signed: false });
            let f = StructField { offset: o as u64, name, ty };
            proof {
                assert(fields_view(fields@.push(f)) =~= fields_view(fields@).push(field_view(f)));
            }
            fields.push(f);
            cur = o + sz as i64;
        }
        j = j + 1;
    }
    proof {
        assert(cl.take(cl.len() as int) =~= cl);
    }
    (fields, vt)
}

/// Infers a structure layout for each base that is accessed at two or more
/// distinct offsets: its accesses keep the widest size per offset,
/// overlapping ones merge, gaps become byte-array padding, and the
/// structure is named after the base (`Class_` when its first field is a
/// pointer at offset 0, as a vtable would be). Returns each such base with
/// the id of its structure type in `type_arena`, in order of first access.
pub fn infer_struct_layouts(accesses: &[StructAccess], type_arena: &mut TypeArena) -> (r: Vec<(SsaName, TypeId)>)
    requires
        access_offsets_bounded(accesses@),
        layout_clusters_fit(accesses@),
    ensures
        (r@, arena_view(final(type_arena).types@)) == infer_groups(
            accesses@,
            arena_view(old(type_arena).types@),
            group_bases(accesses@).len() as int,
        ),
{
    let ghost acc = accesses@;
    let mut index = u64_usize_map_new();
    let mut bases: Vec<SsaName> = Vec::new();
    let mut tables: Vec<Vec<(i64, u8)>> = Vec::new();
    let mut i: usize = 0;
    proof {
        assert(acc.take(0) =~= Seq::<StructAccess>::empty());
    }
    while i < accesses.len()
        invariant
            acc == accesses@,
            i <= acc.len(),
            bases@ == group_bases(acc.take(i as int)),
            tables@.len() == bases@.len(),
            forall|g: int| 0 <= g < bases@.len() ==> (#[trigger] tables@[g])@ == group_table(acc.take(i as int), bases@[g]),
            forall|g: int| 0 <= g < bases@.len() ==> assoc_get(u64_usize_map_items(index), name_key(#[trigger] bases@[g])) == Some(g as usize),
            forall|n: SsaName| !bases@.contains(n) ==> assoc_get(u64_usize_map_items(index), #[trigger] name_key(n)) is None,
            forall|g1: int, g2: int| 0 <= g1 < g2 < bases@.len() ==> bases@[g1] != bases@[g2],
        decreases acc.len() - i,
    {
        let a = accesses[i];
        let k = key_of(a.base);
        let ghost t0 = acc.take(i as int);
        let ghost t1 = acc.take(i + 1);
        proof {
            assert(t1.drop_last() =~= t0);
            assert(t1.last() == a);
        }
        let got = u64_usize_map_get(&index, k);
        let bl = bases.len();
        match got {
            Some(g) => {
                proof {
                    assert(assoc_get(u64_usize_map_items(index), name_key(a.base)) == Some(g));
                    if !bases@.contains(a.base) {
                        assert(false);
                    }
                    let gg = choose|gg: int| 0 <= gg < bases@.len() && bases@[gg] == a.base;
                    assert(assoc_get(u64_usize_map_items(index), name_key(bases@[gg])) == Some(gg as usize));
                    assert(gg < bl);
                    assert(gg == g as int);
                    assert(bases@[g as int] == a.base);
                    assert(bases@ == group_bases(t1));
                }
                let ghost old_tables = tables@;
                let mut tb: Vec<(i64, u8)> = Vec::new();
                std::mem::swap(&mut tb, &mut tables[g]);
                record(&mut tb, a.offset, a.size);
                std::mem::swap(&mut tb, &mut tables[g]);
                proof {
                    assert forall|g2: int| 0 <= g2 < bases@.len() implies (#[trigger] tables@[g2])@ == group_table(t1, bases@[g2]) by {
                        let b2 = bases@[g2];
                        let a0 = accesses_of(t0, b2);
                        if b2 == a.base {
                            assert(accesses_of(t1, b2) == a0.push((a.offset, a.size)));
                            assert(a0.push((a.offset, a.size)).drop_last() =~= a0);
                            if g2 != g as int {
                                assert(bases@[g as int] == a.base);
                            }
                        } else {
                            assert(accesses_of(t1, b2) == a0);
                            assert(bases@[g as int] == a.base);
                            assert(tables@[g2] == old_tables[g2]);
                        }
                    };
                }
            },
            None => {
                proof {
                    if bases@.contains(a.base) {
                        let gg = choose|gg: int| 0 <= gg < bases@.len() && bases@[gg] == a.base;
                        assert(assoc_get(u64_usize_map_items(index), name_key(bases@[gg])) == Some(gg as usize));
                    }
                }
                let g = bases.len();
                let ghost m0 = u64_usize_map_items(index);
                let ghost b0 = bases@;
                bases.push(a.base);
                let mut tb: Vec<(i64, u8)> = Vec::new();
                record(&mut tb, a.offset, a.size);
                tables.push(tb);
                u64_usize_map_insert(&mut index, k, g);
                proof {
                    assert(accesses_of(t0, a.base) =~= Seq::<(i64, u8)>::empty()) by {
                        lemma_accesses_of_absent(t0, a.base);
                    };
                    assert forall|g2: int| 0 <= g2 < bases@.len() implies assoc_get(
                        u64_usize_map_items(index),
                        name_key(#[trigger] bases@[g2]),
                    ) == Some(g2 as usize) by {
                        crate::collections::lemma_assoc_insert_get(m0, k, g, name_key(bases@[g2]));
                        if g2 < b0.len() && name_key(bases@[g2]) == k {
                            lemma_name_key_injective(bases@[g2], a.base);
                            assert(b0.contains(a.base));
                        }
                    };
                    assert forall|n: SsaName| !bases@.contains(n) implies assoc_get(
                        u64_usize_map_items(index),
                        #[trigger] name_key(n),
                    ) is None by {
                        crate::collections::lemma_assoc_insert_get(m0, k, g, name_key(n));
                        if name_key(n) == k {
                            lemma_name_key_injective(n, a.base);
                            assert(bases@[g as int] == a.base);
                        }
                        if b0.contains(n) {
                            let q = choose|q: int| 0 <= q < b0.len() && b0[q] == n;
                            assert(bases@[q] == n);
                        }
                    };
                    assert forall|g2: int| 0 <= g2 < bases@.len() implies (#[trigger] tables@[g2])@ == group_table(t1, bases@[g2]) by {
                        let b2 = bases@[g2];
                        let a0 = accesses_of(t0, b2);
                        if g2 < b0.len() {
                            assert(b0[g2] == b2);
                            assert(b2 != a.base);
                            assert(accesses_of(t1, b2) == a0);
                        } else {
                            assert(accesses_of(t1, b2) == a0.push((a.offset, a.size)));
                            assert(a0.push((a.offset, a.size)).drop_last() =~= a0);
                            assert(record_all(Seq::empty(), a0) == Seq::<(i64, u8)>::empty());
                        }
                    };
                    assert(bases@ == group_bases(t1));
                }
            },
        }
        i = i + 1;
    }
    proof {
        assert(acc.take(acc.len() as int) =~= acc);
    }
    let ghost a_start = arena_view(type_arena.types@);
    let mut result: Vec<(SsaName, TypeId)> = Vec::new();
    let nb = bases.len();
    let mut k: usize = 0;
    while k < nb
        invariant
            acc == accesses@,
            access_offsets_bounded(acc),
            layout_clusters_fit(acc),
            bases@ == group_bases(acc),
            nb == bases@.len(),
            tables@.len() == nb,
            forall|g: int| 0 <= g < nb ==> (#[trigger] tables@[g])@ == group_table(acc, bases@[g]),
            k <= nb,
            (result@, arena_view(type_arena.types@)) == infer_groups(acc, a_start, k as int),
        decreases nb - k,
    {
        let base = bases[k];
        if tables[k].len() >= 2 {
            proof {
                lemma_accesses_of_bounded(acc, base);
                lemma_record_all_bounded(Seq::empty(), accesses_of(acc, base));
            }
            let clustered = cluster_exec(&tables[k]);
            proof {
                assert forall|i: int| 0 <= i < clustered@.len() implies (#[trigger] clustered@[i]).0 >= 0 ==> clustered@[i].1
                    < 32 by {
                    assert(cluster(group_table(acc, group_bases(acc)[k as int]))[i] == clustered@[i]);
                };
            }
            let (fields, vt) = layout_fields(&clustered, type_arena);
            if fields.len() > 0 {
                let mut name = String::new();
                if vt {
                    name.append("Class_");
                } else {
                    name.append("Struct_");
                }
                push_dec(&mut name, base.reg as u64);
                name.append("_");
                push_dec(&mut name, base.version as u64);
                let id = type_arena.allocate(ArenaType::Struct { name: Some(name), fields });
                result.push((base, id));
            }
        }
        k = k + 1;
    }
    result
}

proof fn lemma_accesses_of_absent(acc: Seq<StructAccess>, b: SsaName)
    requires
        !group_bases(acc).contains(b),
    ensures
        accesses_of(acc, b) == Seq::<(i64, u8)>::empty(),
    decreases acc.len(),
{
    if acc.len() > 0 {
        let g = group_bases(acc.drop_last());
        if g.contains(acc.last().base) {
            if acc.last().base == b {
                assert(group_bases(acc) == g);
            }
        } else {
            if acc.last().base == b {
                assert(group_bases(acc)[g.len() as int] == b);
            }
            assert forall|x: SsaName| g.contains(x) implies group_bases(acc).contains(x) by {
                let q = choose|q: int| 0 <= q < g.len() && g[q] == x;
                assert(group_bases(acc)[q] == x);
            };
        }
        lemma_accesses_of_absent(acc.drop_last(), b);
    }
}

} // verus!
