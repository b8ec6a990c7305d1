//! Virtual method recovery: every slot of every vtable is a virtual
//! method, and one whose function calls a releasing import (`free`,
//! `delete`) is taken for a destructor.

use vstd::prelude::*;
use crate::cfg::{FlowInstr, LiftedFunction};
use crate::collections::{
    assoc_get, lemma_assoc_insert_get, u64_usize_map_get, u64_usize_map_insert, u64_usize_map_items, u64_usize_map_new,
};
use crate::recovered_types::{vtable_view, vtables_view, SdbImport, SdbMethod, TypeTables, VtableView};
use crate::text::{chars_contain_text, contains_text, to_chars};

verus! {

/// The last of the first `k` functions whose entry is `a`.
pub open spec fn last_function_at(fs: Seq<LiftedFunction>, a: u64, k: int) -> Option<int>
    decreases k,
{
    if k <= 0 {
        None
    } else if fs[k - 1].entry_addr == a {
        Some(k - 1)
    } else {
        last_function_at(fs, a, k - 1)
    }
}

/// The import is a releasing one: its name mentions `free` or `delete`.
pub open spec fn is_release(imp: SdbImport) -> bool {
    contains_text(imp.symbol_name@, "free"@) || contains_text(imp.symbol_name@, "delete"@)
}

/// Some releasing import is called through `t`.
pub open spec fn releases_at(imports: Seq<SdbImport>, t: u64) -> bool {
    exists|k: int| 0 <= k < imports.len() && #[trigger] imports[k].address == t && is_release(imports[k])
}

/// The instruction calls a releasing import directly.
pub open spec fn calls_release_instr(i: FlowInstr, imports: Seq<SdbImport>) -> bool {
    match i {
        FlowInstr::Call { target: Some(t) } => releases_at(imports, t),
        _ => false,
    }
}

/// Some instruction of some block of `f` calls a releasing import.
pub open spec fn calls_release(f: LiftedFunction, imports: Seq<SdbImport>) -> bool {
    exists|b: int, i: int|
        0 <= b < f.cfg.blocks@.len() && 0 <= i < f.cfg.blocks@[b].instrs@.len() && calls_release_instr(
            #[trigger] f.cfg.blocks@[b].instrs@[i],
            imports,
        )
}

/// The virtual method in slot `s` of vtable `v`.
pub open spec fn slot_method(v: VtableView, s: int, fs: Seq<LiftedFunction>, imports: Seq<SdbImport>) -> SdbMethod {
    let fn_addr = v.1[s];
    SdbMethod {
        fn_addr,
        class_vtable: v.0,
        is_virtual: true,
        slot: Some(s as usize),
        is_ctor: false,
        is_dtor: match last_function_at(fs, fn_addr, fs.len() as int) {
            Some(j) => calls_release(fs[j], imports),
            None => false,
        },
    }
}

/// The methods of the first `k` slots of `v`.
pub open spec fn slots_upto(v: VtableView, fs: Seq<LiftedFunction>, imports: Seq<SdbImport>, k: int) -> Seq<SdbMethod>
    decreases k,
{
    if k <= 0 {
        Seq::empty()
    } else {
        slots_upto(v, fs, imports, k - 1).push(slot_method(v, k - 1, fs, imports))
    }
}

/// The methods of the first `k` vtables, vtable by vtable, slot by slot.
pub open spec fn methods_upto(vs: Seq<VtableView>, fs: Seq<LiftedFunction>, imports: Seq<SdbImport>, k: int) -> Seq<SdbMethod>
    decreases k,
{
    if k <= 0 {
        Seq::empty()
    } else {
        methods_upto(vs, fs, imports, k - 1) + slots_upto(vs[k - 1], fs, imports, vs[k - 1].1.len() as int)
    }
}

proof fn lemma_last_function_at(fs: Seq<LiftedFunction>, a: u64, k: int)
    requires
        k <= fs.len(),
    ensures
        last_function_at(fs, a, k) matches Some(j) ==> 0 <= j < k,
    decreases k,
{
    if k > 0 && fs[k - 1].entry_addr != a {
        lemma_last_function_at(fs, a, k - 1);
    }
}

/// Whether some releasing import is called through `t`.
fn is_release_target(imports: &Vec<SdbImport>, t: u64) -> (r: bool)
    ensures
        r == releases_at(imports@, t),
{
    let mut k: usize = 0;
    while k < imports.len()
        invariant
            k <= imports@.len(),
            forall|q: int| 0 <= q < k ==> !(#[trigger] imports@[q].address == t && is_release(imports@[q])),
        decreases imports@.len() - k,
    {
        let imp = &imports[k];
        if imp.address == t {
            let name = to_chars(imp.symbol_name.as_str());
            if chars_contain_text(&name, "free") || chars_contain_text(&name, "delete") {
                return true;
            }
        }
        k += 1;
    }
    false
}

/// Some instruction of the first `k` blocks calls a releasing import.
pub open spec fn release_in_blocks(blocks: Seq<crate::cfg::BasicBlock>, imports: Seq<SdbImport>, k: int) -> bool {
    exists|x: int, j: int|
        0 <= x < k && 0 <= j < blocks[x].instrs@.len() && calls_release_instr(#[trigger] blocks[x].instrs@[j], imports)
}

/// Whether some instruction of `f` calls a releasing import.
fn calls_release_exec(f: &LiftedFunction, imports: &Vec<SdbImport>) -> (r: bool)
    ensures
        r == calls_release(*f, imports@),
{
    let blocks = &f.cfg.blocks;
    let mut b: usize = 0;
    while b < blocks.len()
        invariant
            blocks@ == f.cfg.blocks@,
            b <= blocks@.len(),
            !release_in_blocks(blocks@, imports@, b as int),
        decreases blocks@.len() - b,
    {
        let instrs = &blocks[b].instrs;
        let mut i: usize = 0;
        while i < instrs.len()
            invariant
                blocks@ == f.cfg.blocks@,
                b < blocks@.len(),
                instrs@ == blocks@[b as int].instrs@,
                i <= instrs@.len(),
                forall|j: int| 0 <= j < i ==> !calls_release_instr(#[trigger] instrs@[j], imports@),
            decreases instrs@.len() - i,
        {
            match instrs[i] {
                FlowInstr::Call { target: Some(t) } => {
                    if is_release_target(imports, t) {
                        proof {
                            assert(calls_release_instr(blocks@[b as int].instrs@[i as int], imports@));
                        }
                        return true;
                    }
                },
                _ => {},
            }
            i += 1;
        }
        proof {
            assert forall|x: int, j: int|
                0 <= x < b + 1 && 0 <= j < blocks@[x].instrs@.len() implies !calls_release_instr(
                #[trigger] blocks@[x].instrs@[j],
                imports@,
            ) by {
                if x == b {
                    assert(instrs@[j] == blocks@[x].instrs@[j]);
                } else {
                    assert(!release_in_blocks(blocks@, imports@, b as int));
                }
            };
        }
        b += 1;
    }
    false
}

/// Records every slot of every vtable as a virtual method, marking as a
/// destructor each whose function (the last with that entry) calls a
/// releasing import, and appends them to `types.methods`.
pub fn recover_methods(types: &mut TypeTables, functions: &Vec<LiftedFunction>, imports: &Vec<SdbImport>)
    ensures
        final(types).methods@ == old(types).methods@ + methods_upto(
            vtables_view(old(types).vtables@),
            functions@,
            imports@,
            old(types).vtables@.len() as int,
        ),
        final(types).vtables == old(types).vtables,
        final(types).inheritance == old(types).inheritance,
        final(types).classes == old(types).classes,
{
    let ghost fs = functions@;
    let nf = functions.len();
    let mut func_map = u64_usize_map_new();
    for k in 0..nf
        invariant
            nf == fs.len(),
            functions@ == fs,
            forall|a: u64|
                #[trigger] assoc_get(u64_usize_map_items(func_map), a) == match last_function_at(fs, a, k as int) {
                    Some(j) => Some(j as usize),
                    None => None::<usize>,
                },
    {
        let ghost before = u64_usize_map_items(func_map);
        u64_usize_map_insert(&mut func_map, functions[k].entry_addr, k);
        proof {
            assert forall|a: u64| #[trigger] assoc_get(u64_usize_map_items(func_map), a) == match last_function_at(
                fs,
                a,
                k + 1,
            ) {
                Some(j) => Some(j as usize),
                None => None::<usize>,
            } by {
                lemma_assoc_insert_get(before, fs[k as int].entry_addr, k, a);
            };
        }
    }
    let ghost vts = types.vtables@;
    let mut found: Vec<SdbMethod> = Vec::new();
    for v in 0..types.vtables.len()
        invariant
            nf == fs.len(),
            functions@ == fs,
            types.vtables@ == vts,
            forall|a: u64|
                #[trigger] assoc_get(u64_usize_map_items(func_map), a) == match last_function_at(fs, a, nf as int) {
                    Some(j) => Some(j as usize),
                    None => None::<usize>,
                },
            found@ == methods_upto(vtables_view(vts), fs, imports@, v as int),
    {
        let vt = &types.vtables[v];
        let ghost base = found@;
        for s in 0..vt.entries.len()
            invariant
                nf == fs.len(),
                functions@ == fs,
                *vt == vts[v as int],
                forall|a: u64|
                    #[trigger] assoc_get(u64_usize_map_items(func_map), a) == match last_function_at(
                        fs,
                        a,
                        nf as int,
                    ) {
                        Some(j) => Some(j as usize),
                        None => None::<usize>,
                    },
                found@ == base + slots_upto(vtable_view(*vt), fs, imports@, s as int),
        {
            let fn_addr = vt.entries[s];
            let mut is_dtor = false;
            match u64_usize_map_get(&func_map, fn_addr) {
                Some(j) => {
                    proof {
                        lemma_last_function_at(fs, fn_addr, nf as int);
                    }
                    is_dtor = calls_release_exec(&functions[j], imports);
                },
                None => {},
            }
            found.push(
                SdbMethod { fn_addr, class_vtable: vt.addr, is_virtual: true, slot: Some(s), is_ctor: false, is_dtor },
            );
        }
    }
    types.methods.append(&mut found);
}

} // verus!
