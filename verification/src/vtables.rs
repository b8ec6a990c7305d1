//! Vtable detection and assignment: runs of code pointers in read-only
//! data taken for vtables, and constructors that store a vtable's address
//! into the object they build.

use vstd::prelude::*;
use crate::cfg::{FlowInstr, LiftedFunction, StoreAddr};
use crate::collections::{assoc_get, lemma_assoc_insert_get, u64_usize_map_get, u64_usize_map_insert, u64_usize_map_items, u64_usize_map_new};
use crate::image::{is_x86, le_pointer, read_pointer, section_holds, ImageSection, LoadedImage};
use crate::recovered_types::{vtable_view, vtables_view, SdbMethod, SdbVtable, TypeTables, VtableView};
use crate::text::{hex_lower, push_hex_lower, str_eq};

verus! {

/// A section that holds code: flagged executable, or named `.text` or
/// `.code`.
pub open spec fn is_code_section(s: ImageSection) -> bool {
    s.executable || s.name@ == ".text"@ || s.name@ == ".code"@
}

/// `p` lies in a code section.
pub open spec fn points_to_code(secs: Seq<ImageSection>, p: u64) -> bool {
    exists|k: int| 0 <= k < secs.len() && is_code_section(#[trigger] secs[k]) && section_holds(secs[k], p)
}

/// `p` lies in a section that does not hold code.
pub open spec fn points_to_data(secs: Seq<ImageSection>, p: u64) -> bool {
    exists|k: int| 0 <= k < secs.len() && !is_code_section(#[trigger] secs[k]) && section_holds(secs[k], p)
}

/// The state of a scan for vtables: the vtables found so far (address and
/// entries), the current run of pointers and the address it started at.
pub type RunScan = (Seq<(u64, Seq<u64>)>, Seq<u64>, u64);

/// The vtables found once the current run ends: the run counts when it
/// holds at least two pointers.
pub open spec fn close_run(st: RunScan) -> Seq<(u64, Seq<u64>)> {
    if st.1.len() >= 2 {
        st.0.push((st.2, st.1))
    } else {
        st.0
    }
}

/// One step of the scan over the pointer `p` read at address `at`: a
/// pointer into code extends the run, as does a pointer into data that
/// would open it (the slot of a type-information pointer); anything else
/// ends the run.
pub open spec fn scan_step(secs: Seq<ImageSection>, st: RunScan, p: u64, at: u64) -> RunScan {
    if points_to_code(secs, p) || (st.1.len() == 0 && points_to_data(secs, p)) {
        (st.0, st.1.push(p), if st.1.len() == 0 { at } else { st.2 })
    } else {
        (close_run(st), Seq::empty(), st.2)
    }
}

/// The scan of the pointer-sized words of `s` from byte offset `i` on,
/// starting in state `st`.
pub open spec fn scan_from(secs: Seq<ImageSection>, s: ImageSection, size: int, i: int, st: RunScan) -> RunScan
    decreases s.data@.len() - i,
{
    if size <= 0 || i < 0 || i + size > s.data@.len() {
        st
    } else {
        scan_from(
            secs,
            s,
            size,
            i + size,
            scan_step(secs, st, le_pointer(s.data@, i, size) as u64, (s.start + i) as u64),
        )
    }
}

/// The vtables found in one section: read-only sections only.
pub open spec fn section_vtables(secs: Seq<ImageSection>, s: ImageSection, size: int) -> Seq<(u64, Seq<u64>)> {
    if s.executable || s.writable {
        Seq::empty()
    } else {
        close_run(scan_from(secs, s, size, 0, (Seq::empty(), Seq::empty(), 0)))
    }
}

/// The vtables found in the first `k` sections, in order.
pub open spec fn detected_upto(secs: Seq<ImageSection>, size: int, k: int) -> Seq<(u64, Seq<u64>)>
    decreases k,
{
    if k <= 0 {
        Seq::empty()
    } else {
        detected_upto(secs, size, k - 1) + section_vtables(secs, secs[k - 1], size)
    }
}

/// A found vtable as recorded: no class name and no base yet.
pub open spec fn new_vtable(e: (u64, Seq<u64>)) -> VtableView {
    (e.0, e.1, None, None)
}

/// Every section that is scanned fits in the address space.
pub open spec fn scannable(secs: Seq<ImageSection>) -> bool {
    forall|k: int|
        0 <= k < secs.len() && !secs[k].executable && !secs[k].writable
            ==> #[trigger] secs[k].start + secs[k].data@.len() <= u64::MAX
}

/// Whether `p` lies in a code section (`code`), or in one that is not.
fn points_into(secs: &Vec<ImageSection>, p: u64, code: bool) -> (r: bool)
    ensures
        r == if code { points_to_code(secs@, p) } else { points_to_data(secs@, p) },
{
    let mut k: usize = 0;
    while k < secs.len()
        invariant
            k <= secs@.len(),
            forall|q: int|
                0 <= q < k ==> !(is_code_section(#[trigger] secs@[q]) == code && section_holds(secs@[q], p)),
        decreases secs@.len() - k,
    {
        let s = &secs[k];
        let is_code = s.executable || str_eq(s.name.as_str(), ".text") || str_eq(s.name.as_str(), ".code");
        if is_code == code && s.start <= p && p < s.end {
            return true;
        }
        k += 1;
    }
    false
}

/// Recording a found vtable keeps the recorded list in step with the
/// found ones.
proof fn lemma_record_vtable(
    base: Seq<VtableView>,
    emitted: Seq<(u64, Seq<u64>)>,
    before: Seq<SdbVtable>,
    after: Seq<SdbVtable>,
    v: SdbVtable,
    e: (u64, Seq<u64>),
)
    requires
        vtables_view(before) == base + emitted.map_values(|x: (u64, Seq<u64>)| new_vtable(x)),
        after == before.push(v),
        vtable_view(v) == new_vtable(e),
    ensures
        vtables_view(after) == base + emitted.push(e).map_values(|x: (u64, Seq<u64>)| new_vtable(x)),
{
    assert(vtables_view(after) =~= vtables_view(before).push(vtable_view(v)));
    assert(emitted.push(e).map_values(|x: (u64, Seq<u64>)| new_vtable(x)) =~= emitted.map_values(
        |x: (u64, Seq<u64>)| new_vtable(x),
    ).push(new_vtable(e)));
    assert(vtables_view(after) =~= base + emitted.push(e).map_values(|x: (u64, Seq<u64>)| new_vtable(x)));
}

/// The vtables of one read-only section, appended to `found`.
fn scan_section(secs: &Vec<ImageSection>, s: &ImageSection, size: usize, found: &mut Vec<SdbVtable>)
    requires
        size == 4 || size == 8,
        s.start + s.data@.len() <= u64::MAX,
    ensures
        vtables_view(final(found)@) == vtables_view(old(found)@) + close_run(
            scan_from(secs@, *s, size as int, 0, (Seq::empty(), Seq::empty(), 0)),
        ).map_values(|e: (u64, Seq<u64>)| new_vtable(e)),
{
    let ghost base = vtables_view(found@);
    let ghost init: RunScan = (Seq::empty(), Seq::empty(), 0);
    let ghost mut emitted: Seq<(u64, Seq<u64>)> = Seq::empty();
    let d = &s.data;
    let n = d.len();
    let mut i: usize = 0;
    let mut run: Vec<u64> = Vec::new();
    let mut run_start: u64 = 0;
    while i <= n && n - i >= size
        invariant
            size == 4 || size == 8,
            n == d@.len(),
            d == s.data,
            s.start + n <= u64::MAX,
            i <= n,
            scan_from(secs@, *s, size as int, 0, init) == scan_from(
                secs@,
                *s,
                size as int,
                i as int,
                (emitted, run@, run_start),
            ),
            vtables_view(found@) == base + emitted.map_values(|e: (u64, Seq<u64>)| new_vtable(e)),
        decreases n - i,
    {
        let p = read_pointer(d, i, size);
        let ghost st: RunScan = (emitted, run@, run_start);
        let at = s.start + i as u64;
        let is_first = run.len() == 0;
        if points_into(secs, p, true) || (is_first && points_into(secs, p, false)) {
            if is_first {
                run_start = at;
            }
            run.push(p);
        } else {
            if run.len() >= 2 {
                let ghost rv = run@;
                let ghost prev_found = found@;
                let entries = run;
                run = Vec::new();
                let v = SdbVtable { addr: run_start, entries, class_name: None, base_vtable: None };
                proof {
                    assert(vtable_view(v) == new_vtable((run_start, rv)));
                }
                found.push(v);
                proof {
                    lemma_record_vtable(base, emitted, prev_found, found@, v, (run_start, rv));
                    emitted = emitted.push((run_start, rv));
                }
            } else {
                run = Vec::new();
            }
        }
        proof {
            assert((emitted, run@, run_start) == scan_step(secs@, st, p, at));
        }
        i = i + size;
    }
    if run.len() >= 2 {
        let ghost rv = run@;
        let ghost prev_found = found@;
        let v = SdbVtable { addr: run_start, entries: run, class_name: None, base_vtable: None };
        proof {
            assert(vtable_view(v) == new_vtable((run_start, rv)));
        }
        found.push(v);
        proof {
            lemma_record_vtable(base, emitted, prev_found, found@, v, (run_start, rv));
            emitted = emitted.push((run_start, rv));
        }
    }
}

/// Scans the read-only sections for vtables, runs of at least two pointers
/// into code (the first may point into data, where type information
/// lives), and appends them, without class names, to `types.vtables`.
pub fn detect_vtables(types: &mut TypeTables, img: &LoadedImage)
    requires
        scannable(img.sections@),
    ensures
        vtables_view(final(types).vtables@) == vtables_view(old(types).vtables@) + detected_upto(
            img.sections@,
            if img.arch_name@ == "x86"@ { 4 } else { 8 },
            img.sections@.len() as int,
        ).map_values(|e: (u64, Seq<u64>)| new_vtable(e)),
        final(types).methods == old(types).methods,
        final(types).inheritance == old(types).inheritance,
        final(types).classes == old(types).classes,
{
    let size: usize = if is_x86(img) { 4 } else { 8 };
    let secs = &img.sections;
    let mut found: Vec<SdbVtable> = Vec::new();
    for k in 0..secs.len()
        invariant
            size == if img.arch_name@ == "x86"@ { 4usize } else { 8usize },
            secs == img.sections,
            scannable(secs@),
            vtables_view(found@) == detected_upto(secs@, size as int, k as int).map_values(
                |e: (u64, Seq<u64>)| new_vtable(e),
            ),
    {
        let s = &secs[k];
        let ghost before = found@;
        if !s.executable && !s.writable {
            scan_section(secs, s, size, &mut found);
        }
        proof {
            let f = |e: (u64, Seq<u64>)| new_vtable(e);
            let prev = detected_upto(secs@, size as int, k as int);
            let part = section_vtables(secs@, secs@[k as int], size as int);
            assert((prev + part).map_values(f) =~= prev.map_values(f) + part.map_values(f));
            if s.executable || s.writable {
                assert(part =~= Seq::<(u64, Seq<u64>)>::empty());
                assert(vtables_view(found@) =~= vtables_view(before));
            }
        }
    }
    let ghost old_view = vtables_view(types.vtables@);
    let ghost found_view = vtables_view(found@);
    types.vtables.append(&mut found);
    proof {
        assert(vtables_view(types.vtables@) =~= old_view + found_view);
    }
}

/// The last of the first `k` vtables at address `a`.
pub open spec fn last_vtable_at(vs: Seq<VtableView>, a: u64, k: int) -> Option<int>
    decreases k,
{
    if k <= 0 {
        None
    } else if vs[k - 1].0 == a {
        Some(k - 1)
    } else {
        last_vtable_at(vs, a, k - 1)
    }
}

/// The instructions of the entry block of `f`, if it has one.
pub open spec fn entry_block_instrs(f: LiftedFunction) -> Seq<FlowInstr> {
    match f.cfg.entry {
        Some(e) => if (e as int) < f.cfg.blocks@.len() {
            f.cfg.blocks@[e as int].instrs@
        } else {
            Seq::empty()
        },
        None => Seq::empty(),
    }
}

/// The constant an instruction stores through a register or through a
/// register plus an offset, the shapes of a store into `this`.
pub open spec fn stored_into_this(i: FlowInstr) -> Option<u64> {
    match i {
        FlowInstr::Store { addr, value: Some(c) } => match addr {
            StoreAddr::Other => None,
            _ => Some(c),
        },
        _ => None,
    }
}

/// A constructor's store of a vtable address: the function's entry, the
/// vtable address and the index of the vtable it names.
pub type CtorStore = (u64, u64, int);

/// The stores of known vtable addresses into `this` among the first `k`
/// instructions of `instrs`, of the function at `entry`.
pub open spec fn instr_ctor_stores(vs: Seq<VtableView>, entry: u64, instrs: Seq<FlowInstr>, k: int) -> Seq<CtorStore>
    decreases k,
{
    if k <= 0 {
        Seq::empty()
    } else {
        let prev = instr_ctor_stores(vs, entry, instrs, k - 1);
        match stored_into_this(instrs[k - 1]) {
            Some(c) => match last_vtable_at(vs, c, vs.len() as int) {
                Some(j) => prev.push((entry, c, j)),
                None => prev,
            },
            None => prev,
        }
    }
}

/// The constructor stores in the entry blocks of the first `k` functions.
pub open spec fn ctor_stores(vs: Seq<VtableView>, fs: Seq<LiftedFunction>, k: int) -> Seq<CtorStore>
    decreases k,
{
    if k <= 0 {
        Seq::empty()
    } else {
        let f = fs[k - 1];
        let instrs = entry_block_instrs(f);
        ctor_stores(vs, fs, k - 1) + instr_ctor_stores(vs, f.entry_addr, instrs, instrs.len() as int)
    }
}

/// The class name given to the vtable a constructor at `entry` installs.
pub open spec fn class_label(entry: u64) -> Seq<char> {
    "class_"@ + hex_lower(entry as nat)
}

/// The vtables after naming each stored vtable after its constructor, in
/// order, so that the last constructor's name stands.
pub open spec fn label_vtables(vs: Seq<VtableView>, stores: Seq<CtorStore>) -> Seq<VtableView>
    decreases stores.len(),
{
    if stores.len() == 0 {
        vs
    } else {
        let prev = label_vtables(vs, stores.drop_last());
        let st = stores.last();
        prev.update(st.2, (prev[st.2].0, prev[st.2].1, Some(class_label(st.0)), prev[st.2].3))
    }
}

/// The constructor method a store records.
pub open spec fn ctor_method_of(st: CtorStore) -> SdbMethod {
    SdbMethod { fn_addr: st.0, class_vtable: st.1, is_virtual: false, slot: None, is_ctor: true, is_dtor: false }
}

/// The vtable has a class name.
pub open spec fn is_named(v: VtableView) -> bool {
    v.2 is Some
}

/// Labelling keeps the length.
proof fn lemma_label_len(vs: Seq<VtableView>, stores: Seq<CtorStore>)
    requires
        forall|q: int| 0 <= q < stores.len() ==> 0 <= #[trigger] stores[q].2 < vs.len(),
    ensures
        label_vtables(vs, stores).len() == vs.len(),
    decreases stores.len(),
{
    if stores.len() > 0 {
        lemma_label_len(vs, stores.drop_last());
    }
}

/// The last vtable found by the search is one at that address.
pub proof fn lemma_last_vtable_at_pub(vs: Seq<VtableView>, a: u64, k: int)
    requires
        k <= vs.len(),
    ensures
        last_vtable_at(vs, a, k) matches Some(j) ==> 0 <= j < k && vs[j].0 == a,
    decreases k,
{
    if k > 0 && vs[k - 1].0 != a {
        lemma_last_vtable_at_pub(vs, a, k - 1);
    }
}

/// Names each vtable that a constructor stores into `this` after that
/// constructor, records the constructor as a method, and then drops every
/// vtable that no constructor installs and that has no class name: such a
/// table of code pointers is no class's vtable.
pub fn assign_vtables(types: &mut TypeTables, functions: &Vec<LiftedFunction>)
    ensures
        ({
            let stores = ctor_stores(vtables_view(old(types).vtables@), functions@, functions@.len() as int);
            &&& final(types).methods@ == old(types).methods@ + stores.map_values(|st: CtorStore| ctor_method_of(st))
            &&& vtables_view(final(types).vtables@) == label_vtables(vtables_view(old(types).vtables@), stores).filter(
                |v: VtableView| is_named(v),
            )
            &&& final(types).inheritance == old(types).inheritance
            &&& final(types).classes == old(types).classes
        }),
{
    let ghost vts = types.vtables@;
    let ghost v0 = vtables_view(vts);
    let n = types.vtables.len();
    let mut vtable_map = u64_usize_map_new();
    for idx in 0..n
        invariant
            n == vts.len(),
            types.vtables@ == vts,
            v0 == vtables_view(vts),
            forall|a: u64|
                #[trigger] assoc_get(u64_usize_map_items(vtable_map), a) == match last_vtable_at(v0, a, idx as int) {
                    Some(j) => Some(j as usize),
                    None => None::<usize>,
                },
    {
        let ghost before = u64_usize_map_items(vtable_map);
        u64_usize_map_insert(&mut vtable_map, types.vtables[idx].addr, idx);
        proof {
            assert forall|a: u64| #[trigger] assoc_get(u64_usize_map_items(vtable_map), a) == match last_vtable_at(
                v0,
                a,
                idx + 1,
            ) {
                Some(j) => Some(j as usize),
                None => None::<usize>,
            } by {
                assert(v0[idx as int].0 == vts[idx as int].addr);
                lemma_assoc_insert_get(before, vts[idx as int].addr, idx, a);
            };
        }
    }
    let mut methods_to_add: Vec<SdbMethod> = Vec::new();
    let ghost mut stores: Seq<CtorStore> = Seq::empty();
    for k in 0..functions.len()
        invariant
            n == vts.len(),
            v0 == vtables_view(vts),
            types.vtables@.len() == n,
            forall|a: u64|
                #[trigger] assoc_get(u64_usize_map_items(vtable_map), a) == match last_vtable_at(v0, a, n as int) {
                    Some(j) => Some(j as usize),
                    None => None::<usize>,
                },
            stores == ctor_stores(v0, functions@, k as int),
            forall|q: int| 0 <= q < stores.len() ==> 0 <= #[trigger] stores[q].2 < n,
            vtables_view(types.vtables@) == label_vtables(v0, stores),
            methods_to_add@ == stores.map_values(|st: CtorStore| ctor_method_of(st)),
            types.methods == old(types).methods,
            types.inheritance == old(types).inheritance,
            types.classes == old(types).classes,
    {
        let f = &functions[k];
        let ghost instrs = entry_block_instrs(*f);
        let ghost base = stores;
        let mut block_instrs: Option<&Vec<FlowInstr>> = None;
        if let Some(e) = f.cfg.entry() {
            if let Some(b) = f.cfg.block(e) {
                block_instrs = Some(&b.instrs);
            }
        }
        if let Some(ins) = block_instrs {
            assert(ins@ == instrs);
            for i in 0..ins.len()
                invariant
                    n == vts.len(),
                    v0 == vtables_view(vts),
                    ins@ == instrs,
                    types.vtables@.len() == n,
                    forall|a: u64|
                        #[trigger] assoc_get(u64_usize_map_items(vtable_map), a) == match last_vtable_at(
                            v0,
                            a,
                            n as int,
                        ) {
                            Some(j) => Some(j as usize),
                            None => None::<usize>,
                        },
                    stores == base + instr_ctor_stores(v0, f.entry_addr, instrs, i as int),
                    forall|q: int| 0 <= q < stores.len() ==> 0 <= #[trigger] stores[q].2 < n,
                    vtables_view(types.vtables@) == label_vtables(v0, stores),
                    methods_to_add@ == stores.map_values(|st: CtorStore| ctor_method_of(st)),
                    types.methods == old(types).methods,
                    types.inheritance == old(types).inheritance,
                    types.classes == old(types).classes,
            {
                let ghost prev = stores;
                match ins[i] {
                    FlowInstr::Store { addr, value: Some(c) } => {
                        let through_this = match addr {
                            StoreAddr::Other => false,
                            _ => true,
                        };
                        if through_this {
                            match u64_usize_map_get(&vtable_map, c) {
                                Some(idx) => {
                                    proof {
                                        lemma_last_vtable_at_pub(v0, c, n as int);
                                        assert(last_vtable_at(v0, c, n as int) == Some(idx as int));
                                        assert(stored_into_this(instrs[i as int]) == Some(c));
                                    }
                                    let mut name = String::new();
                                    name.append("class_");
                                    push_hex_lower(&mut name, f.entry_addr);
                                    let ghost st: CtorStore = (f.entry_addr, c, idx as int);
                                    let ghost lv = label_vtables(v0, prev);
                                    types.vtables[idx].class_name = Some(name);
                                    methods_to_add.push(
                                        SdbMethod {
                                            fn_addr: f.entry_addr,
                                            class_vtable: c,
                                            is_virtual: false,
                                            slot: None,
                                            is_ctor: true,
                                            is_dtor: false,
                                        },
                                    );
                                    proof {
                                        stores = prev.push(st);
                                        assert(stores.drop_last() =~= prev);
                                        lemma_label_len(v0, prev);
                                        assert(vtables_view(types.vtables@) =~= label_vtables(v0, stores));
                                        assert(methods_to_add@ =~= stores.map_values(|x: CtorStore| ctor_method_of(x)));
                                        assert(instr_ctor_stores(v0, f.entry_addr, instrs, i + 1) =~= instr_ctor_stores(
                                            v0,
                                            f.entry_addr,
                                            instrs,
                                            i as int,
                                        ).push(st));
                                    }
                                },
                                None => {},
                            }
                        }
                    },
                    _ => {},
                }
            }
        } else {
            assert(instrs.len() == 0);
        }
        proof {
            assert(instr_ctor_stores(v0, f.entry_addr, instrs, instrs.len() as int) =~= stores.subrange(
                base.len() as int,
                stores.len() as int,
            ));
        }
    }
    let ghost methods_after = old(types).methods@ + methods_to_add@;
    types.methods.append(&mut methods_to_add);
    let ghost labelled = vtables_view(types.vtables@);
    let mut all: Vec<SdbVtable> = Vec::new();
    std::mem::swap(&mut all, &mut types.vtables);
    let ghost all0 = all@;
    let total = all.len();
    let mut taken: usize = 0;
    while all.len() > 0
        invariant
            vtables_view(all0) == labelled,
            total == all0.len(),
            taken + all@.len() == total,
            all@ == all0.skip(taken as int),
            vtables_view(types.vtables@) == labelled.take(taken as int).filter(|v: VtableView| is_named(v)),
            types.methods@ == methods_after,
            types.inheritance == old(types).inheritance,
            types.classes == old(types).classes,
        decreases all@.len(),
    {
        let v = all.remove(0);
        proof {
            assert(v == all0[taken as int]);
            assert(labelled.take(taken + 1).drop_last() =~= labelled.take(taken as int));
            reveal(Seq::filter);
        }
        let ghost kept = types.vtables@;
        if v.class_name.is_some() {
            types.vtables.push(v);
            proof {
                assert(vtables_view(types.vtables@) =~= vtables_view(kept).push(vtable_view(v)));
            }
        }
        taken += 1;
        proof {
            assert(all@ =~= all0.skip(taken as int));
        }
    }
    proof {
        assert(labelled.take(taken as int) =~= labelled);
    }
}

} // verus!
