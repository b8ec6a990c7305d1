//! WinRT and COM alignment: matching recovered vtables, string constants
//! and interface identifiers against parsed WinRT metadata.

use vstd::prelude::*;
use indexmap::IndexMap;
use crate::collections::{
    assoc_insert, iid_map_entries, key_position, iid_map_insert, iid_map_items, iid_map_new, string_u64_map_entries,
    string_u64_map_insert, string_u64_map_items, string_u64_map_new,
};
use crate::text::{chars_contain_text, contains_text, str_eq, to_chars};
use crate::diff::{contains_name, names};
use crate::recovered_types::{add_base, class_view, classes_view, ClassView, SdbClass, SdbMethod, SdbVtable, TypeTables};

verus! {

/// A COM interface: its IID, name and parent interface.
#[derive(Debug, Clone)]
pub struct ComInterface {
    pub iid: [u8; 16],
    pub name: String,
    pub parent_iid: Option<[u8; 16]>,
}

/// An interface by its IID, the characters of its name and its parent.
pub type InterfaceView = ([u8; 16], Seq<char>, Option<[u8; 16]>);

/// The view of an interface.
pub open spec fn interface_view(c: ComInterface) -> InterfaceView {
    (c.iid, c.name@, c.parent_iid)
}

/// A runtime class of WinRT metadata: its namespace, name and the names of
/// its methods in slot order.
#[derive(Debug, Clone)]
pub struct WinRtClass {
    pub namespace: String,
    pub name: String,
    pub methods: Vec<String>,
}

/// What alignment reads of parsed WinRT metadata.
#[derive(Debug, Clone)]
pub struct WinRtMetadata {
    pub classes: Vec<WinRtClass>,
}

/// Aligns recovered structures with WinRT metadata.
#[derive(Debug)]
pub struct WinRtAligner {
    pub metadata: WinRtMetadata,
    pub interface_map: IndexMap<[u8; 16], ComInterface>,
}

/// The IID the aligner records for `IUnknown`.
pub open spec fn iunknown_iid() -> [u8; 16] {
    [0x00, 0x00, 0x00, 0x00, 0x00, 0x00, 0x00, 0x00, 0xC0, 0x00, 0x00, 0x00, 0x00, 0x00, 0x00, 0x46]
}

/// The IID the aligner records for `IInspectable`.
pub open spec fn iinspectable_iid() -> [u8; 16] {
    [0xAF, 0x86, 0xE2, 0xAF, 0x24, 0x2C, 0x48, 0x1A, 0x89, 0x3A, 0x26, 0x62, 0xBC, 0xB7, 0x52, 0xEE]
}

/// The interfaces every aligner starts with: `IUnknown`, then
/// `IInspectable` deriving from it.
pub open spec fn seed_interfaces() -> Seq<([u8; 16], InterfaceView)> {
    seq![
        (iunknown_iid(), (iunknown_iid(), "IUnknown"@, None)),
        (iinspectable_iid(), (iinspectable_iid(), "IInspectable"@, Some(iunknown_iid()))),
    ]
}

/// The dotted name of a runtime class.
pub open spec fn full_name(c: WinRtClass) -> Seq<char> {
    c.namespace@ + "."@ + c.name@
}

/// The little-endian bytes of a UTF-16 code unit.
pub open spec fn unit_bytes(u: int) -> Seq<u8> {
    seq![(u % 0x100) as u8, (u / 0x100) as u8]
}

/// The little-endian UTF-16 bytes of a character: one code unit below
/// U+10000, a surrogate pair above.
pub open spec fn char_utf16le(c: char) -> Seq<u8> {
    let v = c as u32;
    if v < 0x10000 {
        unit_bytes(v as int)
    } else {
        unit_bytes(0xD800 + (v - 0x10000) / 0x400) + unit_bytes(0xDC00 + (v - 0x10000) % 0x400)
    }
}

/// The little-endian UTF-16 bytes of the first `k` characters of `s`.
pub open spec fn utf16le(s: Seq<char>, k: int) -> Seq<u8>
    decreases k,
{
    if k <= 0 {
        Seq::empty()
    } else {
        utf16le(s, k - 1) + char_utf16le(s[k - 1])
    }
}

/// The first offset from `i` on where `p` occurs in `d`.
pub open spec fn first_window(d: Seq<u8>, p: Seq<u8>, i: int) -> Option<int>
    decreases d.len() + 1 - i,
{
    if i < 0 || i + p.len() > d.len() {
        None
    } else if d.subrange(i, i + p.len()) == p {
        Some(i)
    } else {
        first_window(d, p, i + 1)
    }
}

/// The class names of the first `k` classes found as UTF-16 strings in
/// `d`, each with the offset of its first occurrence.
pub open spec fn hstrings_upto(classes: Seq<WinRtClass>, d: Seq<u8>, k: int) -> Seq<(Seq<char>, u64)>
    decreases k,
{
    if k <= 0 {
        Seq::empty()
    } else {
        let prev = hstrings_upto(classes, d, k - 1);
        let n = full_name(classes[k - 1]);
        match first_window(d, utf16le(n, n.len() as int), 0) {
            Some(pos) => assoc_insert(prev, n, pos as u64),
            None => prev,
        }
    }
}

/// Appends the little-endian bytes of a code unit.
fn push_unit(out: &mut Vec<u8>, u: u32)
    ensures
        final(out)@ == old(out)@ + unit_bytes(u as int),
{
    out.push((u % 0x100) as u8);
    out.push((u / 0x100) as u8);
    assert(final(out)@ == old(out)@ + unit_bytes(u as int));
}

/// The little-endian UTF-16 bytes of `s`.
fn utf16le_bytes(s: &str) -> (r: Vec<u8>)
    ensures
        r@ == utf16le(s@, s@.len() as int),
{
    let cs = to_chars(s);
    let mut r: Vec<u8> = Vec::new();
    for k in 0..cs.len()
        invariant
            cs@ == s@,
            r@ == utf16le(s@, k as int),
    {
        let v = cs[k] as u32;
        let ghost before = r@;
        if v < 0x10000 {
            push_unit(&mut r, v);
        } else {
            push_unit(&mut r, 0xD800 + (v - 0x10000) / 0x400);
            push_unit(&mut r, 0xDC00 + (v - 0x10000) % 0x400);
        }
        proof {
            assert(r@ == before + char_utf16le(s@[k as int]));
        }
    }
    r
}

/// The first offset where `p` occurs in `d`.
fn find_window(d: &[u8], p: &Vec<u8>) -> (r: Option<usize>)
    ensures
        match r {
            Some(i) => first_window(d@, p@, 0) == Some(i as int),
            None => first_window(d@, p@, 0) is None,
        },
{
    let n = d.len();
    let m = p.len();
    if m > n {
        return None;
    }
    let mut i: usize = 0;
    while i <= n - m
        invariant
            n == d@.len(),
            m == p@.len(),
            m <= n,
            i <= n - m + 1,
            first_window(d@, p@, 0) == first_window(d@, p@, i as int),
        decreases n - m + 1 - i,
    {
        let mut j: usize = 0;
        while j < m && d[i + j] == p[j]
            invariant
                n == d@.len(),
                m == p@.len(),
                i + m <= n,
                j <= m,
                forall|q: int| 0 <= q < j ==> d@[i + q] == p@[q],
            decreases m - j,
        {
            j += 1;
        }
        if j == m {
            assert(d@.subrange(i as int, i + m) == p@);
            return Some(i);
        }
        assert(d@.subrange(i as int, i + m)[j as int] != p@[j as int]);
        i += 1;
    }
    None
}

/// The first vtable from `i` on with at least six slots whose class name
/// contains `name`.
pub open spec fn named_vtable(vts: Seq<SdbVtable>, name: Seq<char>, i: int) -> Option<int>
    decreases vts.len() - i,
{
    if i < 0 || i >= vts.len() {
        None
    } else if vts[i].entries@.len() >= 6 && (match vts[i].class_name {
        Some(n) => contains_text(n@, name),
        None => false,
    }) {
        Some(i)
    } else {
        named_vtable(vts, name, i + 1)
    }
}

/// The first vtable from `i` on with at least six slots and no class name.
pub open spec fn unnamed_vtable(vts: Seq<SdbVtable>, i: int) -> Option<int>
    decreases vts.len() - i,
{
    if i < 0 || i >= vts.len() {
        None
    } else if vts[i].entries@.len() >= 6 && vts[i].class_name is None {
        Some(i)
    } else {
        unnamed_vtable(vts, i + 1)
    }
}

/// The first vtable from `i` on at address `a`.
pub open spec fn vtable_at(vts: Seq<SdbVtable>, a: u64, i: int) -> Option<int>
    decreases vts.len() - i,
{
    if i < 0 || i >= vts.len() {
        None
    } else if vts[i].addr == a {
        Some(i)
    } else {
        vtable_at(vts, a, i + 1)
    }
}

/// The method in slot `s` of vtable `vt`, named by the metadata's method
/// names `defs` from the seventh slot on.
pub open spec fn slot_method(fn_addr: u64, vt: u64, defs: Seq<Seq<char>>, s: int) -> SdbMethod {
    let named = s >= 6 && s - 6 < defs.len();
    SdbMethod {
        fn_addr,
        class_vtable: vt,
        is_virtual: true,
        slot: Some(s as usize),
        is_ctor: named && defs[s - 6] == ".ctor"@,
        is_dtor: named && (contains_text(defs[s - 6], "dtor"@) || defs[s - 6] == "Dispose"@),
    }
}

/// The methods of the first `k` slots of a vtable, empty slots skipped.
pub open spec fn slot_methods(entries: Seq<u64>, vt: u64, defs: Seq<Seq<char>>, k: int) -> Seq<SdbMethod>
    decreases k,
{
    if k <= 0 {
        Seq::empty()
    } else {
        let prev = slot_methods(entries, vt, defs, k - 1);
        if entries[k - 1] != 0 {
            prev.push(slot_method(entries[k - 1], vt, defs, k - 1))
        } else {
            prev
        }
    }
}

/// The vtables and methods aligned to a metadata class: those of the first
/// vtable whose class name contains the class's name; failing that, those
/// of the first vtable without a class name, with no constructor or
/// destructor marked; failing that, none.
pub open spec fn aligned_parts(vts: Seq<SdbVtable>, def: WinRtClass) -> (Seq<u64>, Seq<SdbMethod>) {
    match named_vtable(vts, def.name@, 0) {
        Some(j) => {
            let a = vts[j].addr;
            let methods = match vtable_at(vts, a, 0) {
                Some(f) => slot_methods(vts[f].entries@, a, names(def.methods@), vts[f].entries@.len() as int),
                None => Seq::empty(),
            };
            (seq![a], methods)
        },
        None => match unnamed_vtable(vts, 0) {
            Some(j) => (
                seq![vts[j].addr],
                slot_methods(vts[j].entries@, vts[j].addr, Seq::empty(), vts[j].entries@.len() as int),
            ),
            None => (Seq::empty(), Seq::empty()),
        },
    }
}

/// The class that alignment records for a metadata class.
pub open spec fn aligned_class(vts: Seq<SdbVtable>, def: WinRtClass) -> ClassView {
    let parts = aligned_parts(vts, def);
    (full_name(def), parts.0, parts.1, seq!["IInspectable"@])
}

/// The first class from `i` on named `name`.
pub open spec fn class_position(cs: Seq<ClassView>, name: Seq<char>, i: int) -> Option<int>
    decreases cs.len() - i,
{
    if i < 0 || i >= cs.len() {
        None
    } else if cs[i].0 == name {
        Some(i)
    } else {
        class_position(cs, name, i + 1)
    }
}

/// The classes after merging in `c`: it replaces the first class of its
/// name, or is appended.
pub open spec fn merge_class(cs: Seq<ClassView>, c: ClassView) -> Seq<ClassView> {
    match class_position(cs, c.0, 0) {
        Some(i) => cs.update(i, c),
        None => cs.push(c),
    }
}

/// The classes after merging in the aligned classes of the first `k`
/// metadata classes, in order.
pub open spec fn merged_upto(cs: Seq<ClassView>, vts: Seq<SdbVtable>, defs: Seq<WinRtClass>, k: int) -> Seq<ClassView>
    decreases k,
{
    if k <= 0 {
        cs
    } else {
        merge_class(merged_upto(cs, vts, defs, k - 1), aligned_class(vts, defs[k - 1]))
    }
}

/// The first vtable with at least six slots whose class name contains `name`.
fn find_named_vtable(vts: &Vec<SdbVtable>, name: &str) -> (r: Option<usize>)
    ensures
        match r {
            Some(j) => j < vts@.len() && named_vtable(vts@, name@, 0) == Some(j as int),
            None => named_vtable(vts@, name@, 0) is None,
        },
{
    let mut i: usize = 0;
    while i < vts.len()
        invariant
            i <= vts@.len(),
            named_vtable(vts@, name@, 0) == named_vtable(vts@, name@, i as int),
        decreases vts@.len() - i,
    {
        let v = &vts[i];
        if v.entries.len() >= 6 {
            match &v.class_name {
                Some(n) => {
                    let cs = to_chars(n.as_str());
                    if chars_contain_text(&cs, name) {
                        return Some(i);
                    }
                },
                None => {},
            }
        }
        i += 1;
    }
    None
}

/// The first vtable with at least six slots and no class name.
fn find_unnamed_vtable(vts: &Vec<SdbVtable>) -> (r: Option<usize>)
    ensures
        match r {
            Some(j) => j < vts@.len() && unnamed_vtable(vts@, 0) == Some(j as int),
            None => unnamed_vtable(vts@, 0) is None,
        },
{
    let mut i: usize = 0;
    while i < vts.len()
        invariant
            i <= vts@.len(),
            unnamed_vtable(vts@, 0) == unnamed_vtable(vts@, i as int),
        decreases vts@.len() - i,
    {
        if vts[i].entries.len() >= 6 && vts[i].class_name.is_none() {
            return Some(i);
        }
        i += 1;
    }
    None
}

/// The first vtable at address `a`.
fn find_vtable_at(vts: &Vec<SdbVtable>, a: u64) -> (r: Option<usize>)
    ensures
        match r {
            Some(j) => j < vts@.len() && vtable_at(vts@, a, 0) == Some(j as int),
            None => vtable_at(vts@, a, 0) is None,
        },
{
    let mut i: usize = 0;
    while i < vts.len()
        invariant
            i <= vts@.len(),
            vtable_at(vts@, a, 0) == vtable_at(vts@, a, i as int),
        decreases vts@.len() - i,
    {
        if vts[i].addr == a {
            return Some(i);
        }
        i += 1;
    }
    None
}

/// The methods of the nonempty slots of `entries`.
fn methods_of_slots(entries: &Vec<u64>, vt: u64, defs: &Vec<String>) -> (r: Vec<SdbMethod>)
    ensures
        r@ == slot_methods(entries@, vt, names(defs@), entries@.len() as int),
{
    let ghost ds = names(defs@);
    let mut r: Vec<SdbMethod> = Vec::new();
    for s in 0..entries.len()
        invariant
            ds == names(defs@),
            r@ == slot_methods(entries@, vt, ds, s as int),
    {
        let fn_addr = entries[s];
        if fn_addr != 0 {
            let mut is_ctor = false;
            let mut is_dtor = false;
            if s >= 6 && s - 6 < defs.len() {
                let m = defs[s - 6].as_str();
                is_ctor = str_eq(m, ".ctor");
                let cs = to_chars(m);
                is_dtor = chars_contain_text(&cs, "dtor") || str_eq(m, "Dispose");
            }
            r.push(SdbMethod { fn_addr, class_vtable: vt, is_virtual: true, slot: Some(s), is_ctor, is_dtor });
        }
    }
    r
}

/// The class alignment records for the metadata class `def`.
fn align_class(vts: &Vec<SdbVtable>, def: &WinRtClass) -> (c: SdbClass)
    ensures
        class_view(c) == aligned_class(vts@, *def),
{
    let mut name = String::new();
    name.append(def.namespace.as_str());
    name.append(".");
    name.append(def.name.as_str());
    let mut vtables: Vec<u64> = Vec::new();
    let mut methods: Vec<SdbMethod> = Vec::new();
    match find_named_vtable(vts, def.name.as_str()) {
        Some(j) => {
            let a = vts[j].addr;
            vtables.push(a);
            match find_vtable_at(vts, a) {
                Some(f) => {
                    methods = methods_of_slots(&vts[f].entries, a, &def.methods);
                },
                None => {},
            }
        },
        None => match find_unnamed_vtable(vts) {
            Some(j) => {
                vtables.push(vts[j].addr);
                let no_defs: Vec<String> = Vec::new();
                methods = methods_of_slots(&vts[j].entries, vts[j].addr, &no_defs);
                proof {
                    assert(names(no_defs@) =~= Seq::<Seq<char>>::empty());
                }
            },
            None => {},
        },
    }
    let mut base = String::new();
    base.append("IInspectable");
    let mut bases: Vec<String> = Vec::new();
    bases.push(base);
    let c = SdbClass { name, vtables, methods, bases };
    proof {
        assert(names(c.bases@) =~= seq!["IInspectable"@]);
        assert(c.vtables@ == aligned_parts(vts@, *def).0);
    }
    c
}

/// The first class in `cs` named `name`.
fn find_class(cs: &Vec<SdbClass>, name: &str) -> (r: Option<usize>)
    ensures
        match r {
            Some(j) => j < cs@.len() && class_position(classes_view(cs@), name@, 0) == Some(j as int),
            None => class_position(classes_view(cs@), name@, 0) is None,
        },
{
    let ghost v = classes_view(cs@);
    let mut i: usize = 0;
    while i < cs.len()
        invariant
            v == classes_view(cs@),
            i <= cs@.len(),
            class_position(v, name@, 0) == class_position(v, name@, i as int),
        decreases cs@.len() - i,
    {
        if str_eq(cs[i].name.as_str(), name) {
            return Some(i);
        }
        i += 1;
    }
    None
}

/// Merges `c` into `cs`: it replaces the first class of its name, or is
/// appended.
fn merge_into(cs: &mut Vec<SdbClass>, c: SdbClass)
    ensures
        classes_view(final(cs)@) == merge_class(classes_view(old(cs)@), class_view(c)),
{
    let ghost cv = class_view(c);
    match find_class(cs, c.name.as_str()) {
        Some(i) => {
            cs.set(i, c);
            proof {
                assert(classes_view(cs@) =~= classes_view(old(cs)@).update(i as int, cv));
            }
        },
        None => {
            cs.push(c);
            proof {
                assert(classes_view(cs@) =~= classes_view(old(cs)@).push(cv));
            }
        },
    }
}

/// The interfaces among the first `k` entries of `items` whose IID occurs
/// as sixteen consecutive bytes of `d`, each as its name and IID.
pub open spec fn qi_hits(items: Seq<([u8; 16], InterfaceView)>, d: Seq<u8>, k: int) -> Seq<(Seq<char>, [u8; 16])>
    decreases k,
{
    if k <= 0 {
        Seq::empty()
    } else {
        let prev = qi_hits(items, d, k - 1);
        let e = items[k - 1];
        if first_window(d, e.0@, 0) is Some {
            prev.push((e.1.1, e.0))
        } else {
            prev
        }
    }
}

/// `bases` after adding each name of `hits`, in order.
pub open spec fn bases_after(bases: Seq<Seq<char>>, hits: Seq<(Seq<char>, [u8; 16])>) -> Seq<Seq<char>>
    decreases hits.len(),
{
    if hits.len() == 0 {
        bases
    } else {
        add_base(bases_after(bases, hits.drop_last()), hits.last().0)
    }
}

/// The classes with the names of `hits` added to the bases of each.
pub open spec fn with_bases(cs: Seq<ClassView>, hits: Seq<(Seq<char>, [u8; 16])>) -> Seq<ClassView> {
    cs.map_values(|c: ClassView| (c.0, c.1, c.2, bases_after(c.3, hits)))
}

/// The address the activation factory is taken to construct a class at,
/// for a class name found at `offset` of the read-only data.
pub open spec fn activation_address(offset: u64) -> int {
    offset + 0x180005000
}

/// The constructor method recorded for a class with vtables `vtables`.
pub open spec fn ctor_method(addr: u64, vtables: Seq<u64>) -> SdbMethod {
    SdbMethod {
        fn_addr: addr,
        class_vtable: if vtables.len() > 0 { vtables[0] } else { 0 },
        is_virtual: false,
        slot: None,
        is_ctor: true,
        is_dtor: false,
    }
}

/// The classes after giving the first class named `name` a constructor at
/// `addr`.
pub open spec fn attach_ctor(cs: Seq<ClassView>, name: Seq<char>, addr: u64) -> Seq<ClassView> {
    match class_position(cs, name, 0) {
        Some(i) => cs.update(i, (cs[i].0, cs[i].1, cs[i].2.push(ctor_method(addr, cs[i].1)), cs[i].3)),
        None => cs,
    }
}

/// The classes after attaching the constructors of the first `k` found
/// class names.
pub open spec fn ctors_upto(cs: Seq<ClassView>, found: Seq<(Seq<char>, u64)>, k: int) -> Seq<ClassView>
    decreases k,
{
    if k <= 0 {
        cs
    } else {
        attach_ctor(ctors_upto(cs, found, k - 1), found[k - 1].0, activation_address(found[k - 1].1) as u64)
    }
}

/// The bytes of an interface identifier.
fn iid_bytes(iid: &[u8; 16]) -> (r: Vec<u8>)
    ensures
        r@ == iid@,
{
    let mut r: Vec<u8> = Vec::new();
    for k in 0..16
        invariant
            r@ == iid@.take(k as int),
    {
        r.push(iid[k]);
        proof {
            assert(r@ =~= iid@.take(k + 1));
        }
    }
    assert(r@ =~= iid@);
    r
}

/// Adds `n` to the bases of every class that lacks it.
fn add_base_to_all(cs: &mut Vec<SdbClass>, n: &String)
    ensures
        classes_view(final(cs)@) == classes_view(old(cs)@).map_values(
            |c: ClassView| (c.0, c.1, c.2, add_base(c.3, n@)),
        ),
{
    let ghost start = classes_view(cs@);
    let mut j: usize = 0;
    while j < cs.len()
        invariant
            start == classes_view(old(cs)@),
            cs@.len() == start.len(),
            j <= cs@.len(),
            forall|q: int| 0 <= q < j ==> class_view(#[trigger] cs@[q]) == (start[q].0, start[q].1, start[q].2, add_base(start[q].3, n@)),
            forall|q: int| j <= q < cs@.len() ==> class_view(#[trigger] cs@[q]) == start[q],
        decreases cs@.len() - j,
    {
        if !contains_name(&cs[j].bases, n) {
            let b = n.clone();
            cs[j].bases.push(b);
            proof {
                assert(names(cs@[j as int].bases@) =~= names(old(cs)@[j as int].bases@).push(n@));
            }
        }
        j += 1;
    }
    assert(classes_view(cs@) =~= start.map_values(|c: ClassView| (c.0, c.1, c.2, add_base(c.3, n@))));
}

impl WinRtAligner {
    /// An aligner for `metadata` that knows `IUnknown` and `IInspectable`.
    pub fn new(metadata: WinRtMetadata) -> (a: WinRtAligner)
        ensures
            a.metadata == metadata,
            iid_map_items(a.interface_map) == seed_interfaces(),
    {
        let mut interface_map = iid_map_new();
        let ghost m0 = iid_map_items(interface_map);
        let iunknown: [u8; 16] = [
            0x00, 0x00, 0x00, 0x00, 0x00, 0x00, 0x00, 0x00, 0xC0, 0x00, 0x00, 0x00, 0x00, 0x00, 0x00, 0x46,
        ];
        let mut name = String::new();
        name.append("IUnknown");
        let unknown = ComInterface { iid: iunknown, name, parent_iid: None };
        let ghost v1 = interface_view(unknown);
        iid_map_insert(&mut interface_map, iunknown, unknown);
        let ghost m1 = iid_map_items(interface_map);
        proof {
            assert(key_position(m0, iunknown, 0) is None);
            assert(m1 == seq![(iunknown, v1)]);
        }
        let iinspectable: [u8; 16] = [
            0xAF, 0x86, 0xE2, 0xAF, 0x24, 0x2C, 0x48, 0x1A, 0x89, 0x3A, 0x26, 0x62, 0xBC, 0xB7, 0x52, 0xEE,
        ];
        let mut name = String::new();
        name.append("IInspectable");
        let inspectable = ComInterface { iid: iinspectable, name, parent_iid: Some(iunknown) };
        let ghost v2 = interface_view(inspectable);
        proof {
            assert(iunknown != iinspectable) by {
                assert(iunknown[0] != iinspectable[0]);
            };
            assert(key_position(m1, iinspectable, 1) is None);
            assert(key_position(m1, iinspectable, 0) is None);
        }
        iid_map_insert(&mut interface_map, iinspectable, inspectable);
        proof {
            assert(iid_map_items(interface_map) == seq![(iunknown, v1), (iinspectable, v2)]);
            assert(iunknown == iunknown_iid());
            assert(iinspectable == iinspectable_iid());
            assert(v1 == (iunknown_iid(), "IUnknown"@, None::<[u8; 16]>));
            assert(iid_map_items(interface_map) == seed_interfaces());
        }
        WinRtAligner { metadata, interface_map }
    }

    /// Registers a recovered interface, replacing one with the same IID.
    pub fn register_interface(&mut self, iid: [u8; 16], name: String, parent_iid: Option<[u8; 16]>)
        ensures
            final(self).metadata == old(self).metadata,
            iid_map_items(final(self).interface_map) == assoc_insert(
                iid_map_items(old(self).interface_map),
                iid,
                (iid, name@, parent_iid),
            ),
    {
        iid_map_insert(&mut self.interface_map, iid, ComInterface { iid, name, parent_iid });
    }

    /// Finds the full name of each metadata class as a UTF-16 string
    /// constant in `rdata_bytes`, with the offset of its first occurrence.
    pub fn scan_hstrings(&self, rdata_bytes: &[u8]) -> (r: IndexMap<String, u64>)
        ensures
            string_u64_map_items(r) == hstrings_upto(
                self.metadata.classes@,
                rdata_bytes@,
                self.metadata.classes@.len() as int,
            ),
    {
        let classes = &self.metadata.classes;
        let mut r = string_u64_map_new();
        for k in 0..classes.len()
            invariant
                classes@ == self.metadata.classes@,
                string_u64_map_items(r) == hstrings_upto(classes@, rdata_bytes@, k as int),
        {
            let c = &classes[k];
            let mut name = String::new();
            name.append(c.namespace.as_str());
            name.append(".");
            name.append(c.name.as_str());
            let pattern = utf16le_bytes(name.as_str());
            proof {
                assert(name@ == full_name(classes@[k as int]));
            }
            match find_window(rdata_bytes, &pattern) {
                Some(pos) => {
                    string_u64_map_insert(&mut r, name, pos as u64);
                },
                None => {},
            }
        }
        r
    }

    /// Aligns the recovered vtables with the metadata classes and merges
    /// the aligned classes into `types.classes`: each replaces the first
    /// class of its name, or is appended.
    pub fn align(&self, types: &mut TypeTables, rdata_bytes: &[u8])
        ensures
            final(types).vtables == old(types).vtables,
            final(types).methods == old(types).methods,
            final(types).inheritance == old(types).inheritance,
            classes_view(final(types).classes@) == merged_upto(
                classes_view(old(types).classes@),
                old(types).vtables@,
                self.metadata.classes@,
                self.metadata.classes@.len() as int,
            ),
    {
        let _hstring_map = self.scan_hstrings(rdata_bytes);
        let defs = &self.metadata.classes;
        let ghost start = classes_view(types.classes@);
        for k in 0..defs.len()
            invariant
                defs@ == self.metadata.classes@,
                types.vtables == old(types).vtables,
                types.methods == old(types).methods,
                types.inheritance == old(types).inheritance,
                start == classes_view(old(types).classes@),
                classes_view(types.classes@) == merged_upto(start, types.vtables@, defs@, k as int),
        {
            let c = align_class(&types.vtables, &defs[k]);
            merge_into(&mut types.classes, c);
        }
    }

    /// Finds the IIDs of the known interfaces in `rdata_bytes`: for each
    /// found interface, in map order, returns its name and IID and adds its
    /// name to the bases of every class that lacks it.
    pub fn resolve_query_interface(&self, types: &mut TypeTables, _qi_fn_addr: u64, rdata_bytes: &[u8]) -> (r: Vec<(String, [u8; 16])>)
        ensures
            ({
                let hits = qi_hits(
                    iid_map_items(self.interface_map),
                    rdata_bytes@,
                    iid_map_items(self.interface_map).len() as int,
                );
                &&& r@.map_values(|e: (String, [u8; 16])| (e.0@, e.1)) == hits
                &&& final(types).vtables == old(types).vtables
                &&& final(types).methods == old(types).methods
                &&& final(types).inheritance == old(types).inheritance
                &&& classes_view(final(types).classes@) == with_bases(classes_view(old(types).classes@), hits)
            }),
    {
        let entries = iid_map_entries(&self.interface_map);
        let ghost items = iid_map_items(self.interface_map);
        let ghost start = classes_view(types.classes@);
        let mut resolved: Vec<(String, [u8; 16])> = Vec::new();
        for k in 0..entries.len()
            invariant
                entries@.map_values(|e: ([u8; 16], ComInterface)| (e.0, interface_view(e.1))) == items,
                items == iid_map_items(self.interface_map),
                start == classes_view(old(types).classes@),
                types.vtables == old(types).vtables,
                types.methods == old(types).methods,
                types.inheritance == old(types).inheritance,
                resolved@.map_values(|e: (String, [u8; 16])| (e.0@, e.1)) == qi_hits(items, rdata_bytes@, k as int),
                classes_view(types.classes@) == with_bases(start, qi_hits(items, rdata_bytes@, k as int)),
        {
            let ghost prev = qi_hits(items, rdata_bytes@, k as int);
            let iid = entries[k].0;
            let pattern = iid_bytes(&iid);
            proof {
                assert(items[k as int] == (entries@[k as int].0, interface_view(entries@[k as int].1)));
            }
            match find_window(rdata_bytes, &pattern) {
                Some(_) => {
                    let name = entries[k].1.name.clone();
                    let ghost hit = (name@, iid);
                    add_base_to_all(&mut types.classes, &name);
                    resolved.push((name, iid));
                    proof {
                        let hits = prev.push(hit);
                        assert(qi_hits(items, rdata_bytes@, k + 1) == hits);
                        assert(hits.drop_last() =~= prev);
                        assert(resolved@.map_values(|e: (String, [u8; 16])| (e.0@, e.1)) =~= hits);
                        assert(classes_view(types.classes@) =~= with_bases(start, hits));
                    }
                },
                None => {
                    proof {
                        assert(qi_hits(items, rdata_bytes@, k + 1) == prev);
                    }
                },
            }
        }
        resolved
    }

    /// Maps each class name found in the read-only data to the address its
    /// activation factory is taken to construct it at, and records that
    /// constructor on the first class of the name.
    pub fn trace_activation_factory(
        &self,
        types: &mut TypeTables,
        _activation_fn_addr: u64,
        hstring_map: &IndexMap<String, u64>,
    ) -> (r: Vec<(String, u64)>)
        requires
            forall|i: int|
                0 <= i < string_u64_map_items(*hstring_map).len()
                    ==> activation_address(#[trigger] string_u64_map_items(*hstring_map)[i].1) <= u64::MAX,
        ensures
            ({
                let found = string_u64_map_items(*hstring_map);
                &&& r@.map_values(|e: (String, u64)| (e.0@, e.1 as int)) == found.map_values(
                    |e: (Seq<char>, u64)| (e.0, activation_address(e.1)),
                )
                &&& final(types).vtables == old(types).vtables
                &&& final(types).methods == old(types).methods
                &&& final(types).inheritance == old(types).inheritance
                &&& classes_view(final(types).classes@) == ctors_upto(
                    classes_view(old(types).classes@),
                    found,
                    found.len() as int,
                )
            }),
    {
        let entries = string_u64_map_entries(hstring_map);
        let ghost found = string_u64_map_items(*hstring_map);
        let ghost start = classes_view(types.classes@);
        let mut resolved: Vec<(String, u64)> = Vec::new();
        for k in 0..entries.len()
            invariant
                entries@.map_values(|e: (String, u64)| (e.0@, e.1)) == found,
                found == string_u64_map_items(*hstring_map),
                forall|i: int| 0 <= i < found.len() ==> activation_address(#[trigger] found[i].1) <= u64::MAX,
                start == classes_view(old(types).classes@),
                types.vtables == old(types).vtables,
                types.methods == old(types).methods,
                types.inheritance == old(types).inheritance,
                resolved@.map_values(|e: (String, u64)| (e.0@, e.1 as int)) == found.take(k as int).map_values(
                    |e: (Seq<char>, u64)| (e.0, activation_address(e.1)),
                ),
                classes_view(types.classes@) == ctors_upto(start, found, k as int),
        {
            proof {
                assert(found[k as int] == (entries@[k as int].0@, entries@[k as int].1));
            }
            let offset = entries[k].1;
            assert(activation_address(found[k as int].1) <= u64::MAX);
            let addr = 0x180005000 + offset;
            let name = entries[k].0.clone();
            let ghost before = classes_view(types.classes@);
            match find_class(&types.classes, name.as_str()) {
                Some(i) => {
                    let class_vtable = if types.classes[i].vtables.len() > 0 {
                        types.classes[i].vtables[0]
                    } else {
                        0
                    };
                    let m = SdbMethod {
                        fn_addr: addr,
                        class_vtable,
                        is_virtual: false,
                        slot: None,
                        is_ctor: true,
                        is_dtor: false,
                    };
                    types.classes[i].methods.push(m);
                    proof {
                        assert(m == ctor_method(addr, before[i as int].1));
                        assert(classes_view(types.classes@) =~= attach_ctor(before, name@, addr));
                    }
                },
                None => {},
            }
            let ghost rv = resolved@.map_values(|e: (String, u64)| (e.0@, e.1 as int));
            resolved.push((name, addr));
            proof {
                assert(resolved@.map_values(|e: (String, u64)| (e.0@, e.1 as int)) =~= rv.push((found[k as int].0, addr as int)));
                assert(found.take(k + 1) =~= found.take(k as int).push(found[k as int]));
                assert(found.take(k + 1).map_values(|e: (Seq<char>, u64)| (e.0, activation_address(e.1))) =~=
                    found.take(k as int).map_values(|e: (Seq<char>, u64)| (e.0, activation_address(e.1))).push((found[k as int].0, addr as int)));
            }
        }
        proof {
            assert(found.take(found.len() as int) =~= found);
        }
        resolved
    }

    /// Scans `rdata_bytes` for the class names and traces their activation
    /// factory; `None`, with `types` unchanged, when a constructor address
    /// would not fit in 64 bits.
    pub fn trace_rdata_activations(
        &self,
        types: &mut TypeTables,
        activation_fn_addr: u64,
        rdata_bytes: &[u8],
    ) -> (r: Option<Vec<(String, u64)>>)
        ensures
            ({
                let found = hstrings_upto(self.metadata.classes@, rdata_bytes@, self.metadata.classes@.len() as int);
                let fits = forall|i: int| 0 <= i < found.len() ==> activation_address(#[trigger] found[i].1) <= u64::MAX;
                &&& r is Some <==> fits
                &&& r is None ==> *final(types) == *old(types)
                &&& r matches Some(v) ==> {
                    &&& v@.map_values(|e: (String, u64)| (e.0@, e.1 as int)) == found.map_values(
                        |e: (Seq<char>, u64)| (e.0, activation_address(e.1)),
                    )
                    &&& final(types).vtables == old(types).vtables
                    &&& final(types).methods == old(types).methods
                    &&& final(types).inheritance == old(types).inheritance
                    &&& classes_view(final(types).classes@) == ctors_upto(
                        classes_view(old(types).classes@),
                        found,
                        found.len() as int,
                    )
                }
            }),
    {
        let map = self.scan_hstrings(rdata_bytes);
        let ghost found = string_u64_map_items(map);
        let entries = string_u64_map_entries(&map);
        let mut k: usize = 0;
        while k < entries.len()
            invariant
                entries@.map_values(|e: (String, u64)| (e.0@, e.1)) == found,
                found == hstrings_upto(self.metadata.classes@, rdata_bytes@, self.metadata.classes@.len() as int),
                *types == *old(types),
                k <= entries@.len(),
                forall|i: int| 0 <= i < k ==> activation_address(#[trigger] found[i].1) <= u64::MAX,
            decreases entries@.len() - k,
        {
            assert(found[k as int].1 == entries@[k as int].1);
            if entries[k].1 > 0xFFFF_FFFF_FFFF_FFFF - 0x180005000 {
                assert(activation_address(found[k as int].1) > u64::MAX);
                assert(!(forall|i: int| 0 <= i < found.len() ==> activation_address(#[trigger] found[i].1) <= u64::MAX));
                return None;
            }
            k = k + 1;
        }
        Some(self.trace_activation_factory(types, activation_fn_addr, &map))
    }
}

} // verus!
