//! Inheritance between vtables: a vtable whose entries begin with all the
//! entries of another is taken to derive from it.

use vstd::prelude::*;
use crate::collections::{
    assoc_get, lemma_assoc_insert_get, seq_u64_map_get, seq_u64_map_insert, seq_u64_map_items, seq_u64_map_new,
};
use crate::recovered_types::{
    inheritance_view, vtable_view, vtables_view, SdbInheritance, SdbVtable, TypeTables, VtableView,
};

verus! {

/// The address of the last of the first `k` vtables whose entries are
/// exactly `e`, among vtables with at least one entry.
pub open spec fn last_with_entries(vs: Seq<VtableView>, e: Seq<u64>, k: int) -> Option<u64>
    decreases k,
{
    if k <= 0 {
        None
    } else if vs[k - 1].1.len() > 0 && vs[k - 1].1 == e {
        Some(vs[k - 1].0)
    } else {
        last_with_entries(vs, e, k - 1)
    }
}

/// The base found for a vtable with entries `e`, trying prefixes of length
/// `len` down to one: the vtable whose entries are the longest such prefix.
pub open spec fn longest_base(vs: Seq<VtableView>, e: Seq<u64>, len: int) -> Option<u64>
    decreases len,
{
    if len < 1 {
        None
    } else {
        match last_with_entries(vs, e.take(len), vs.len() as int) {
            Some(a) => Some(a),
            None => longest_base(vs, e, len - 1),
        }
    }
}

/// The inheritance edges found among the first `k` vtables, each as the
/// derived vtable's address and its base's, in vtable order.
pub open spec fn edges_upto(vs: Seq<VtableView>, k: int) -> Seq<(u64, u64)>
    decreases k,
{
    if k <= 0 {
        Seq::empty()
    } else {
        let prev = edges_upto(vs, k - 1);
        let v = vs[k - 1];
        if v.1.len() > 1 {
            match longest_base(vs, v.1, v.1.len() - 1) {
                Some(b) => prev.push((v.0, b)),
                None => prev,
            }
        } else {
            prev
        }
    }
}

/// The first vtable from `i` on at address `a`.
pub open spec fn view_at(vs: Seq<VtableView>, a: u64, i: int) -> Option<int>
    decreases vs.len() - i,
{
    if i < 0 || i >= vs.len() {
        None
    } else if vs[i].0 == a {
        Some(i)
    } else {
        view_at(vs, a, i + 1)
    }
}

/// The vtables after recording each edge's base on the first vtable at its
/// derived address.
pub open spec fn with_base_links(vs: Seq<VtableView>, edges: Seq<(u64, u64)>) -> Seq<VtableView>
    decreases edges.len(),
{
    if edges.len() == 0 {
        vs
    } else {
        let prev = with_base_links(vs, edges.drop_last());
        let e = edges.last();
        match view_at(prev, e.0, 0) {
            Some(i) => prev.update(i, (prev[i].0, prev[i].1, prev[i].2, Some(e.1))),
            None => prev,
        }
    }
}

/// An edge as recorded: the derived vtable with its one base.
pub open spec fn edge_record(e: (u64, u64)) -> (u64, Seq<u64>) {
    (e.0, seq![e.1])
}

/// The views of a list of inheritance edges.
pub open spec fn inheritances_view(es: Seq<SdbInheritance>) -> Seq<(u64, Seq<u64>)> {
    es.map_values(|e: SdbInheritance| inheritance_view(e))
}

proof fn lemma_view_at(vs: Seq<VtableView>, a: u64, i: int)
    requires
        0 <= i,
    ensures
        view_at(vs, a, i) matches Some(j) ==> i <= j < vs.len() && vs[j].0 == a,
    decreases vs.len() - i,
{
    if i < vs.len() && vs[i].0 != a {
        lemma_view_at(vs, a, i + 1);
    }
}

/// The first vtable at address `a`.
fn find_view_at(vts: &Vec<SdbVtable>, a: u64) -> (r: Option<usize>)
    ensures
        match r {
            Some(j) => j < vts@.len() && view_at(vtables_view(vts@), a, 0) == Some(j as int),
            None => view_at(vtables_view(vts@), a, 0) is None,
        },
{
    let ghost vs = vtables_view(vts@);
    let mut i: usize = 0;
    while i < vts.len()
        invariant
            vs == vtables_view(vts@),
            i <= vts@.len(),
            view_at(vs, a, 0) == view_at(vs, a, i as int),
        decreases vts@.len() - i,
    {
        if vts[i].addr == a {
            return Some(i);
        }
        i += 1;
    }
    None
}

/// A copy of a list of addresses.
pub(crate) fn copy_entries(v: &Vec<u64>) -> (r: Vec<u64>)
    ensures
        r@ == v@,
{
    let mut r: Vec<u64> = Vec::new();
    for i in 0..v.len()
        invariant
            r@ == v@.take(i as int),
    {
        r.push(v[i]);
        proof {
            assert(r@ =~= v@.take(i + 1));
        }
    }
    assert(r@ =~= v@);
    r
}

/// Finds, for each vtable with more than one entry, the vtable whose
/// entries are the longest proper prefix of its own, records that base on
/// the first vtable at the derived address, and appends the edges to
/// `types.inheritance`.
pub fn detect_inheritance(types: &mut TypeTables)
    ensures
        ({
            let edges = edges_upto(vtables_view(old(types).vtables@), old(types).vtables@.len() as int);
            &&& vtables_view(final(types).vtables@) == with_base_links(vtables_view(old(types).vtables@), edges)
            &&& inheritances_view(final(types).inheritance@) == inheritances_view(old(types).inheritance@)
                + edges.map_values(|e: (u64, u64)| edge_record(e))
            &&& final(types).methods == old(types).methods
            &&& final(types).classes == old(types).classes
        }),
{
    let ghost vts = types.vtables@;
    let ghost v0 = vtables_view(vts);
    let n = types.vtables.len();
    let mut by_entries = seq_u64_map_new();
    for k in 0..n
        invariant
            n == vts.len(),
            types.vtables@ == vts,
            v0 == vtables_view(vts),
            forall|e: Seq<u64>|
                #[trigger] assoc_get(seq_u64_map_items(by_entries), e) == last_with_entries(v0, e, k as int),
    {
        let vt = &types.vtables[k];
        if vt.entries.len() > 0 {
            let ghost before = seq_u64_map_items(by_entries);
            let key = copy_entries(&vt.entries);
            seq_u64_map_insert(&mut by_entries, key, vt.addr);
            proof {
                assert forall|e: Seq<u64>| #[trigger] assoc_get(seq_u64_map_items(by_entries), e)
                    == last_with_entries(v0, e, k + 1) by {
                    assert(v0[k as int] == vtable_view(vts[k as int]));
                    lemma_assoc_insert_get(before, vts[k as int].entries@, vts[k as int].addr, e);
                };
            }
        }
    }
    let mut edges: Vec<(u64, u64)> = Vec::new();
    for k in 0..n
        invariant
            n == vts.len(),
            types.vtables@ == vts,
            v0 == vtables_view(vts),
            forall|e: Seq<u64>|
                #[trigger] assoc_get(seq_u64_map_items(by_entries), e) == last_with_entries(v0, e, n as int),
            edges@ == edges_upto(v0, k as int),
    {
        let entries = &types.vtables[k].entries;
        assert(v0[k as int] == vtable_view(vts[k as int]));
        if entries.len() > 1 {
            let ghost e = entries@;
            let mut len = entries.len() - 1;
            let mut base: Option<u64> = None;
            while len >= 1 && base.is_none()
                invariant
                    n == vts.len(),
                    v0 == vtables_view(vts),
                    entries@ == e,
                    e.len() > 1,
                    len < e.len(),
                    forall|x: Seq<u64>|
                        #[trigger] assoc_get(seq_u64_map_items(by_entries), x) == last_with_entries(v0, x, n as int),
                    base is None ==> longest_base(v0, e, e.len() - 1) == longest_base(v0, e, len as int),
                    base matches Some(a) ==> longest_base(v0, e, e.len() - 1) == Some(a),
                decreases len as int + if base is None { 1int } else { 0int },
            {
                let prefix = vstd::slice::slice_subrange(entries.as_slice(), 0, len);
                proof {
                    assert(prefix@ =~= e.take(len as int));
                }
                let found = seq_u64_map_get(&by_entries, prefix);
                proof {
                    assert(found == last_with_entries(v0, e.take(len as int), v0.len() as int));
                    assert(longest_base(v0, e, len as int) == match found {
                        Some(a) => Some(a),
                        None => longest_base(v0, e, len - 1),
                    });
                }
                match found {
                    Some(a) => {
                        base = Some(a);
                    },
                    None => {
                        len -= 1;
                    },
                }
            }
            match base {
                Some(b) => {
                    edges.push((types.vtables[k].addr, b));
                },
                None => {},
            }
        }
    }
    let ghost es = edges@;
    for q in 0..edges.len()
        invariant
            es == edges@,
            vtables_view(types.vtables@) == with_base_links(v0, es.take(q as int)),
            types.inheritance == old(types).inheritance,
            types.methods == old(types).methods,
            types.classes == old(types).classes,
    {
        let (derived, base) = edges[q];
        let ghost prev = vtables_view(types.vtables@);
        proof {
            assert(es.take(q + 1).drop_last() =~= es.take(q as int));
        }
        match find_view_at(&types.vtables, derived) {
            Some(i) => {
                types.vtables[i].base_vtable = Some(base);
                proof {
                    assert(vtables_view(types.vtables@) =~= prev.update(
                        i as int,
                        (prev[i as int].0, prev[i as int].1, prev[i as int].2, Some(base)),
                    ));
                }
            },
            None => {},
        }
    }
    proof {
        assert(es.take(es.len() as int) =~= es);
    }
    let ghost inh0 = inheritances_view(types.inheritance@);
    for q in 0..edges.len()
        invariant
            es == edges@,
            vtables_view(types.vtables@) == with_base_links(v0, es),
            inheritances_view(types.inheritance@) == inh0 + es.take(q as int).map_values(
                |e: (u64, u64)| edge_record(e),
            ),
            types.methods == old(types).methods,
            types.classes == old(types).classes,
    {
        let (derived, base) = edges[q];
        let mut bases: Vec<u64> = Vec::new();
        bases.push(base);
        let ghost prev = types.inheritance@;
        types.inheritance.push(SdbInheritance { derived_vtable: derived, base_vtables: bases });
        proof {
            assert(inheritances_view(types.inheritance@) =~= inheritances_view(prev).push(edge_record(es[q as int])));
            assert(es.take(q + 1).map_values(|e: (u64, u64)| edge_record(e)) =~= es.take(q as int).map_values(
                |e: (u64, u64)| edge_record(e),
            ).push(edge_record(es[q as int])));
        }
    }
    proof {
        assert(es.take(es.len() as int) =~= es);
    }
}

} // verus!
