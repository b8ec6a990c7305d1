//! Class reconstruction: vtables grouped into classes by class name, each
//! class with the methods recorded for its vtables and the named classes
//! of their bases.

use vstd::prelude::*;
use crate::collections::{
    assoc_get, assoc_insert, lemma_assoc_insert_get, string_vec_map_get, string_vec_map_insert,
    string_vec_map_into_entries, string_vec_map_items, string_vec_map_new, u64_indices_map_get,
    u64_indices_map_insert, u64_indices_map_items, u64_indices_map_new, u64_usize_map_get, u64_usize_map_insert,
    u64_usize_map_items, u64_usize_map_new,
};
use crate::diff::{contains_name, names};
use crate::inheritance::copy_entries;
use crate::recovered_types::{
    add_base, class_view, classes_view, vtables_view, ClassView, SdbClass, SdbInheritance, SdbMethod, SdbVtable, TypeTables,
};
use crate::text::{hex_upper_padded, push_hex_upper_padded};
use crate::vtables::last_vtable_at;

verus! {

/// The number of vtables among the first `k` without a class name.
pub open spec fn unnamed_count(vts: Seq<SdbVtable>, k: int) -> nat
    decreases k,
{
    if k <= 0 {
        0
    } else {
        unnamed_count(vts, k - 1) + if vts[k - 1].class_name is None { 1nat } else { 0nat }
    }
}

/// The class vtable `k` belongs to: its class name, or `Class_` and the
/// ordinal of the vtable among the unnamed ones, from one, in four
/// upper-case hexadecimal digits.
pub open spec fn class_key(vts: Seq<SdbVtable>, k: int) -> Seq<char> {
    match vts[k].class_name {
        Some(n) => n@,
        None => "Class_"@ + hex_upper_padded(unnamed_count(vts, k + 1), 4),
    }
}

/// The entries after appending `v` to the list under `k`, or adding an
/// entry with `v` alone.
pub open spec fn group_insert<K, V>(g: Seq<(K, Seq<V>)>, k: K, v: V) -> Seq<(K, Seq<V>)> {
    assoc_insert(
        g,
        k,
        match assoc_get(g, k) {
            Some(l) => l.push(v),
            None => seq![v],
        },
    )
}

/// The classes of the first `k` vtables, in order of first appearance,
/// each with the addresses of its vtables.
pub open spec fn class_groups(vts: Seq<SdbVtable>, k: int) -> Seq<(Seq<char>, Seq<u64>)>
    decreases k,
{
    if k <= 0 {
        Seq::empty()
    } else {
        group_insert(class_groups(vts, k - 1), class_key(vts, k - 1), vts[k - 1].addr)
    }
}

/// The indices of the first `k` methods recorded for vtable `a`.
pub open spec fn method_indices(ms: Seq<SdbMethod>, a: u64, k: int) -> Seq<usize>
    decreases k,
{
    if k <= 0 {
        Seq::empty()
    } else {
        let p = method_indices(ms, a, k - 1);
        if ms[k - 1].class_vtable == a {
            p.push((k - 1) as usize)
        } else {
            p
        }
    }
}

/// The indices of the first `k` inheritance edges derived from vtable `a`.
pub open spec fn edge_indices(es: Seq<SdbInheritance>, a: u64, k: int) -> Seq<usize>
    decreases k,
{
    if k <= 0 {
        Seq::empty()
    } else {
        let p = edge_indices(es, a, k - 1);
        if es[k - 1].derived_vtable == a {
            p.push((k - 1) as usize)
        } else {
            p
        }
    }
}

/// The methods of a class with vtables `addrs`: those recorded for each
/// vtable, vtable by vtable.
pub open spec fn class_methods(ms: Seq<SdbMethod>, addrs: Seq<u64>) -> Seq<SdbMethod>
    decreases addrs.len(),
{
    if addrs.len() == 0 {
        Seq::empty()
    } else {
        class_methods(ms, addrs.drop_last()) + method_indices(ms, addrs.last(), ms.len() as int).map_values(
            |i: usize| ms[i as int],
        )
    }
}

/// The class name of the last vtable at `b`, when it has one.
pub open spec fn base_name(vts: Seq<SdbVtable>, b: u64) -> Option<Seq<char>> {
    let vs = vtables_view(vts);
    match last_vtable_at(vs, b, vs.len() as int) {
        Some(j) => vs[j].2,
        None => None,
    }
}

/// `bases` with the class names of the vtables `bs` added, in order.
pub open spec fn with_base_names(vts: Seq<SdbVtable>, bases: Seq<Seq<char>>, bs: Seq<u64>) -> Seq<Seq<char>>
    decreases bs.len(),
{
    if bs.len() == 0 {
        bases
    } else {
        let prev = with_base_names(vts, bases, bs.drop_last());
        match base_name(vts, bs.last()) {
            Some(n) => add_base(prev, n),
            None => prev,
        }
    }
}

/// `bases` with the base names of the edges at `idxs` added, in order.
pub open spec fn with_edge_bases(
    vts: Seq<SdbVtable>,
    es: Seq<SdbInheritance>,
    bases: Seq<Seq<char>>,
    idxs: Seq<usize>,
) -> Seq<Seq<char>>
    decreases idxs.len(),
{
    if idxs.len() == 0 {
        bases
    } else {
        with_base_names(vts, with_edge_bases(vts, es, bases, idxs.drop_last()), es[idxs.last() as int].base_vtables@)
    }
}

/// The base names of a class with vtables `addrs`: the class names of the
/// bases of the edges derived from each vtable, each once, in order.
pub open spec fn class_bases(vts: Seq<SdbVtable>, es: Seq<SdbInheritance>, addrs: Seq<u64>) -> Seq<Seq<char>>
    decreases addrs.len(),
{
    if addrs.len() == 0 {
        Seq::empty()
    } else {
        with_edge_bases(vts, es, class_bases(vts, es, addrs.drop_last()), edge_indices(es, addrs.last(), es.len() as int))
    }
}

/// The class reconstructed from a group.
pub open spec fn group_class(
    vts: Seq<SdbVtable>,
    ms: Seq<SdbMethod>,
    es: Seq<SdbInheritance>,
    g: (Seq<char>, Seq<u64>),
) -> ClassView {
    (g.0, g.1, class_methods(ms, g.1), class_bases(vts, es, g.1))
}

proof fn lemma_unnamed_count(vts: Seq<SdbVtable>, k: int)
    requires
        0 <= k,
    ensures
        unnamed_count(vts, k) <= k,
    decreases k,
{
    if k > 0 {
        lemma_unnamed_count(vts, k - 1);
    }
}

proof fn lemma_method_indices(ms: Seq<SdbMethod>, a: u64, k: int)
    requires
        0 <= k <= ms.len(),
        ms.len() <= usize::MAX,
    ensures
        forall|q: int| 0 <= q < method_indices(ms, a, k).len() ==> #[trigger] method_indices(ms, a, k)[q] < k,
    decreases k,
{
    if k > 0 {
        lemma_method_indices(ms, a, k - 1);
        let p = method_indices(ms, a, k - 1);
        assert forall|q: int| 0 <= q < method_indices(ms, a, k).len() implies #[trigger] method_indices(ms, a, k)[q] < k by {
            if q < p.len() {
                assert(method_indices(ms, a, k)[q] == p[q]);
            }
        };
    }
}

proof fn lemma_edge_indices(es: Seq<SdbInheritance>, a: u64, k: int)
    requires
        0 <= k <= es.len(),
        es.len() <= usize::MAX,
    ensures
        forall|q: int| 0 <= q < edge_indices(es, a, k).len() ==> #[trigger] edge_indices(es, a, k)[q] < k,
    decreases k,
{
    if k > 0 {
        lemma_edge_indices(es, a, k - 1);
        let p = edge_indices(es, a, k - 1);
        assert forall|q: int| 0 <= q < edge_indices(es, a, k).len() implies #[trigger] edge_indices(es, a, k)[q] < k by {
            if q < p.len() {
                assert(edge_indices(es, a, k)[q] == p[q]);
            }
        };
    }
}

/// The lookup a map of indices answers: the list, when it is not empty.
pub open spec fn indices_entry(l: Seq<usize>) -> Option<Seq<usize>> {
    if l.len() > 0 {
        Some(l)
    } else {
        None
    }
}

/// Groups the vtables into classes by class name (a vtable without one
/// forms a class `Class_NNNN` of its own), and replaces `types.classes`
/// with them, in order of first appearance; each class has the methods
/// recorded for its vtables and, once each, the class names of the bases
/// of the inheritance edges derived from them.
pub fn reconstruct_classes(types: &mut TypeTables)
    ensures
        classes_view(final(types).classes@) == class_groups(
            old(types).vtables@,
            old(types).vtables@.len() as int,
        ).map_values(
            |g: (Seq<char>, Seq<u64>)|
                group_class(old(types).vtables@, old(types).methods@, old(types).inheritance@, g),
        ),
        final(types).vtables == old(types).vtables,
        final(types).methods == old(types).methods,
        final(types).inheritance == old(types).inheritance,
{
    let ghost vts = types.vtables@;
    let ghost ms = types.methods@;
    let ghost es = types.inheritance@;
    let nv = types.vtables.len();
    let nm = types.methods.len();
    let ne = types.inheritance.len();
    // Vtables by class.
    let mut by_class = string_vec_map_new();
    let mut class_id: u64 = 0;
    for k in 0..nv
        invariant
            nv == vts.len(),
            types.vtables@ == vts,
            string_vec_map_items(by_class) == class_groups(vts, k as int),
            class_id == unnamed_count(vts, k as int),
    {
        proof {
            lemma_unnamed_count(vts, k as int);
        }
        let vt = &types.vtables[k];
        let key = match &vt.class_name {
            Some(n) => n.clone(),
            None => {
                class_id = class_id + 1;
                let mut s = String::new();
                s.append("Class_");
                push_hex_upper_padded(&mut s, class_id, 4);
                s
            },
        };
        proof {
            assert(key@ == class_key(vts, k as int));
        }
        let list = match string_vec_map_get(&by_class, key.as_str()) {
            Some(l) => {
                let mut l = l;
                l.push(vt.addr);
                l
            },
            None => {
                let mut l: Vec<u64> = Vec::new();
                l.push(vt.addr);
                l
            },
        };
        string_vec_map_insert(&mut by_class, key, list);
    }
    // Methods by vtable.
    let mut methods_by_vtable = u64_indices_map_new();
    for q in 0..nm
        invariant
            nm == ms.len(),
            types.methods@ == ms,
            forall|a: u64|
                #[trigger] assoc_get(u64_indices_map_items(methods_by_vtable), a) == indices_entry(
                    method_indices(ms, a, q as int),
                ),
    {
        let a = types.methods[q].class_vtable;
        let ghost before = u64_indices_map_items(methods_by_vtable);
        let list = match u64_indices_map_get(&methods_by_vtable, a) {
            Some(l) => {
                let mut l = l;
                l.push(q);
                l
            },
            None => {
                let mut l: Vec<usize> = Vec::new();
                l.push(q);
                l
            },
        };
        let ghost lv = list@;
        u64_indices_map_insert(&mut methods_by_vtable, a, list);
        proof {
            assert forall|x: u64| #[trigger] assoc_get(u64_indices_map_items(methods_by_vtable), x) == indices_entry(
                method_indices(ms, x, q + 1),
            ) by {
                lemma_assoc_insert_get(before, a, lv, x);
                if x == a {
                    assert(lv =~= method_indices(ms, x, q + 1));
                }
            };
        }
    }
    // Inheritance edges by derived vtable.
    let mut edges_by_vtable = u64_indices_map_new();
    for q in 0..ne
        invariant
            ne == es.len(),
            types.inheritance@ == es,
            forall|a: u64|
                #[trigger] assoc_get(u64_indices_map_items(edges_by_vtable), a) == indices_entry(
                    edge_indices(es, a, q as int),
                ),
    {
        let a = types.inheritance[q].derived_vtable;
        let ghost before = u64_indices_map_items(edges_by_vtable);
        let list = match u64_indices_map_get(&edges_by_vtable, a) {
            Some(l) => {
                let mut l = l;
                l.push(q);
                l
            },
            None => {
                let mut l: Vec<usize> = Vec::new();
                l.push(q);
                l
            },
        };
        let ghost lv = list@;
        u64_indices_map_insert(&mut edges_by_vtable, a, list);
        proof {
            assert forall|x: u64| #[trigger] assoc_get(u64_indices_map_items(edges_by_vtable), x) == indices_entry(
                edge_indices(es, x, q + 1),
            ) by {
                lemma_assoc_insert_get(before, a, lv, x);
                if x == a {
                    assert(lv =~= edge_indices(es, x, q + 1));
                }
            };
        }
    }
    // The last vtable at each address.
    let mut vtable_by_addr = u64_usize_map_new();
    for k in 0..nv
        invariant
            nv == vts.len(),
            types.vtables@ == vts,
            forall|a: u64|
                #[trigger] assoc_get(u64_usize_map_items(vtable_by_addr), a) == match last_vtable_at(vtables_view(vts), a, k as int) {
                    Some(j) => Some(j as usize),
                    None => None::<usize>,
                },
    {
        let ghost before = u64_usize_map_items(vtable_by_addr);
        u64_usize_map_insert(&mut vtable_by_addr, types.vtables[k].addr, k);
        proof {
            assert forall|a: u64| #[trigger] assoc_get(u64_usize_map_items(vtable_by_addr), a) == match last_vtable_at(
                vtables_view(vts),
                a,
                k + 1,
            ) {
                Some(j) => Some(j as usize),
                None => None::<usize>,
            } by {
                assert(vtables_view(vts)[k as int].0 == vts[k as int].addr);
                lemma_assoc_insert_get(before, vts[k as int].addr, k, a);
            };
        }
    }
    let ghost groups = class_groups(vts, nv as int);
    let entries = string_vec_map_into_entries(by_class);
    let mut classes: Vec<SdbClass> = Vec::new();
    for g in 0..entries.len()
        invariant
            nv == vts.len(),
            nm == ms.len(),
            ne == es.len(),
            types.vtables@ == vts,
            types.methods@ == ms,
            types.inheritance@ == es,
            entries@.map_values(|e: (String, Vec<u64>)| (e.0@, e.1@)) == groups,
            forall|a: u64|
                #[trigger] assoc_get(u64_indices_map_items(methods_by_vtable), a) == indices_entry(
                    method_indices(ms, a, nm as int),
                ),
            forall|a: u64|
                #[trigger] assoc_get(u64_indices_map_items(edges_by_vtable), a) == indices_entry(
                    edge_indices(es, a, ne as int),
                ),
            forall|a: u64|
                #[trigger] assoc_get(u64_usize_map_items(vtable_by_addr), a) == match last_vtable_at(vtables_view(vts), a, nv as int) {
                    Some(j) => Some(j as usize),
                    None => None::<usize>,
                },
            classes_view(classes@) == groups.take(g as int).map_values(
                |x: (Seq<char>, Seq<u64>)| group_class(vts, ms, es, x),
            ),
    {
        proof {
            assert(groups[g as int] == (entries@[g as int].0@, entries@[g as int].1@));
        }
        let name = entries[g].0.clone();
        let addrs = copy_entries(&entries[g].1);
        let mut methods: Vec<SdbMethod> = Vec::new();
        let mut bases: Vec<String> = Vec::new();
        for v in 0..addrs.len()
            invariant
                nv == vts.len(),
                nm == ms.len(),
                ne == es.len(),
                types.vtables@ == vts,
                types.methods@ == ms,
                types.inheritance@ == es,
                forall|a: u64|
                    #[trigger] assoc_get(u64_indices_map_items(methods_by_vtable), a) == indices_entry(
                        method_indices(ms, a, nm as int),
                    ),
                forall|a: u64|
                    #[trigger] assoc_get(u64_indices_map_items(edges_by_vtable), a) == indices_entry(
                        edge_indices(es, a, ne as int),
                    ),
                forall|a: u64|
                    #[trigger] assoc_get(u64_usize_map_items(vtable_by_addr), a) == match last_vtable_at(
                        vtables_view(vts),
                        a,
                        nv as int,
                    ) {
                        Some(j) => Some(j as usize),
                        None => None::<usize>,
                    },
                methods@ == class_methods(ms, addrs@.take(v as int)),
                names(bases@) == class_bases(vts, es, addrs@.take(v as int)),
        {
            let a = addrs[v];
            proof {
                assert(addrs@.take(v + 1).drop_last() =~= addrs@.take(v as int));
                assert(addrs@.take(v + 1).last() == a);
            }
            // The methods recorded for this vtable.
            let ghost mi = method_indices(ms, a, nm as int);
            let ghost m0 = methods@;
            let mlist = match u64_indices_map_get(&methods_by_vtable, a) {
                Some(l) => l,
                None => Vec::new(),
            };
            proof {
                assert(mlist@ =~= mi);
                lemma_method_indices(ms, a, nm as int);
            }
            for t in 0..mlist.len()
                invariant
                    nm == ms.len(),
                    types.methods@ == ms,
                    mlist@ == mi,
                    forall|q: int| 0 <= q < mi.len() ==> #[trigger] mi[q] < nm,
                    methods@ == m0 + mi.take(t as int).map_values(|i: usize| ms[i as int]),
            {
                let m = types.methods[mlist[t]];
                methods.push(m);
                proof {
                    assert(mi.take(t + 1).map_values(|i: usize| ms[i as int]) =~= mi.take(t as int).map_values(
                        |i: usize| ms[i as int],
                    ).push(ms[mi[t as int] as int]));
                }
            }
            proof {
                assert(mi.take(mi.len() as int) =~= mi);
            }
            // The base names recorded through this vtable's edges.
            let ghost ei = edge_indices(es, a, ne as int);
            let ghost b0 = names(bases@);
            let elist = match u64_indices_map_get(&edges_by_vtable, a) {
                Some(l) => l,
                None => Vec::new(),
            };
            proof {
                assert(elist@ =~= ei);
                lemma_edge_indices(es, a, ne as int);
            }
            for t in 0..elist.len()
                invariant
                    nv == vts.len(),
                    ne == es.len(),
                    types.vtables@ == vts,
                    types.inheritance@ == es,
                    elist@ == ei,
                    forall|q: int| 0 <= q < ei.len() ==> #[trigger] ei[q] < ne,
                    forall|x: u64|
                        #[trigger] assoc_get(u64_usize_map_items(vtable_by_addr), x) == match last_vtable_at(
                            vtables_view(vts),
                            x,
                            nv as int,
                        ) {
                            Some(j) => Some(j as usize),
                            None => None::<usize>,
                        },
                    names(bases@) == with_edge_bases(vts, es, b0, ei.take(t as int)),
            {
                let bs = &types.inheritance[elist[t]].base_vtables;
                let ghost bb = names(bases@);
                proof {
                    assert(ei.take(t + 1).drop_last() =~= ei.take(t as int));
                }
                for u in 0..bs.len()
                    invariant
                        nv == vts.len(),
                        types.vtables@ == vts,
                        forall|x: u64|
                            #[trigger] assoc_get(u64_usize_map_items(vtable_by_addr), x) == match last_vtable_at(
                                vtables_view(vts),
                                x,
                                nv as int,
                            ) {
                                Some(j) => Some(j as usize),
                                None => None::<usize>,
                            },
                        names(bases@) == with_base_names(vts, bb, bs@.take(u as int)),
                {
                    let b = bs[u];
                    proof {
                        assert(bs@.take(u + 1).drop_last() =~= bs@.take(u as int));
                        crate::vtables::lemma_last_vtable_at_pub(vtables_view(vts), b, nv as int);
                    }
                    match u64_usize_map_get(&vtable_by_addr, b) {
                        Some(j) => {
                            match &types.vtables[j].class_name {
                                Some(n) => {
                                    let ghost before = bases@;
                                    if !contains_name(&bases, n) {
                                        bases.push(n.clone());
                                        proof {
                                            assert(names(bases@) =~= names(before).push(n@));
                                        }
                                    }
                                },
                                None => {},
                            }
                        },
                        None => {},
                    }
                }
                proof {
                    assert(bs@.take(bs@.len() as int) =~= bs@);
                }
            }
            proof {
                assert(ei.take(ei.len() as int) =~= ei);
            }
        }
        proof {
            assert(addrs@.take(addrs@.len() as int) =~= addrs@);
        }
        let ghost prev = classes@;
        let c = SdbClass { name, vtables: addrs, methods, bases };
        classes.push(c);
        proof {
            assert(class_view(c) == group_class(vts, ms, es, groups[g as int]));
            assert(groups.take(g + 1) =~= groups.take(g as int).push(groups[g as int]));
            assert(classes_view(classes@) =~= classes_view(prev).push(class_view(c)));
            assert(classes_view(classes@) =~= groups.take(g + 1).map_values(
                |x: (Seq<char>, Seq<u64>)| group_class(vts, ms, es, x),
            ));
        }
    }
    proof {
        assert(groups.take(groups.len() as int) =~= groups);
    }
    types.classes = classes;
}

} // verus!
