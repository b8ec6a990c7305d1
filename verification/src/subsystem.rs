//! Subsystem identification: the connected components of the call graph
//! with more than one function.

use vstd::prelude::*;
use indexmap::IndexSet;
use crate::collections::{u64_set_contains, u64_set_insert, u64_set_items, u64_set_new};
use crate::text::{dec, push_dec};

verus! {

/// What subsystem identification reads of the call graph: its nodes in
/// order, and for each function the callees of its outgoing edges and the
/// callers of its incoming edges.
#[derive(Debug)]
pub struct CallGraphView {
    pub nodes: Vec<u64>,
    pub callees: Vec<(u64, Vec<u64>)>,
    pub callers: Vec<(u64, Vec<u64>)>,
}

/// A subsystem: a named connected group of functions.
#[derive(Debug)]
pub struct SubsystemRecord {
    pub name: String,
    /// The functions, in the order the search reached them.
    pub functions: Vec<u64>,
}

/// The targets listed for `a` in `m` (its first entry), or none.
pub open spec fn targets(m: Seq<(u64, Vec<u64>)>, a: u64) -> Seq<u64>
    decreases m.len(),
{
    if m.len() == 0 {
        Seq::empty()
    } else if m[0].0 == a {
        m[0].1@
    } else {
        targets(m.drop_first(), a)
    }
}

/// Every target listed in `m`.
pub open spec fn all_targets(m: Seq<(u64, Vec<u64>)>) -> Seq<u64>
    decreases m.len(),
{
    if m.len() == 0 {
        Seq::empty()
    } else {
        m[0].1@ + all_targets(m.drop_first())
    }
}

/// The functions adjacent to `x`: its callees, then its callers.
pub open spec fn adjacent(g: CallGraphView, x: u64) -> Seq<u64> {
    targets(g.callees@, x) + targets(g.callers@, x)
}

/// `p` is a path of the call graph that avoids `avoid`.
pub open spec fn path_avoiding(g: CallGraphView, p: Seq<u64>, avoid: Set<u64>) -> bool {
    &&& p.len() >= 1
    &&& forall|i: int| 0 <= i < p.len() ==> !avoid.contains(#[trigger] p[i])
    &&& forall|i: int| 0 <= i < p.len() - 1 ==> #[trigger] adjacent(g, p[i]).contains(p[i + 1])
}

/// The functions reachable from `s` without passing through `avoid`.
pub open spec fn reach_set(g: CallGraphView, s: u64, avoid: Set<u64>) -> Set<u64> {
    Set::new(
        |y: u64|
            exists|p: Seq<u64>| #[trigger] path_avoiding(g, p, avoid) && p[0] == s && p.last() == y,
    )
}

/// The functions the search has reached after trying the first `i` nodes
/// as seeds.
pub open spec fn explored(g: CallGraphView, i: int) -> Set<u64>
    decreases i,
{
    if i <= 0 {
        Set::empty()
    } else {
        let e = explored(g, i - 1);
        let s = g.nodes@[i - 1];
        if e.contains(s) {
            e
        } else {
            e.union(reach_set(g, s, e))
        }
    }
}

/// Node `i` seeds a component with more than one function.
pub open spec fn seeds_subsystem(g: CallGraphView, i: int) -> bool {
    let e = explored(g, i);
    let s = g.nodes@[i];
    !e.contains(s) && exists|y: u64| y != s && #[trigger] reach_set(g, s, e).contains(y)
}

/// The indices among the first `k` nodes that seed a subsystem, in order.
pub open spec fn subsystem_seeds(g: CallGraphView, k: int) -> Seq<int>
    decreases k,
{
    if k <= 0 {
        Seq::empty()
    } else {
        subsystem_seeds(g, k - 1) + (if seeds_subsystem(g, k - 1) {
            seq![k - 1]
        } else {
            Seq::empty()
        })
    }
}

/// `r` is subsystem number `j`, seeded by node `i`.
pub open spec fn subsystem_matches(r: SubsystemRecord, j: int, g: CallGraphView, i: int) -> bool {
    &&& r.name@ == "Subsystem_"@ + dec(j as nat)
    &&& r.functions@.no_duplicates()
    &&& r.functions@.len() > 0
    &&& r.functions@[0] == g.nodes@[i]
    &&& r.functions@.to_set() == reach_set(g, g.nodes@[i], explored(g, i))
}

/// A listed target appears among all targets.
proof fn lemma_targets_listed(m: Seq<(u64, Vec<u64>)>, a: u64, x: u64)
    requires
        targets(m, a).contains(x),
    ensures
        all_targets(m).contains(x),
    decreases m.len(),
{
    broadcast use vstd::seq_lib::group_seq_properties;

    if m.len() > 0 && m[0].0 != a {
        lemma_targets_listed(m.drop_first(), a, x);
    }
}

/// A path whose start lies in `c`, a set closed under adjacency outside
/// `avoid`, stays in `c`.
proof fn lemma_path_stays(g: CallGraphView, p: Seq<u64>, avoid: Set<u64>, c: Set<u64>)
    requires
        path_avoiding(g, p, avoid),
        c.contains(p[0]),
        forall|x: u64, y: u64|
            c.contains(x) && #[trigger] adjacent(g, x).contains(y) ==> avoid.contains(y) || c.contains(y),
    ensures
        c.contains(p.last()),
    decreases p.len(),
{
    if p.len() > 1 {
        let q = p.drop_last();
        assert(path_avoiding(g, q, avoid)) by {
            assert forall|i: int| 0 <= i < q.len() - 1 implies #[trigger] adjacent(g, q[i]).contains(q[i + 1]) by {
                assert(adjacent(g, p[i]).contains(p[i + 1]));
            };
            assert forall|i: int| 0 <= i < q.len() implies !avoid.contains(#[trigger] q[i]) by {
                assert(!avoid.contains(p[i]));
            };
        };
        lemma_path_stays(g, q, avoid, c);
        let i = p.len() - 2;
        assert(adjacent(g, p[i]).contains(p[i + 1]));
        assert(!avoid.contains(p[i + 1]));
        assert(p[i + 1] == p.last());
    }
}

/// The index of the first entry of `m` for `a`.
fn find_entry(m: &Vec<(u64, Vec<u64>)>, a: u64) -> (r: Option<usize>)
    ensures
        match r {
            Some(i) => i < m@.len() && targets(m@, a) == m@[i as int].1@,
            None => targets(m@, a) == Seq::<u64>::empty(),
        },
{
    let mut i: usize = 0;
    assert(m@.skip(0) == m@);
    while i < m.len()
        invariant
            i <= m@.len(),
            targets(m@, a) == targets(m@.skip(i as int), a),
        decreases m@.len() - i,
    {
        if m[i].0 == a {
            return Some(i);
        }
        proof {
            assert(m@.skip(i as int).drop_first() == m@.skip(i + 1));
        }
        i += 1;
    }
    None
}

/// Marks each target of `list` that is not yet visited and appends it to
/// `comp`.
fn visit_targets(list: &Vec<u64>, visited: &mut IndexSet<u64>, comp: &mut Vec<u64>)
    requires
        comp@.to_set().subset_of(u64_set_items(*old(visited)).to_set()),
        old(comp)@.no_duplicates(),
    ensures
        u64_set_items(*final(visited)).to_set() == u64_set_items(*old(visited)).to_set().union(
            final(comp)@.to_set(),
        ),
        final(comp)@.no_duplicates(),
        final(comp)@.len() >= old(comp)@.len(),
        final(comp)@.subrange(0, old(comp)@.len() as int) == old(comp)@,
        forall|k: int|
            old(comp)@.len() <= k < final(comp)@.len() ==> list@.contains(#[trigger] final(comp)@[k])
                && !u64_set_items(*old(visited)).contains(final(comp)@[k]),
        forall|y: u64| list@.contains(y) ==> u64_set_items(*final(visited)).contains(y),
{
    let ghost v0 = u64_set_items(*visited);
    let ghost c0 = comp@;
    let mut k: usize = 0;
    while k < list.len()
        invariant
            k <= list@.len(),
            comp@.no_duplicates(),
            comp@.len() >= c0.len(),
            comp@.subrange(0, c0.len() as int) == c0,
            c0.to_set().subset_of(v0.to_set()),
            u64_set_items(*visited).to_set() == v0.to_set().union(comp@.to_set()),
            forall|q: int|
                c0.len() <= q < comp@.len() ==> list@.contains(#[trigger] comp@[q]) && !v0.contains(
                    comp@[q],
                ),
            forall|q: int| 0 <= q < k ==> u64_set_items(*visited).contains(#[trigger] list@[q]),
        decreases list@.len() - k,
    {
        let y = list[k];
        let ghost vb = u64_set_items(*visited);
        let ghost cb = comp@;
        let seen = u64_set_contains(visited, y);
        proof {
            assert(seen == vb.contains(y));
            assert(vb.to_set().contains(y) == vb.contains(y));
        }
        if !seen {
            u64_set_insert(visited, y);
            proof {
                assert(!cb.contains(y)) by {
                    if cb.contains(y) {
                        assert(cb.to_set().contains(y));
                        assert(vb.to_set().contains(y));
                    }
                };
                crate::seq_facts::lemma_push_no_dup(cb, y);
                crate::seq_facts::lemma_push_to_set(cb, y);
                crate::seq_facts::lemma_push_to_set(vb, y);
                assert(!v0.contains(y)) by {
                    if v0.contains(y) {
                        assert(v0.to_set().contains(y));
                        assert(vb.to_set().contains(y));
                    }
                };
            }
            comp.push(y);
            proof {
                assert(u64_set_items(*visited) == vb.push(y));
                assert(vb.push(y)[vb.len() as int] == y);
                assert(u64_set_items(*visited).contains(y));
                assert(comp@.subrange(0, c0.len() as int) == cb.subrange(0, c0.len() as int));
                assert(u64_set_items(*visited).to_set() =~= v0.to_set().union(comp@.to_set()));
            }
        }
        proof {
            assert(u64_set_items(*visited).contains(y));
            assert forall|q: int| 0 <= q < k + 1 implies u64_set_items(*visited).contains(#[trigger] list@[q]) by {
                if q < k {
                    assert(vb.contains(list@[q]));
                    assert(vb.to_set().contains(list@[q]));
                    assert(u64_set_items(*visited).to_set().contains(list@[q]));
                }
            };
        }
        k += 1;
    }
    proof {
        assert forall|y: u64| list@.contains(y) implies u64_set_items(*visited).contains(y) by {
            let q = choose|q: int| 0 <= q < list@.len() && list@[q] == y;
            assert(u64_set_items(*visited).contains(list@[q]));
        };
    }
}

/// An item of a concatenation comes from one of its parts.
proof fn lemma_concat_contains(a: Seq<u64>, b: Seq<u64>, x: u64)
    ensures
        (a + b).contains(x) <==> a.contains(x) || b.contains(x),
{
    if a.contains(x) {
        let k = choose|k: int| 0 <= k < a.len() && a[k] == x;
        assert((a + b)[k] == x);
    }
    if b.contains(x) {
        let k = choose|k: int| 0 <= k < b.len() && b[k] == x;
        assert((a + b)[a.len() + k] == x);
    }
    if (a + b).contains(x) {
        let k = choose|k: int| 0 <= k < (a + b).len() && (a + b)[k] == x;
        if k < a.len() {
            assert(a[k] == x);
        } else {
            assert(b[k - a.len()] == x);
        }
    }
}

/// A function adjacent to a reachable one, outside `avoid`, is reachable.
proof fn lemma_reach_step(g: CallGraphView, seed: u64, avoid: Set<u64>, cur: u64, n: u64)
    requires
        reach_set(g, seed, avoid).contains(cur),
        adjacent(g, cur).contains(n),
        !avoid.contains(n),
    ensures
        reach_set(g, seed, avoid).contains(n),
{
    let p = choose|p: Seq<u64>| #[trigger] path_avoiding(g, p, avoid) && p[0] == seed && p.last() == cur;
    let q = p.push(n);
    assert forall|i: int| 0 <= i < q.len() implies !avoid.contains(#[trigger] q[i]) by {
        if i < p.len() {
            assert(q[i] == p[i]);
        }
    };
    assert forall|i: int| 0 <= i < q.len() - 1 implies #[trigger] adjacent(g, q[i]).contains(q[i + 1]) by {
        if i < p.len() - 1 {
            assert(q[i] == p[i] && q[i + 1] == p[i + 1]);
        } else {
            assert(q[i] == cur && q[i + 1] == n);
        }
    };
    assert(path_avoiding(g, q, avoid) && q[0] == seed && q.last() == n);
}

/// The functions reachable from `seed` without passing through the
/// functions already in `visited` (which are `avoid`), in breadth-first
/// order; they are added to `visited`.
fn explore(g: &CallGraphView, seed: u64, visited: &mut IndexSet<u64>, Ghost(avoid): Ghost<Set<u64>>) -> (comp: Vec<u64>)
    requires
        u64_set_items(*old(visited)).to_set() == avoid,
        !avoid.contains(seed),
    ensures
        comp@.no_duplicates(),
        comp@.len() >= 1,
        comp@[0] == seed,
        comp@.to_set() == reach_set(*g, seed, avoid),
        u64_set_items(*final(visited)).to_set() == avoid.union(comp@.to_set()),
{
    broadcast use vstd::seq_lib::group_seq_properties;
    broadcast use vstd::set::group_set_axioms;
    broadcast use vstd::seq_lib::seq_to_set_is_finite;

    let ghost univ = (all_targets(g.callees@) + all_targets(g.callers@)).push(seed);
    let ghost reach = reach_set(*g, seed, avoid);
    let ghost v0 = u64_set_items(*visited);
    u64_set_insert(visited, seed);
    let mut comp: Vec<u64> = Vec::new();
    comp.push(seed);
    proof {
        crate::seq_facts::lemma_push_to_set(v0, seed);
        assert(comp@ == seq![seed]);
        assert(comp@.to_set() =~= Set::<u64>::empty().insert(seed));
        assert(u64_set_items(*visited).to_set() =~= avoid.union(comp@.to_set()));
        let p = seq![seed];
        assert(path_avoiding(*g, p, avoid) && p[0] == seed && p.last() == seed);
        assert(reach.contains(seed));
        assert(univ[univ.len() - 1] == seed);
    }
    let mut head: usize = 0;
    while head < comp.len()
        invariant
            reach == reach_set(*g, seed, avoid),
            univ == (all_targets(g.callees@) + all_targets(g.callers@)).push(seed),
            comp@.no_duplicates(),
            comp@.len() >= 1,
            comp@[0] == seed,
            head <= comp@.len(),
            u64_set_items(*visited).to_set() == avoid.union(comp@.to_set()),
            forall|k: int| 0 <= k < comp@.len() ==> !avoid.contains(#[trigger] comp@[k]),
            forall|k: int| 0 <= k < comp@.len() ==> reach.contains(#[trigger] comp@[k]),
            forall|k: int| 0 <= k < comp@.len() ==> univ.contains(#[trigger] comp@[k]),
            forall|k: int, y: u64|
                0 <= k < head && #[trigger] adjacent(*g, comp@[k]).contains(y) ==> avoid.contains(y)
                    || comp@.to_set().contains(y),
        decreases univ.len() - head,
    {
        proof {
            comp@.unique_seq_to_set();
            assert(comp@.to_set().subset_of(univ.to_set()));
            vstd::set_lib::lemma_len_subset(comp@.to_set(), univ.to_set());
            univ.lemma_cardinality_of_set();
        }
        let cur = comp[head];
        head += 1;
        let ghost c0 = comp@;
        let ghost vb = u64_set_items(*visited);
        match find_entry(&g.callees, cur) {
            Some(e) => {
                visit_targets(&g.callees[e].1, visited, &mut comp);
            },
            None => {},
        }
        let ghost c1 = comp@;
        let ghost v1 = u64_set_items(*visited);
        proof {
            let tc = targets(g.callees@, cur);
            assert(forall|y: u64| tc.contains(y) ==> v1.contains(y));
            assert(forall|k: int| c0.len() <= k < c1.len() ==> tc.contains(#[trigger] c1[k]) && !vb.contains(c1[k]));
            assert(c1.len() >= c0.len() && c1.subrange(0, c0.len() as int) == c0);
            assert(v1.to_set() == vb.to_set().union(c1.to_set()));
        }
        match find_entry(&g.callers, cur) {
            Some(e) => {
                visit_targets(&g.callers[e].1, visited, &mut comp);
            },
            None => {},
        }
        proof {
            let tr = targets(g.callers@, cur);
            let v2 = u64_set_items(*visited);
            assert(forall|y: u64| tr.contains(y) ==> v2.contains(y));
            assert(forall|k: int| c1.len() <= k < comp@.len() ==> tr.contains(#[trigger] comp@[k]) && !v1.contains(comp@[k]));
            assert(comp@.len() >= c1.len() && comp@.subrange(0, c1.len() as int) == c1);
            assert(v2.to_set() == v1.to_set().union(comp@.to_set()));
        }
        proof {
            let tc = targets(g.callees@, cur);
            let tr = targets(g.callers@, cur);
            assert(adjacent(*g, cur) == tc + tr);
            assert(comp@.subrange(0, c0.len() as int) == c0) by {
                assert(c1.subrange(0, c0.len() as int) == c0);
                assert(comp@.subrange(0, c1.len() as int) == c1);
            };
            assert forall|k: int| 0 <= k < comp@.len() implies !avoid.contains(#[trigger] comp@[k])
                && reach.contains(comp@[k]) && univ.contains(comp@[k]) by {
                if k < c0.len() {
                    assert(comp@[k] == c0[k]);
                } else {
                    let y = comp@[k];
                    if k < c1.len() {
                        assert(c1[k] == y);
                        assert(tc.contains(y));
                        assert(!vb.contains(y));
                        assert(!vb.to_set().contains(y));
                        lemma_targets_listed(g.callees@, cur, y);
                    } else {
                        assert(tr.contains(y));
                        assert(!v1.contains(y));
                        assert(!v1.to_set().contains(y));
                        assert(vb.to_set().subset_of(v1.to_set()));
                        lemma_targets_listed(g.callers@, cur, y);
                    }
                    assert(!avoid.contains(y));
                    lemma_concat_contains(tc, tr, y);
                    let ab = all_targets(g.callees@) + all_targets(g.callers@);
                    lemma_concat_contains(all_targets(g.callees@), all_targets(g.callers@), y);
                    assert(ab.contains(y));
                    let q = choose|q: int| 0 <= q < ab.len() && ab[q] == y;
                    assert(univ[q] == y);
                    assert(adjacent(*g, cur).contains(y));
                    assert(reach.contains(cur));
                    lemma_reach_step(*g, seed, avoid, cur, y);
                }
            };
            assert forall|k: int, y: u64|
                0 <= k < head && #[trigger] adjacent(*g, comp@[k]).contains(y) implies avoid.contains(y)
                    || comp@.to_set().contains(y) by {
                if k < head - 1 {
                    assert(comp@[k] == c0[k]);
                    if c0.to_set().contains(y) {
                        let q = choose|q: int| 0 <= q < c0.len() && c0[q] == y;
                        assert(comp@[q] == y);
                    }
                } else {
                    assert(comp@[k] == cur);
                    let v2 = u64_set_items(*visited);
                    lemma_concat_contains(tc, tr, y);
                    assert(v2.contains(y)) by {
                        if tc.contains(y) {
                            assert(v1.contains(y));
                            assert(v1.to_set().contains(y));
                            assert(v2.to_set().contains(y));
                        } else {
                            assert(tr.contains(y));
                        }
                    };
                    assert(v2.to_set().contains(y));
                }
            };
        }
    }
    proof {
        assert forall|y: u64| reach.contains(y) implies comp@.to_set().contains(y) by {
            let p = choose|p: Seq<u64>| #[trigger] path_avoiding(*g, p, avoid) && p[0] == seed && p.last() == y;
            assert forall|x: u64, z: u64|
                comp@.to_set().contains(x) && #[trigger] adjacent(*g, x).contains(z) implies avoid.contains(z)
                    || comp@.to_set().contains(z) by {
                let k = choose|k: int| 0 <= k < comp@.len() && comp@[k] == x;
                assert(adjacent(*g, comp@[k]).contains(z));
            };
            assert(comp@.to_set().contains(comp@[0]));
            lemma_path_stays(*g, p, avoid, comp@.to_set());
        };
        assert forall|y: u64| comp@.to_set().contains(y) implies reach.contains(y) by {
            let k = choose|k: int| 0 <= k < comp@.len() && comp@[k] == y;
            assert(reach.contains(comp@[k]));
        };
        assert(comp@.to_set() =~= reach);
    }
    comp
}

/// Finds the connected groups of the call graph: each node not reached yet
/// seeds a breadth-first search over callees and callers; a group with more
/// than one function becomes a subsystem, named `Subsystem_N` in order.
pub fn identify_subsystems(g: &CallGraphView) -> (out: Vec<SubsystemRecord>)
    ensures
        out@.len() == subsystem_seeds(*g, g.nodes@.len() as int).len(),
        forall|j: int|
            0 <= j < out@.len() ==> subsystem_matches(
                #[trigger] out@[j],
                j,
                *g,
                subsystem_seeds(*g, g.nodes@.len() as int)[j],
            ),
{
    let mut visited = u64_set_new();
    let mut out: Vec<SubsystemRecord> = Vec::new();
    proof {
        assert(u64_set_items(visited).to_set() =~= Set::<u64>::empty());
    }
    let mut i: usize = 0;
    while i < g.nodes.len()
        invariant
            i <= g.nodes@.len(),
            u64_set_items(visited).to_set() == explored(*g, i as int),
            out@.len() == subsystem_seeds(*g, i as int).len(),
            forall|j: int|
                0 <= j < out@.len() ==> subsystem_matches(
                    #[trigger] out@[j],
                    j,
                    *g,
                    subsystem_seeds(*g, i as int)[j],
                ),
        decreases g.nodes@.len() - i,
    {
        let s = g.nodes[i];
        let ghost e = explored(*g, i as int);
        let ghost seeds = subsystem_seeds(*g, i as int);
        if u64_set_contains(&visited, s) {
            proof {
                assert(e.contains(s)) by {
                    assert(u64_set_items(visited).to_set().contains(s));
                };
                assert(!seeds_subsystem(*g, i as int));
                assert(subsystem_seeds(*g, i + 1) == seeds + Seq::<int>::empty());
                assert(seeds + Seq::<int>::empty() == seeds);
            }
        } else {
            proof {
                assert(!e.contains(s)) by {
                    if e.contains(s) {
                        assert(u64_set_items(visited).to_set().contains(s));
                    }
                };
            }
            let comp = explore(g, s, &mut visited, Ghost(e));
            proof {
                assert(explored(*g, i + 1) == e.union(reach_set(*g, s, e)));
            }
            if comp.len() > 1 {
                let mut name = String::new();
                name.append("Subsystem_");
                push_dec(&mut name, out.len() as u64);
                proof {
                    assert(comp@[1] != comp@[0]);
                    assert(comp@.to_set().contains(comp@[1]));
                    assert(reach_set(*g, s, e).contains(comp@[1]));
                    assert(seeds_subsystem(*g, i as int));
                    assert(subsystem_seeds(*g, i + 1) == seeds.push(i as int)) by {
                        assert(seeds + seq![i as int] == seeds.push(i as int));
                    };
                }
                out.push(SubsystemRecord { name, functions: comp });
            } else {
                proof {
                    assert(!seeds_subsystem(*g, i as int)) by {
                        if seeds_subsystem(*g, i as int) {
                            let y = choose|y: u64| y != s && #[trigger] reach_set(*g, s, e).contains(y);
                            assert(comp@.to_set().contains(y));
                            let k = choose|k: int| 0 <= k < comp@.len() && comp@[k] == y;
                            assert(k == 0);
                        }
                    };
                    assert(subsystem_seeds(*g, i + 1) == seeds + Seq::<int>::empty());
                    assert(seeds + Seq::<int>::empty() == seeds);
                }
            }
        }
        i += 1;
    }
    out
}

} // verus!
