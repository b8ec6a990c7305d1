//! Circular include detection: a depth-first search over the include
//! graph of the reconstructed project that reports the first cycle it
//! meets.

use vstd::prelude::*;
use indexmap::IndexMap;
use crate::collections::{
    assoc_get, assoc_insert, key_position, lemma_assoc_insert_get, lemma_key_position,
    string_lists_map_get, string_lists_map_insert, string_lists_map_items, string_lists_map_new,
};
use crate::diff::{contains_name, names};
use crate::project_layout::FileEntry;
use crate::refinement::{ActionView, FeedbackEntry, RefinementAction};
use crate::seq_facts::lemma_push_to_set;
use crate::text::str_eq;
use crate::validator::{feedback_view, FeedbackView};

verus! {

/// A graph of files by path, each with the paths it includes, in the
/// order in which the files were entered.
pub type IncludeGraph = Seq<(Seq<char>, Seq<Seq<char>>)>;

/// The paths `n` includes; none for a path with no entry.
pub open spec fn neighbors(adj: IncludeGraph, n: Seq<char>) -> Seq<Seq<char>> {
    match assoc_get(adj, n) {
        Some(l) => l,
        None => Seq::empty(),
    }
}

/// Every path that the first `k` entries name, as a file or as an include.
pub open spec fn paths_upto(adj: IncludeGraph, k: int) -> Seq<Seq<char>>
    decreases k,
{
    if k <= 0 {
        Seq::empty()
    } else {
        paths_upto(adj, k - 1).push(adj[k - 1].0) + adj[k - 1].1
    }
}

/// Every path that the graph names.
pub open spec fn universe(adj: IncludeGraph) -> Set<Seq<char>> {
    paths_upto(adj, adj.len() as int).to_set()
}

/// How many paths of the graph are not in `vis`.
pub open spec fn unvisited(adj: IncludeGraph, vis: Set<Seq<char>>) -> nat {
    universe(adj).difference(vis).len()
}

/// The outcome of a search: whether it met a cycle, the paths visited, and
/// the current path of the search (closed by the repeated path when a
/// cycle was met).
pub type SearchState = (bool, Set<Seq<char>>, Seq<Seq<char>>);

/// The search from `node`, given `fuel` levels of depth. The paths on the
/// search stack are those of the current path.
pub open spec fn visit(
    adj: IncludeGraph,
    node: Seq<char>,
    vis: Set<Seq<char>>,
    path: Seq<Seq<char>>,
    fuel: nat,
) -> SearchState
    decreases fuel, 0int, 0int,
{
    if fuel == 0 {
        (false, vis, path)
    } else {
        let r = visit_from(
            adj,
            neighbors(adj, node),
            0,
            vis.insert(node),
            path.push(node),
            (fuel - 1) as nat,
        );
        if r.0 {
            r
        } else {
            (false, r.1, r.2.drop_last())
        }
    }
}

/// The search through the neighbours `nbrs` of the last path on `path`,
/// from the `j`-th on: an unvisited neighbour is searched; a neighbour on
/// the current path closes a cycle.
pub open spec fn visit_from(
    adj: IncludeGraph,
    nbrs: Seq<Seq<char>>,
    j: int,
    vis: Set<Seq<char>>,
    path: Seq<Seq<char>>,
    fuel: nat,
) -> SearchState
    decreases fuel, 1int, nbrs.len() - j,
{
    if j < 0 || j >= nbrs.len() {
        (false, vis, path)
    } else {
        let nb = nbrs[j];
        if !vis.contains(nb) {
            let r = visit(adj, nb, vis, path, fuel);
            if r.0 {
                r
            } else {
                visit_from(adj, nbrs, j + 1, r.1, r.2, fuel)
            }
        } else if path.contains(nb) {
            (true, vis, path.push(nb))
        } else {
            visit_from(adj, nbrs, j + 1, vis, path, fuel)
        }
    }
}

/// The file and the includes of each entry among the first `k` are paths
/// of the graph.
proof fn lemma_paths_upto(adj: IncludeGraph, k: int, i: int)
    requires
        0 <= i < k <= adj.len(),
    ensures
        paths_upto(adj, k).contains(adj[i].0),
        forall|j: int| 0 <= j < adj[i].1.len() ==> paths_upto(adj, k).contains(#[trigger] adj[i].1[j]),
    decreases k,
{
    let p = paths_upto(adj, k - 1).push(adj[k - 1].0);
    assert(paths_upto(adj, k) == p + adj[k - 1].1);
    if i < k - 1 {
        lemma_paths_upto(adj, k - 1, i);
        let q = paths_upto(adj, k - 1);
        let x = choose|m: int| 0 <= m < q.len() && q[m] == adj[i].0;
        assert((p + adj[k - 1].1)[x] == adj[i].0);
        assert forall|j: int| 0 <= j < adj[i].1.len() implies paths_upto(adj, k).contains(#[trigger] adj[i].1[j]) by {
            assert(q.contains(adj[i].1[j]));
            let y = choose|m: int| 0 <= m < q.len() && q[m] == adj[i].1[j];
            assert((p + adj[k - 1].1)[y] == adj[i].1[j]);
        }
    } else {
        assert((p + adj[k - 1].1)[p.len() - 1] == adj[i].0);
        assert forall|j: int| 0 <= j < adj[i].1.len() implies paths_upto(adj, k).contains(#[trigger] adj[i].1[j]) by {
            assert((p + adj[k - 1].1)[p.len() + j] == adj[i].1[j]);
        }
    }
}

/// The neighbours of any path are paths of the graph.
proof fn lemma_neighbors_in_universe(adj: IncludeGraph, n: Seq<char>)
    ensures
        forall|j: int| 0 <= j < neighbors(adj, n).len() ==> universe(adj).contains(#[trigger] neighbors(adj, n)[j]),
{
    lemma_key_position(adj, n, 0);
    match key_position(adj, n, 0) {
        Some(i) => {
            lemma_paths_upto(adj, adj.len() as int, i);
        },
        None => {},
    }
}

/// Visiting an unvisited path of the graph leaves fewer paths unvisited.
proof fn lemma_unvisited_drops(adj: IncludeGraph, vis: Set<Seq<char>>, later: Set<Seq<char>>, x: Seq<char>)
    requires
        universe(adj).contains(x),
        !vis.contains(x),
        vis.insert(x).subset_of(later),
    ensures
        unvisited(adj, later) < unvisited(adj, vis),
{
    let u = universe(adj);
    let before = u.difference(vis);
    let after = u.difference(later);
    assert(after.subset_of(before.remove(x)));
    vstd::set_lib::lemma_len_subset(after, before.remove(x));
}

/// The search from `node`: marks it visited, puts it on the current path
/// and searches its includes in order; says whether a cycle was met.
fn has_cycle(
    node: &String,
    adj: &IndexMap<String, Vec<String>>,
    visited: &mut Vec<String>,
    path: &mut Vec<String>,
    Ghost(fuel): Ghost<nat>,
) -> (found: bool)
    requires
        universe(string_lists_map_items(*adj)).contains(node@),
        !names(old(visited)@).contains(node@),
        names(old(visited)@).to_set().subset_of(universe(string_lists_map_items(*adj))),
        unvisited(string_lists_map_items(*adj), names(old(visited)@).to_set()) < fuel,
    ensures
        visit(string_lists_map_items(*adj), node@, names(old(visited)@).to_set(), names(old(path)@), fuel)
            == (found, names(final(visited)@).to_set(), names(final(path)@)),
        names(old(visited)@).to_set().insert(node@).subset_of(names(final(visited)@).to_set()),
        names(final(visited)@).to_set().subset_of(universe(string_lists_map_items(*adj))),
        !found ==> names(final(path)@) == names(old(path)@),
    decreases fuel,
{
    let ghost g = string_lists_map_items(*adj);
    let ghost u = universe(g);
    let ghost vis0 = names(visited@).to_set();
    let ghost path0 = names(path@);
    let ghost fuel1: nat = (fuel - 1) as nat;
    proof {
        lemma_push_to_set(names(visited@), node@);
        lemma_neighbors_in_universe(g, node@);
    }
    visited.push(node.clone());
    path.push(node.clone());
    proof {
        assert(names(visited@) =~= names(old(visited)@).push(node@));
        assert(names(path@) =~= path0.push(node@));
    }
    let nbrs = match string_lists_map_get(adj, node.as_str()) {
        Some(v) => v,
        None => Vec::new(),
    };
    let ghost ns = names(nbrs@);
    proof {
        assert(ns =~= neighbors(g, node@));
        assert(fuel > 0);
        assert(visit(g, node@, vis0, path0, fuel) == {
            let r = visit_from(g, ns, 0, vis0.insert(node@), path0.push(node@), fuel1);
            if r.0 {
                r
            } else {
                (false, r.1, r.2.drop_last())
            }
        });
    }
    let mut j: usize = 0;
    while j < nbrs.len()
        invariant
            g == string_lists_map_items(*adj),
            u == universe(g),
            ns == names(nbrs@),
            ns == neighbors(g, node@),
            forall|q: int| 0 <= q < ns.len() ==> u.contains(#[trigger] ns[q]),
            0 <= j <= nbrs.len(),
            fuel1 == fuel - 1,
            vis0 == names(old(visited)@).to_set(),
            path0 == names(old(path)@),
            visit(g, node@, vis0, path0, fuel) == {
                let r = visit_from(g, ns, 0, vis0.insert(node@), path0.push(node@), fuel1);
                if r.0 {
                    r
                } else {
                    (false, r.1, r.2.drop_last())
                }
            },
            unvisited(g, vis0) < fuel,
            !vis0.contains(node@),
            u.contains(node@),
            visit_from(g, ns, 0, vis0.insert(node@), path0.push(node@), fuel1) == visit_from(
                g,
                ns,
                j as int,
                names(visited@).to_set(),
                names(path@),
                fuel1,
            ),
            vis0.insert(node@).subset_of(names(visited@).to_set()),
            names(visited@).to_set().subset_of(u),
            names(path@) == path0.push(node@),
        decreases nbrs.len() - j,
    {
        let nb = &nbrs[j];
        proof {
            assert(ns[j as int] == nb@);
        }
        if !contains_name(visited, nb) {
            proof {
                lemma_unvisited_drops(g, vis0, names(visited@).to_set(), node@);
            }
            let ghost vis_before = names(visited@).to_set();
            let ghost path_before = names(path@);
            let found = has_cycle(nb, adj, visited, path, Ghost(fuel1));
            if found {
                proof {
                    let r = visit(g, nb@, vis_before, path_before, fuel1);
                    assert(r == (true, names(visited@).to_set(), names(path@)));
                    assert(visit_from(g, ns, j as int, vis_before, path_before, fuel1) == r);
                    assert(vis0.insert(node@).subset_of(names(visited@).to_set()));
                }
                return true;
            }
        } else if contains_name(path, nb) {
            let ghost vis_now = names(visited@).to_set();
            let ghost path_before = names(path@);
            proof {
                assert(vis_now.contains(nb@));
                assert(path_before.contains(nb@));
                assert(visit_from(g, ns, j as int, vis_now, path_before, fuel1) == (true, vis_now, path_before.push(nb@)));
            }
            path.push(nb.clone());
            proof {
                assert(names(path@) =~= path_before.push(nb@));
                assert(names(visited@).to_set() == vis_now);
            }
            return true;
        }
        j += 1;
    }
    let ghost before = path@;
    path.pop();
    proof {
        assert(names(before) == path0.push(node@));
        assert(path@ == before.drop_last());
        assert(names(path@) =~= names(before).drop_last());
        assert(names(path@) =~= path0);
    }
    false
}

/// The include graph of the first `k` files: each file's includes under
/// its path, a later file at the same path replacing the earlier's.
pub open spec fn graph_of(files: Seq<FileEntry>, k: int) -> IncludeGraph
    decreases k,
{
    if k <= 0 {
        Seq::empty()
    } else {
        assoc_insert(graph_of(files, k - 1), files[k - 1].path@, names(files[k - 1].includes@))
    }
}

/// The paths of the files, in order.
pub open spec fn file_paths(files: Seq<FileEntry>) -> Seq<Seq<char>> {
    files.map_values(|f: FileEntry| f.path@)
}

/// A depth more than any search in `adj` descends: each level visits a
/// path of the graph not visited before.
pub open spec fn search_depth(adj: IncludeGraph) -> nat {
    universe(adj).len() + 1
}

/// The search from each of `roots[k..]` in turn that is not yet visited,
/// until one meets a cycle: the path that the cycle closes, or `None`.
pub open spec fn search_from(
    adj: IncludeGraph,
    roots: Seq<Seq<char>>,
    k: int,
    vis: Set<Seq<char>>,
    path: Seq<Seq<char>>,
) -> Option<Seq<Seq<char>>>
    decreases roots.len() - k,
{
    if k < 0 || k >= roots.len() {
        None
    } else if vis.contains(roots[k]) {
        search_from(adj, roots, k + 1, vis, path)
    } else {
        let r = visit(adj, roots[k], vis, path, search_depth(adj));
        if r.0 {
            Some(r.2)
        } else {
            search_from(adj, roots, k + 1, r.1, r.2)
        }
    }
}

/// The first cycle that a search from the files in order meets, as the
/// search path that it closes.
pub open spec fn first_cycle(files: Seq<FileEntry>) -> Option<Seq<Seq<char>>> {
    search_from(graph_of(files, files.len() as int), file_paths(files), 0, Set::empty(), Seq::empty())
}

/// The index of the first occurrence of `x` in `p` from `i` on; `p.len()`
/// if there is none.
pub open spec fn first_index(p: Seq<Seq<char>>, x: Seq<char>, i: int) -> int
    decreases p.len() - i,
{
    if i < 0 || i >= p.len() {
        p.len() as int
    } else if p[i] == x {
        i
    } else {
        first_index(p, x, i + 1)
    }
}

/// The cycle that closes the search path `p`: from the first occurrence of
/// its last path to its end.
pub open spec fn cycle_segment(p: Seq<Seq<char>>) -> Seq<Seq<char>> {
    p.subrange(first_index(p, p.last(), 0), p.len() as int)
}

/// The paths of `s` with `sep` between each two.
pub open spec fn joined(s: Seq<Seq<char>>, sep: Seq<char>) -> Seq<char>
    decreases s.len(),
{
    if s.len() == 0 {
        Seq::empty()
    } else if s.len() == 1 {
        s[0]
    } else {
        joined(s.drop_last(), sep) + sep + s.last()
    }
}

/// The finding that reports the cycle closing the search path `p`.
pub open spec fn cycle_finding(p: Seq<Seq<char>>) -> FeedbackView {
    (
        "Circular dependency detected: "@ + joined(cycle_segment(p), " -> "@),
        ActionView::RenameSymbol { address: 0, new_name: Seq::empty() },
    )
}

/// The finding on the includes of `files`: the first cycle met, if any.
pub open spec fn include_cycle_finding(files: Seq<FileEntry>) -> Option<FeedbackView> {
    match first_cycle(files) {
        Some(p) => if p.len() > 0 {
            Some(cycle_finding(p))
        } else {
            None
        },
        None => None,
    }
}

/// Every file of the first `n` has an entry in their graph.
proof fn lemma_graph_has_files(files: Seq<FileEntry>, n: int, i: int)
    requires
        0 <= i < n <= files.len(),
    ensures
        assoc_get(graph_of(files, n), files[i].path@) is Some,
    decreases n,
{
    lemma_assoc_insert_get(graph_of(files, n - 1), files[n - 1].path@, names(files[n - 1].includes@), files[i].path@);
    if i < n - 1 {
        lemma_graph_has_files(files, n - 1, i);
    }
}

/// A path with an entry in the graph is a path of the graph.
proof fn lemma_key_in_universe(adj: IncludeGraph, n: Seq<char>)
    requires
        assoc_get(adj, n) is Some,
    ensures
        universe(adj).contains(n),
{
    lemma_key_position(adj, n, 0);
    let i = key_position(adj, n, 0)->0;
    lemma_paths_upto(adj, adj.len() as int, i);
}

/// The description of the cycle that closes the search path `path`.
fn cycle_description(path: &Vec<String>) -> (d: String)
    requires
        path.len() > 0,
    ensures
        d@ == cycle_finding(names(path@)).0,
{
    let ghost p = names(path@);
    let n = path.len();
    let last = &path[n - 1];
    let mut start: usize = 0;
    while start < n && !str_eq(path[start].as_str(), last.as_str())
        invariant
            p == names(path@),
            n == path.len(),
            n > 0,
            last@ == p.last(),
            0 <= start <= n,
            first_index(p, p.last(), 0) == first_index(p, p.last(), start as int),
            forall|q: int| 0 <= q < start ==> p[q] != p.last(),
        decreases n - start,
    {
        start += 1;
    }
    proof {
        assert(p[n - 1] == p.last());
        assert(p[start as int] == p.last());
        assert(first_index(p, p.last(), 0) == start);
    }
    let mut d = String::new();
    d.append("Circular dependency detected: ");
    let ghost head = d@;
    let mut i: usize = start;
    while i < n
        invariant
            p == names(path@),
            n == path.len(),
            start < n,
            start <= i <= n,
            d@ == head + joined(p.subrange(start as int, i as int), " -> "@),
        decreases n - i,
    {
        proof {
            let s = p.subrange(start as int, i as int + 1);
            assert(s.drop_last() =~= p.subrange(start as int, i as int));
            assert(s.last() == path@[i as int]@);
        }
        if i > start {
            d.append(" -> ");
        }
        d.append(path[i].as_str());
        proof {
            let s = p.subrange(start as int, i as int + 1);
            if i == start {
                assert(p.subrange(start as int, i as int) =~= Seq::<Seq<char>>::empty());
                assert(d@ =~= head + joined(s, " -> "@));
            } else {
                assert(d@ =~= head + joined(s, " -> "@));
            }
        }
        i += 1;
    }
    d
}

/// Looks for circular includes among `files`: builds the include graph,
/// searches it depth first from each file in order that no earlier search
/// visited, and reports the first cycle met, the paths from the first
/// occurrence of the repeated path to its repetition joined by arrows.
pub fn circular_include_feedback(files: &Vec<FileEntry>) -> (r: Option<FeedbackEntry>)
    ensures
        match r {
            Some(e) => {
                &&& include_cycle_finding(files@) == Some(feedback_view(e))
                &&& e.action matches RefinementAction::RenameSymbol { old_name, .. } && old_name@
                    == Seq::<char>::empty()
            },
            None => include_cycle_finding(files@) is None,
        },
{
    let mut adj = string_lists_map_new();
    for k in 0..files.len()
        invariant
            string_lists_map_items(adj) == graph_of(files@, k as int),
    {
        let includes = files[k].includes.clone();
        proof {
            assert(names(includes@) =~= names(files@[k as int].includes@));
        }
        string_lists_map_insert(&mut adj, files[k].path.clone(), includes);
    }
    let ghost g = string_lists_map_items(adj);
    let ghost roots = file_paths(files@);
    proof {
        assert forall|i: int| 0 <= i < files.len() implies universe(g).contains(#[trigger] roots[i]) by {
            lemma_graph_has_files(files@, files.len() as int, i);
            lemma_key_in_universe(g, roots[i]);
        }
    }
    let mut visited: Vec<String> = Vec::new();
    let mut path: Vec<String> = Vec::new();
    proof {
        assert(names(visited@).to_set() =~= Set::<Seq<char>>::empty());
        assert(names(path@) =~= Seq::<Seq<char>>::empty());
    }
    for k in 0..files.len()
        invariant
            g == string_lists_map_items(adj),
            g == graph_of(files@, files@.len() as int),
            roots == file_paths(files@),
            forall|i: int| 0 <= i < files.len() ==> universe(g).contains(#[trigger] roots[i]),
            first_cycle(files@) == search_from(g, roots, k as int, names(visited@).to_set(), names(path@)),
            names(visited@).to_set().subset_of(universe(g)),
            names(path@) == Seq::<Seq<char>>::empty(),
    {
        let p = &files[k].path;
        proof {
            assert(roots[k as int] == p@);
        }
        if !contains_name(&visited, p) {
            proof {
                vstd::set_lib::lemma_len_subset(universe(g).difference(names(visited@).to_set()), universe(g));
            }
            let found = has_cycle(p, &adj, &mut visited, &mut path, Ghost(search_depth(g)));
            if found {
                if path.len() == 0 {
                    return None;
                }
                let description = cycle_description(&path);
                return Some(
                    FeedbackEntry {
                        description,
                        action: RefinementAction::RenameSymbol {
                            address: 0,
                            old_name: String::new(),
                            new_name: String::new(),
                        },
                    },
                );
            }
        }
    }
    None
}

/// Each path of `p` includes the next.
pub open spec fn is_walk(adj: IncludeGraph, p: Seq<Seq<char>>) -> bool {
    forall|i: int| 0 <= i < p.len() - 1 ==> #[trigger] neighbors(adj, p[i]).contains(p[i + 1])
}

/// A search path that a cycle closed: a walk of at least two paths whose
/// last path occurs before it.
pub open spec fn closed_walk(adj: IncludeGraph, p: Seq<Seq<char>>) -> bool {
    &&& is_walk(adj, p)
    &&& p.len() >= 2
    &&& p.drop_last().contains(p.last())
}

/// A search from `node`, entered along an include of the last path of a
/// walk, meets a cycle only by closing a walk, and otherwise leaves the
/// path as it found it.
proof fn lemma_visit(adj: IncludeGraph, node: Seq<char>, vis: Set<Seq<char>>, path: Seq<Seq<char>>, fuel: nat)
    requires
        is_walk(adj, path),
        path.len() > 0 ==> neighbors(adj, path.last()).contains(node),
    ensures
        visit(adj, node, vis, path, fuel).0 ==> closed_walk(adj, visit(adj, node, vis, path, fuel).2),
        !visit(adj, node, vis, path, fuel).0 ==> visit(adj, node, vis, path, fuel).2 == path,
    decreases fuel, 0int, 0int,
{
    if fuel > 0 {
        let q = path.push(node);
        assert(is_walk(adj, q)) by {
            assert forall|i: int| 0 <= i < q.len() - 1 implies #[trigger] neighbors(adj, q[i]).contains(q[i + 1]) by {
                if i < path.len() - 1 {
                    assert(neighbors(adj, path[i]).contains(path[i + 1]));
                }
            }
        }
        lemma_visit_from(adj, neighbors(adj, node), 0, vis.insert(node), q, (fuel - 1) as nat);
        assert(q.drop_last() =~= path);
    }
}

/// The search through the includes of the last path of a walk, from the
/// `j`-th on, meets a cycle only by closing a walk, and otherwise leaves
/// the path as it found it.
proof fn lemma_visit_from(
    adj: IncludeGraph,
    nbrs: Seq<Seq<char>>,
    j: int,
    vis: Set<Seq<char>>,
    path: Seq<Seq<char>>,
    fuel: nat,
)
    requires
        is_walk(adj, path),
        path.len() > 0,
        nbrs == neighbors(adj, path.last()),
    ensures
        visit_from(adj, nbrs, j, vis, path, fuel).0 ==> closed_walk(adj, visit_from(adj, nbrs, j, vis, path, fuel).2),
        !visit_from(adj, nbrs, j, vis, path, fuel).0 ==> visit_from(adj, nbrs, j, vis, path, fuel).2 == path,
    decreases fuel, 1int, nbrs.len() - j,
{
    if 0 <= j < nbrs.len() {
        let nb = nbrs[j];
        if !vis.contains(nb) {
            lemma_visit(adj, nb, vis, path, fuel);
            let r = visit(adj, nb, vis, path, fuel);
            if !r.0 {
                lemma_visit_from(adj, nbrs, j + 1, r.1, r.2, fuel);
            }
        } else if path.contains(nb) {
            let q = path.push(nb);
            assert forall|i: int| 0 <= i < q.len() - 1 implies #[trigger] neighbors(adj, q[i]).contains(q[i + 1]) by {
                if i < path.len() - 1 {
                    assert(neighbors(adj, path[i]).contains(path[i + 1]));
                } else {
                    assert(nbrs[j] == nb);
                }
            }
            assert(q.drop_last() =~= path);
        } else {
            lemma_visit_from(adj, nbrs, j + 1, vis, path, fuel);
        }
    }
}

/// A search from the roots with an empty path finds only closed walks.
proof fn lemma_search_from(adj: IncludeGraph, roots: Seq<Seq<char>>, k: int, vis: Set<Seq<char>>)
    ensures
        search_from(adj, roots, k, vis, Seq::empty()) matches Some(p) ==> closed_walk(adj, p),
    decreases roots.len() - k,
{
    if 0 <= k < roots.len() {
        if vis.contains(roots[k]) {
            lemma_search_from(adj, roots, k + 1, vis);
        } else {
            lemma_visit(adj, roots[k], vis, Seq::empty(), search_depth(adj));
            let r = visit(adj, roots[k], vis, Seq::empty(), search_depth(adj));
            if !r.0 {
                lemma_search_from(adj, roots, k + 1, r.1);
            }
        }
    }
}

/// The first occurrence of `x` from `i` on is one, and comes no later
/// than any other.
proof fn lemma_first_index(p: Seq<Seq<char>>, x: Seq<char>, i: int, q: int)
    requires
        0 <= i <= q < p.len(),
        p[q] == x,
    ensures
        i <= first_index(p, x, i) <= q,
        p[first_index(p, x, i)] == x,
    decreases q - i,
{
    if p[i] != x {
        lemma_first_index(p, x, i + 1, q);
    }
}

/// A reported cycle is a cycle of the include graph: at least two paths,
/// the first and the last the same, and each path includes the next.
pub proof fn law_reported_cycle_is_cycle(files: Seq<FileEntry>)
    requires
        first_cycle(files) is Some,
    ensures
        ({
            let c = cycle_segment(first_cycle(files)->0);
            let adj = graph_of(files, files.len() as int);
            &&& c.len() >= 2
            &&& c[0] == c.last()
            &&& forall|i: int| 0 <= i < c.len() - 1 ==> #[trigger] neighbors(adj, c[i]).contains(c[i + 1])
        }),
{
    let adj = graph_of(files, files.len() as int);
    lemma_search_from(adj, file_paths(files), 0, Set::empty());
    let p = first_cycle(files)->0;
    let q = choose|q: int| 0 <= q < p.drop_last().len() && p.drop_last()[q] == p.last();
    assert(p[q] == p.last());
    lemma_first_index(p, p.last(), 0, q);
    let f = first_index(p, p.last(), 0);
    let c = cycle_segment(p);
    assert forall|i: int| 0 <= i < c.len() - 1 implies #[trigger] neighbors(adj, c[i]).contains(c[i + 1]) by {
        assert(c[i] == p[f + i]);
        assert(c[i + 1] == p[f + i + 1]);
        assert(neighbors(adj, p[f + i]).contains(p[f + i + 1]));
    }
}

} // verus!
