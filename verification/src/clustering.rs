//! Module clustering: grouping functions into modules by call cohesion with
//! label propagation over the call graph, then tagging each module with
//! the subsystem its function names suggest.

use vstd::prelude::*;
use crate::discovery::{
    first_occurrences, lemma_filter_map_push, lemma_first_occurrences, GlobalXrefKind, SdbGlobalXref,
};
use crate::text::{
    chars_contain_text, contains_text, hex_upper_padded, lowercase_of, push_hex_upper_padded, to_chars, to_lowercase,
};

verus! {

/// What clustering reads of one function of the semantic database.
#[derive(Debug, Clone)]
pub struct FunctionInfo {
    pub address: u64,
    pub name: Option<String>,
}

/// A module recovered by clustering.
#[derive(Debug)]
pub struct ModuleRecord {
    pub id: u64,
    pub name: String,
    /// The subsystem the module's function names suggest, if any.
    pub subsystem_tag: Option<String>,
    /// The module's functions, in ascending address order.
    pub functions: Vec<u64>,
}

/// The number of label-propagation rounds after which clustering stops
/// even if labels still move.
pub const MAX_ROUNDS: u64 = 10;

/// Sorts `v` into ascending order by insertion.
fn sort_u64(v: &mut Vec<u64>)
    ensures
        ascending(final(v)@),
        final(v)@.to_multiset() == old(v)@.to_multiset(),
{
    let ghost src = v@;
    let mut out: Vec<u64> = Vec::new();
    let mut i: usize = 0;
    proof {
        assert(src.take(0) =~= Seq::<u64>::empty());
    }
    while i < v.len()
        invariant
            src == v@,
            i <= src.len(),
            ascending(out@),
            out@.to_multiset() == src.take(i as int).to_multiset(),
        decreases src.len() - i,
    {
        let x = v[i];
        let mut j: usize = 0;
        while j < out.len() && out[j] <= x
            invariant
                j <= out@.len(),
                forall|k: int| 0 <= k < j ==> out@[k] <= x,
            decreases out@.len() - j,
        {
            j = j + 1;
        }
        let ghost o0 = out@;
        out.insert(j, x);
        proof {
            vstd::seq_lib::to_multiset_insert(o0, j as int, x);
            assert(src.take(i + 1) =~= src.take(i as int).push(x));
            vstd::seq_lib::to_multiset_build(src.take(i as int), x);
            assert forall|a: int, b: int| 0 <= a <= b < out@.len() implies out@[a] <= out@[b] by {
                if a < j && b < j {
                    assert(out@[a] == o0[a] && out@[b] == o0[b]);
                } else if a < j && b == j {
                } else if a < j {
                    assert(o0[b - 1] >= o0[j as int]);
                } else if a == j && b > j {
                    assert(out@[b] == o0[b - 1]);
                    assert(o0[b - 1] >= o0[j as int]);
                } else if a > j {
                    assert(out@[a] == o0[a - 1] && out@[b] == o0[b - 1]);
                }
            };
        }
        i = i + 1;
    }
    proof {
        assert(src.take(src.len() as int) =~= src);
    }
    *v = out;
}

/// `s` is in ascending order.
pub open spec fn ascending(s: Seq<u64>) -> bool {
    forall|i: int, j: int| 0 <= i <= j < s.len() ==> s[i] <= s[j]
}

/// The call edges among `xrefs`, as (caller, callee) pairs, in order.
pub open spec fn call_edges(xrefs: Seq<SdbGlobalXref>) -> Seq<(u64, u64)> {
    xrefs.filter_map(
        |x: SdbGlobalXref|
            if x.kind == GlobalXrefKind::Call {
                Some((x.from_address, x.to_address))
            } else {
                None
            },
    )
}

/// The neighbours of `node` in the undirected call graph, one per edge end,
/// in edge order (a self-call lists `node` twice).
pub open spec fn neighbors(edges: Seq<(u64, u64)>, node: u64) -> Seq<u64>
    decreases edges.len(),
{
    if edges.len() == 0 {
        Seq::empty()
    } else {
        let e = edges.last();
        neighbors(edges.drop_last(), node) + (if e.0 == node {
            seq![e.1]
        } else {
            Seq::empty()
        }) + (if e.1 == node {
            seq![e.0]
        } else {
            Seq::empty()
        })
    }
}

/// The neighbourhood is that of the undirected call graph: `y` is a
/// neighbour of `x` exactly when some call edge joins them, in either
/// direction; so every callee is a neighbour of its caller and every caller
/// of its callee.
pub proof fn law_neighbors_are_undirected(edges: Seq<(u64, u64)>, x: u64, y: u64)
    ensures
        neighbors(edges, x).contains(y) <==> exists|i: int|
            0 <= i < edges.len() && (#[trigger] edges[i] == (x, y) || edges[i] == (y, x)),
        neighbors(edges, x).contains(y) <==> neighbors(edges, y).contains(x),
    decreases edges.len(),
{
    if edges.len() > 0 {
        let p = edges.drop_last();
        let e = edges.last();
        law_neighbors_are_undirected(p, x, y);
        law_neighbors_are_undirected(p, y, x);
        lemma_neighbors_step(edges, x, y);
        lemma_neighbors_step(edges, y, x);
        if exists|i: int| 0 <= i < edges.len() && (#[trigger] edges[i] == (x, y) || edges[i] == (y, x)) {
            let i = choose|i: int| 0 <= i < edges.len() && (#[trigger] edges[i] == (x, y) || edges[i] == (y, x));
            if i < p.len() {
                assert(p[i] == edges[i]);
            }
        }
        if exists|i: int| 0 <= i < p.len() && (#[trigger] p[i] == (x, y) || p[i] == (y, x)) {
            let i = choose|i: int| 0 <= i < p.len() && (#[trigger] p[i] == (x, y) || p[i] == (y, x));
            assert(edges[i] == p[i]);
        }
        if e == (x, y) || e == (y, x) {
            assert(edges[edges.len() - 1] == e);
        }
    }
}

/// `y` is a neighbour of `x` over `edges` exactly when it is one over all
/// edges but the last, or the last edge joins them.
proof fn lemma_neighbors_step(edges: Seq<(u64, u64)>, x: u64, y: u64)
    requires
        edges.len() > 0,
    ensures
        neighbors(edges, x).contains(y) <==> (neighbors(edges.drop_last(), x).contains(y) || edges.last() == (x, y)
            || edges.last() == (y, x)),
{
    let p = neighbors(edges.drop_last(), x);
    let e = edges.last();
    let a = if e.0 == x { seq![e.1] } else { Seq::<u64>::empty() };
    let b = if e.1 == x { seq![e.0] } else { Seq::<u64>::empty() };
    let n = p + a + b;
    assert(neighbors(edges, x) == n);
    if n.contains(y) {
        let k = choose|k: int| 0 <= k < n.len() && n[k] == y;
        if k < p.len() {
            assert(p[k] == y);
        } else if k < p.len() + a.len() {
            assert(a[k - p.len()] == y);
        } else {
            assert(b[k - p.len() - a.len()] == y);
        }
    }
    if p.contains(y) {
        let k = choose|k: int| 0 <= k < p.len() && p[k] == y;
        assert(n[k] == y);
    }
    if e == (x, y) {
        assert(n[p.len() as int] == y);
    } else if e == (y, x) {
        assert(n[(p.len() + a.len()) as int] == y);
    }
}

/// The community of `a`, for a function of `addrs`.
pub open spec fn community_of(addrs: Seq<u64>, comms: Seq<u64>, a: u64) -> Option<u64> {
    if addrs.contains(a) {
        Some(comms[addrs.index_of(a)])
    } else {
        None
    }
}

/// The communities of the neighbours of `node` that are functions.
pub open spec fn neighbor_communities(
    addrs: Seq<u64>,
    comms: Seq<u64>,
    edges: Seq<(u64, u64)>,
    node: u64,
) -> Seq<u64> {
    neighbors(edges, node).filter_map(|nb: u64| community_of(addrs, comms, nb))
}

/// How often `c` occurs in `s`.
pub open spec fn count_of(s: Seq<u64>, c: u64) -> nat
    decreases s.len(),
{
    if s.len() == 0 {
        0
    } else {
        count_of(s.drop_last(), c) + if s.last() == c {
            1nat
        } else {
            0nat
        }
    }
}

/// The most frequent of the first `k` distinct items of `s` (in order of
/// first occurrence) with its count; the later one on a tie.
pub open spec fn most_frequent_upto(s: Seq<u64>, k: int) -> Option<(u64, nat)>
    decreases k,
{
    if k <= 0 {
        None
    } else {
        let c = first_occurrences(s)[k - 1];
        let n = count_of(s, c);
        match most_frequent_upto(s, k - 1) {
            Some((b, m)) => if n >= m {
                Some((c, n))
            } else {
                Some((b, m))
            },
            None => Some((c, n)),
        }
    }
}

/// The most frequent item of `s`, the last to appear first among equals.
pub open spec fn most_frequent(s: Seq<u64>) -> Option<u64> {
    match most_frequent_upto(s, first_occurrences(s).len() as int) {
        Some((c, _)) => Some(c),
        None => None,
    }
}

/// The index of `a` in `addrs`, if it occurs.
fn find_index(addrs: &Vec<u64>, a: u64) -> (r: Option<usize>)
    requires
        addrs@.no_duplicates(),
    ensures
        match r {
            Some(i) => i < addrs@.len() && addrs@[i as int] == a && addrs@.contains(a) && i
                == addrs@.index_of(a),
            None => !addrs@.contains(a),
        },
{
    let mut i: usize = 0;
    while i < addrs.len()
        invariant
            addrs@.no_duplicates(),
            i <= addrs@.len(),
            forall|k: int| 0 <= k < i ==> addrs@[k] != a,
        decreases addrs@.len() - i,
    {
        if addrs[i] == a {
            proof {
                assert(addrs@.contains(a));
                let j = addrs@.index_of(a);
                assert(addrs@[j] == a);
                if j != i as int {
                    assert(addrs@[j] != addrs@[i as int]);
                }
            }
            return Some(i);
        }
        i += 1;
    }
    None
}

/// The community of `a`, for a function of `addrs`.
fn community_of_exec(addrs: &Vec<u64>, comms: &Vec<u64>, a: u64) -> (r: Option<u64>)
    requires
        addrs@.no_duplicates(),
        comms@.len() == addrs@.len(),
    ensures
        r == community_of(addrs@, comms@, a),
{
    match find_index(addrs, a) {
        Some(i) => Some(comms[i]),
        None => None,
    }
}

/// The communities of the neighbours of `node` that are functions.
fn neighbor_communities_exec(
    addrs: &Vec<u64>,
    comms: &Vec<u64>,
    edges: &Vec<(u64, u64)>,
    node: u64,
) -> (r: Vec<u64>)
    requires
        addrs@.no_duplicates(),
        comms@.len() == addrs@.len(),
    ensures
        r@ == neighbor_communities(addrs@, comms@, edges@, node),
{
    let ghost f = |nb: u64| community_of(addrs@, comms@, nb);
    let mut r: Vec<u64> = Vec::new();
    let mut k: usize = 0;
    while k < edges.len()
        invariant
            addrs@.no_duplicates(),
            comms@.len() == addrs@.len(),
            f == (|nb: u64| community_of(addrs@, comms@, nb)),
            k <= edges@.len(),
            r@ == neighbors(edges@.take(k as int), node).filter_map(f),
        decreases edges@.len() - k,
    {
        let (a, b) = edges[k];
        let ghost p = neighbors(edges@.take(k as int), node);
        proof {
            assert(edges@.take(k + 1).drop_last() == edges@.take(k as int));
            assert(edges@.take(k + 1).last() == (a, b));
        }
        let ghost mid = if a == node { p.push(b) } else { p };
        if a == node {
            proof {
                lemma_filter_map_push(p, b, f);
            }
            if let Some(c) = community_of_exec(addrs, comms, b) {
                r.push(c);
            }
        }
        proof {
            assert(p + (if a == node { seq![b] } else { Seq::<u64>::empty() }) == mid);
        }
        if b == node {
            proof {
                lemma_filter_map_push(mid, a, f);
            }
            if let Some(c) = community_of_exec(addrs, comms, a) {
                r.push(c);
            }
        }
        proof {
            assert(mid + (if b == node { seq![a] } else { Seq::<u64>::empty() }) == (if b == node {
                mid.push(a)
            } else {
                mid
            }));
        }
        k += 1;
    }
    proof {
        assert(edges@.take(edges@.len() as int) == edges@);
    }
    r
}

/// An item occurs in a sequence at most as often as it is long, and not
/// at all when absent.
proof fn lemma_count_of(s: Seq<u64>, c: u64)
    ensures
        count_of(s, c) <= s.len(),
        !s.contains(c) ==> count_of(s, c) == 0,
    decreases s.len(),
{
    broadcast use vstd::seq_lib::group_seq_properties;

    if s.len() > 0 {
        lemma_count_of(s.drop_last(), c);
        assert(s == s.drop_last().push(s.last()));
    }
}

/// The most frequent item of `s`, the last to appear first among equals.
fn most_frequent_exec(s: &Vec<u64>) -> (r: Option<u64>)
    ensures
        r == most_frequent(s@),
{
    let mut keys: Vec<u64> = Vec::new();
    let mut counts: Vec<usize> = Vec::new();
    let mut i: usize = 0;
    while i < s.len()
        invariant
            i <= s@.len(),
            keys@ == first_occurrences(s@.take(i as int)),
            counts@.len() == keys@.len(),
            forall|j: int| 0 <= j < keys@.len() ==> #[trigger] counts@[j] == count_of(s@.take(i as int), keys@[j]),
        decreases s@.len() - i,
    {
        let x = s[i];
        let ghost t = s@.take(i as int);
        let ghost t1 = s@.take(i + 1);
        proof {
            assert(t1.drop_last() == t);
            assert(t1.last() == x);
            lemma_first_occurrences(t);
            assert forall|c: u64| #[trigger] count_of(t1, c) == count_of(t, c) + (if x == c { 1nat } else { 0nat }) by {
            };
        }
        match find_index(&keys, x) {
            Some(j) => {
                proof {
                    lemma_count_of(t, x);
                }
                let n = counts[j] + 1;
                counts.set(j, n);
                proof {
                    assert forall|q: int| 0 <= q < keys@.len() implies #[trigger] counts@[q] == count_of(t1, keys@[q]) by {
                        if q != j as int {
                            assert(keys@[q] != keys@[j as int]);
                        }
                    };
                }
            },
            None => {
                proof {
                    lemma_count_of(t, x);
                    assert(!t.contains(x));
                }
                keys.push(x);
                counts.push(1);
                proof {
                    assert forall|q: int| 0 <= q < keys@.len() implies #[trigger] counts@[q] == count_of(t1, keys@[q]) by {
                        if q < keys@.len() - 1 {
                            assert(keys@[q] != x) by {
                                assert(first_occurrences(t).contains(keys@[q]));
                            };
                        }
                    };
                }
            },
        }
        i += 1;
    }
    proof {
        assert(s@.take(s@.len() as int) == s@);
    }
    let mut best: Option<(u64, usize)> = None;
    let mut j: usize = 0;
    while j < keys.len()
        invariant
            keys@ == first_occurrences(s@),
            counts@.len() == keys@.len(),
            forall|q: int| 0 <= q < keys@.len() ==> #[trigger] counts@[q] == count_of(s@, keys@[q]),
            j <= keys@.len(),
            match best {
                Some((b, m)) => most_frequent_upto(s@, j as int) == Some((b, m as nat)),
                None => most_frequent_upto(s@, j as int) is None,
            },
        decreases keys@.len() - j,
    {
        let c = keys[j];
        let n = counts[j];
        match best {
            Some((b, m)) => {
                if n >= m {
                    best = Some((c, n));
                }
            },
            None => {
                best = Some((c, n));
            },
        }
        j += 1;
    }
    match best {
        Some((b, _)) => Some(b),
        None => None,
    }
}

/// Relabels the node at index `k` with the most frequent community among
/// its neighbours, reporting whether its label moved.
pub open spec fn relabel(addrs: Seq<u64>, comms: Seq<u64>, edges: Seq<(u64, u64)>, k: int) -> (
    Seq<u64>,
    bool,
) {
    match most_frequent(neighbor_communities(addrs, comms, edges, addrs[k])) {
        Some(b) => if b != comms[k] {
            (comms.update(k, b), true)
        } else {
            (comms, false)
        },
        None => (comms, false),
    }
}

/// The labels after a round has relabelled the first `k` nodes in turn,
/// and whether any label moved.
pub open spec fn round_upto(addrs: Seq<u64>, comms: Seq<u64>, edges: Seq<(u64, u64)>, k: int) -> (
    Seq<u64>,
    bool,
)
    decreases k,
{
    if k <= 0 {
        (comms, false)
    } else {
        let (c, moved) = round_upto(addrs, comms, edges, k - 1);
        let (c2, m2) = relabel(addrs, c, edges, k - 1);
        (c2, moved || m2)
    }
}

/// Rounds of relabelling, at most `rounds` of them, until one moves no
/// label.
pub open spec fn propagate(addrs: Seq<u64>, comms: Seq<u64>, edges: Seq<(u64, u64)>, rounds: nat) -> Seq<
    u64,
>
    decreases rounds,
{
    if rounds == 0 {
        comms
    } else {
        let (c, moved) = round_upto(addrs, comms, edges, addrs.len() as int);
        if moved {
            propagate(addrs, c, edges, (rounds - 1) as nat)
        } else {
            c
        }
    }
}

/// The community of each function, by index: every function starts in its
/// own community, and labels propagate when there is a call edge.
pub open spec fn communities(addrs: Seq<u64>, edges: Seq<(u64, u64)>) -> Seq<u64> {
    if edges.len() > 0 {
        propagate(addrs, addrs, edges, MAX_ROUNDS as nat)
    } else {
        addrs
    }
}

/// Label propagation over the call graph.
fn propagate_labels(addrs: &Vec<u64>, edges: &Vec<(u64, u64)>) -> (comms: Vec<u64>)
    requires
        addrs@.no_duplicates(),
    ensures
        comms@ == communities(addrs@, edges@),
        comms@.len() == addrs@.len(),
{
    let mut comms: Vec<u64> = Vec::new();
    for i in 0..addrs.len()
        invariant
            comms@ == addrs@.take(i as int),
    {
        comms.push(addrs[i]);
        assert(addrs@.take(i + 1) == addrs@.take(i as int).push(addrs@[i as int]));
    }
    assert(addrs@.take(addrs@.len() as int) == addrs@);
    if edges.len() == 0 {
        return comms;
    }
    let mut improved = true;
    let mut iter: u64 = 0;
    while improved && iter < MAX_ROUNDS
        invariant
            addrs@.no_duplicates(),
            edges@.len() > 0,
            comms@.len() == addrs@.len(),
            iter <= MAX_ROUNDS,
            communities(addrs@, edges@) == (if improved {
                propagate(addrs@, comms@, edges@, (MAX_ROUNDS - iter) as nat)
            } else {
                comms@
            }),
        decreases MAX_ROUNDS - iter,
    {
        let ghost start = comms@;
        improved = false;
        iter += 1;
        let mut k: usize = 0;
        while k < addrs.len()
            invariant
                addrs@.no_duplicates(),
                comms@.len() == addrs@.len(),
                k <= addrs@.len(),
                (comms@, improved) == round_upto(addrs@, start, edges@, k as int),
            decreases addrs@.len() - k,
        {
            let nc = neighbor_communities_exec(addrs, &comms, edges, addrs[k]);
            match most_frequent_exec(&nc) {
                Some(b) => {
                    if b != comms[k] {
                        comms.set(k, b);
                        improved = true;
                    }
                },
                None => {},
            }
            k += 1;
        }
    }
    comms
}

/// The functions of `addrs` among the first `k` whose community is `c`, in
/// order.
pub open spec fn members_upto(addrs: Seq<u64>, comms: Seq<u64>, c: u64, k: int) -> Seq<u64>
    decreases k,
{
    if k <= 0 {
        Seq::empty()
    } else {
        members_upto(addrs, comms, c, k - 1) + (if comms[k - 1] == c {
            seq![addrs[k - 1]]
        } else {
            Seq::empty()
        })
    }
}

/// The addresses of `infos`, in order.
pub open spec fn info_addresses(infos: Seq<FunctionInfo>) -> Seq<u64> {
    infos.map_values(|f: FunctionInfo| f.address)
}

/// The name recorded for the function at `a`, if any.
pub open spec fn name_of(infos: Seq<FunctionInfo>, a: u64) -> Option<Seq<char>> {
    let addrs = info_addresses(infos);
    if addrs.contains(a) {
        match infos[addrs.index_of(a)].name {
            Some(n) => Some(n@),
            None => None,
        }
    } else {
        None
    }
}

/// The subsystem a lower-cased function name suggests.
pub open spec fn keyword_tag(lower: Seq<char>) -> Option<Seq<char>> {
    if contains_text(lower, "render"@) || contains_text(lower, "draw"@) || contains_text(lower, "d3d"@)
        || contains_text(lower, "gl"@) {
        Some("Renderer"@)
    } else if contains_text(lower, "audio"@) || contains_text(lower, "sound"@) {
        Some("Audio"@)
    } else if contains_text(lower, "phys"@) || contains_text(lower, "collide"@) {
        Some("Physics"@)
    } else {
        None
    }
}

/// The subsystem suggested by the first named function from index `k` of
/// `funcs` whose name suggests one.
pub open spec fn module_tag(infos: Seq<FunctionInfo>, funcs: Seq<u64>, k: int) -> Option<Seq<char>>
    decreases funcs.len() - k,
{
    if k < 0 || k >= funcs.len() {
        None
    } else {
        match name_of(infos, funcs[k]) {
            Some(n) => match keyword_tag(lowercase_of(n)) {
                Some(t) => Some(t),
                None => module_tag(infos, funcs, k + 1),
            },
            None => module_tag(infos, funcs, k + 1),
        }
    }
}

/// `m` is module number `g` (from zero) of the clustering with labels
/// `comms` of the functions `infos`.
pub open spec fn module_matches(m: ModuleRecord, g: int, infos: Seq<FunctionInfo>, comms: Seq<u64>) -> bool {
    let addrs = info_addresses(infos);
    let c = first_occurrences(comms)[g];
    &&& m.id == g + 1
    &&& ascending(m.functions@)
    &&& m.functions@.to_multiset() == members_upto(addrs, comms, c, addrs.len() as int).to_multiset()
    &&& match module_tag(infos, m.functions@, 0) {
        Some(t) => m.subsystem_tag matches Some(s) && s@ == t && m.name@ == t,
        None => m.subsystem_tag is None && m.name@ == "Module_"@ + hex_upper_padded(
            (g + 1) as nat,
            4,
        ),
    }
}

/// The items of `s` at their first occurrence, in order.
fn first_occurrences_exec(s: &Vec<u64>) -> (r: Vec<u64>)
    ensures
        r@ == first_occurrences(s@),
{
    let mut r: Vec<u64> = Vec::new();
    for i in 0..s.len()
        invariant
            r@ == first_occurrences(s@.take(i as int)),
    {
        proof {
            lemma_first_occurrences(s@.take(i as int));
            assert(s@.take(i + 1).drop_last() == s@.take(i as int));
            assert(s@.take(i + 1).last() == s@[i as int]);
        }
        if find_index(&r, s[i]).is_none() {
            r.push(s[i]);
        }
    }
    assert(s@.take(s@.len() as int) == s@);
    r
}

/// The functions whose community is `c`, in order.
fn members_exec(addrs: &Vec<u64>, comms: &Vec<u64>, c: u64) -> (r: Vec<u64>)
    requires
        comms@.len() == addrs@.len(),
    ensures
        r@ == members_upto(addrs@, comms@, c, addrs@.len() as int),
{
    let mut r: Vec<u64> = Vec::new();
    for k in 0..addrs.len()
        invariant
            comms@.len() == addrs@.len(),
            r@ == members_upto(addrs@, comms@, c, k as int),
    {
        if comms[k] == c {
            r.push(addrs[k]);
        }
        proof {
            let p = members_upto(addrs@, comms@, c, k as int);
            assert(p + Seq::<u64>::empty() == p);
            assert(p + seq![addrs@[k as int]] == p.push(addrs@[k as int]));
        }
    }
    r
}

/// The name recorded for the function at `a`, if any.
fn name_of_exec(infos: &[FunctionInfo], a: u64) -> (r: Option<&String>)
    requires
        info_addresses(infos@).no_duplicates(),
    ensures
        match r {
            Some(n) => name_of(infos@, a) == Some(n@),
            None => name_of(infos@, a) is None,
        },
{
    let ghost addrs = info_addresses(infos@);
    let mut i: usize = 0;
    while i < infos.len()
        invariant
            addrs == info_addresses(infos@),
            addrs.no_duplicates(),
            i <= infos@.len(),
            forall|k: int| 0 <= k < i ==> addrs[k] != a,
        decreases infos@.len() - i,
    {
        if infos[i].address == a {
            proof {
                assert(addrs[i as int] == a);
                assert(addrs.contains(a));
                let j = addrs.index_of(a);
                if j != i as int {
                    assert(addrs[j] != addrs[i as int]);
                }
            }
            return match &infos[i].name {
                Some(n) => Some(n),
                None => None,
            };
        }
        i += 1;
    }
    proof {
        if addrs.contains(a) {
            let j = addrs.index_of(a);
            assert(addrs[j] == a);
        }
    }
    None
}

/// The subsystem a lower-cased function name suggests.
fn keyword_tag_exec(lower: &Vec<char>) -> (r: Option<&'static str>)
    ensures
        match r {
            Some(t) => keyword_tag(lower@) == Some(t@),
            None => keyword_tag(lower@) is None,
        },
{
    if chars_contain_text(lower, "render") || chars_contain_text(lower, "draw") || chars_contain_text(
        lower,
        "d3d",
    ) || chars_contain_text(lower, "gl") {
        Some("Renderer")
    } else if chars_contain_text(lower, "audio") || chars_contain_text(lower, "sound") {
        Some("Audio")
    } else if chars_contain_text(lower, "phys") || chars_contain_text(lower, "collide") {
        Some("Physics")
    } else {
        None
    }
}

/// The subsystem suggested by the first named function of `funcs` whose
/// name suggests one.
fn module_tag_exec(infos: &[FunctionInfo], funcs: &Vec<u64>) -> (r: Option<&'static str>)
    requires
        info_addresses(infos@).no_duplicates(),
    ensures
        match r {
            Some(t) => module_tag(infos@, funcs@, 0) == Some(t@),
            None => module_tag(infos@, funcs@, 0) is None,
        },
{
    let mut k: usize = 0;
    while k < funcs.len()
        invariant
            info_addresses(infos@).no_duplicates(),
            k <= funcs@.len(),
            module_tag(infos@, funcs@, 0) == module_tag(infos@, funcs@, k as int),
        decreases funcs@.len() - k,
    {
        if let Some(name) = name_of_exec(infos, funcs[k]) {
            let lower = to_lowercase(name.as_str());
            let lower_chars = to_chars(lower.as_str());
            if let Some(t) = keyword_tag_exec(&lower_chars) {
                return Some(t);
            }
        }
        k += 1;
    }
    None
}

/// Clusters functions into modules by call cohesion: every function starts
/// in its own community; while labels move, for at most ten rounds, each
/// function in turn takes the most frequent community among its call-graph
/// neighbours (the later one on a tie). Each community becomes a module,
/// numbered from one in order of first appearance, holding its functions in
/// ascending order and named after the subsystem that the first suggestive
/// function name points to, or `Module_NNNN` after its number.
pub fn cluster_modules(functions: &[FunctionInfo], xrefs: &[SdbGlobalXref]) -> (out: Vec<ModuleRecord>)
    requires
        info_addresses(functions@).no_duplicates(),
    ensures
        ({
            let comms = communities(info_addresses(functions@), call_edges(xrefs@));
            &&& out@.len() == first_occurrences(comms).len()
            &&& forall|g: int| 0 <= g < out@.len() ==> module_matches(#[trigger] out@[g], g, functions@, comms)
        }),
{
    let ghost infos = functions@;
    let mut addrs: Vec<u64> = Vec::new();
    for i in 0..functions.len()
        invariant
            infos == functions@,
            addrs@ == info_addresses(infos.take(i as int)),
    {
        addrs.push(functions[i].address);
        assert(info_addresses(infos.take(i + 1)) == info_addresses(infos.take(i as int)).push(
            infos[i as int].address,
        ));
    }
    assert(infos.take(infos.len() as int) == infos);
    let ghost call_fn = |x: SdbGlobalXref|
        if x.kind == GlobalXrefKind::Call {
            Some((x.from_address, x.to_address))
        } else {
            None
        };
    let mut edges: Vec<(u64, u64)> = Vec::new();
    for i in 0..xrefs.len()
        invariant
            call_fn == (|x: SdbGlobalXref|
                if x.kind == GlobalXrefKind::Call {
                    Some((x.from_address, x.to_address))
                } else {
                    None
                }),
            edges@ == xrefs@.take(i as int).filter_map(call_fn),
    {
        proof {
            assert(xrefs@.take(i + 1) == xrefs@.take(i as int).push(xrefs@[i as int]));
            lemma_filter_map_push(xrefs@.take(i as int), xrefs@[i as int], call_fn);
        }
        let x = xrefs[i];
        if x.kind == GlobalXrefKind::Call {
            edges.push((x.from_address, x.to_address));
        }
    }
    assert(xrefs@.take(xrefs@.len() as int) == xrefs@);
    let comms = propagate_labels(&addrs, &edges);
    let keys = first_occurrences_exec(&comms);
    let mut out: Vec<ModuleRecord> = Vec::new();
    let mut g: usize = 0;
    while g < keys.len()
        invariant
            info_addresses(infos).no_duplicates(),
            infos == functions@,
            addrs@ == info_addresses(infos),
            comms@ == communities(addrs@, edges@),
            comms@.len() == addrs@.len(),
            keys@ == first_occurrences(comms@),
            g <= keys@.len(),
            out@.len() == g,
            forall|q: int| 0 <= q < g ==> module_matches(#[trigger] out@[q], q, infos, comms@),
        decreases keys@.len() - g,
    {
        let mut funcs = members_exec(&addrs, &comms, keys[g]);
        sort_u64(&mut funcs);
        let id = g as u64 + 1;
        let tag = module_tag_exec(functions, &funcs);
        let m = match tag {
            Some(t) => {
                let mut name = String::new();
                name.append(t);
                let mut tag_text = String::new();
                tag_text.append(t);
                ModuleRecord { id, name, subsystem_tag: Some(tag_text), functions: funcs }
            },
            None => {
                let mut name = String::new();
                name.append("Module_");
                push_hex_upper_padded(&mut name, id, 4);
                ModuleRecord { id, name, subsystem_tag: None, functions: funcs }
            },
        };
        out.push(m);
        g += 1;
    }
    out
}

} // verus!
