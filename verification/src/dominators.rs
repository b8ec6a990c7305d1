//! Dominance: which blocks of a control-flow graph dominate which, the
//! marking of back edges, and the finger intersection of Cooper, Harvey and
//! Kennedy's "A Simple, Fast Dominance Algorithm" over an
//! immediate-dominator array indexed by post-order number.

use crate::cfg::{
    BasicBlock,
    BlockId,
    CfgEdge,
    ControlFlowGraph,
    EdgeKind,
    has_edge,
    walk_step,
    is_walk,
    is_entry_path,
    reachable,
    every_path_passes,
    dominates_in,
};
use vstd::prelude::*;

verus! {

/// `node` lies on the immediate-dominator chain that starts at `from`:
/// it is `from`, or it lies on the chain of `from`'s immediate dominator.
/// Links that do not lead to a strictly higher post-order number end the
/// chain.
pub open spec fn on_idom_chain(idom: Seq<Option<usize>>, from: int, node: int) -> bool
    decreases idom.len() - from,
{
    if !(0 <= from < idom.len()) {
        false
    } else if from == node {
        true
    } else {
        match idom[from] {
            Some(d) => if from < d < idom.len() {
                on_idom_chain(idom, d as int, node)
            } else {
                false
            },
            None => false,
        }
    }
}

/// Every assigned link of the array climbs in post-order numbering: a
/// node other than the last (the entry) points to a strictly higher index,
/// and the entry, where assigned, to itself.
pub open spec fn idom_links_up(idom: Seq<Option<usize>>) -> bool {
    forall|k: int|
        #![trigger idom[k]]
        0 <= k < idom.len() && idom[k] is Some ==> {
            let d = idom[k]->0 as int;
            if k < idom.len() - 1 {
                k < d < idom.len()
            } else {
                d == k
            }
        }
}

/// Every node on the immediate-dominator chain from `x` is assigned.
pub open spec fn chain_assigned(idom: Seq<Option<usize>>, x: int) -> bool {
    forall|c: int| #[trigger] on_idom_chain(idom, x, c) ==> idom[c] is Some
}

/// The chain only climbs: every node on it is at least its start.
proof fn lemma_chain_above(idom: Seq<Option<usize>>, from: int, node: int)
    requires
        on_idom_chain(idom, from, node),
    ensures
        from <= node < idom.len(),
    decreases idom.len() - from,
{
    if from != node {
        let d = idom[from]->0 as int;
        lemma_chain_above(idom, d, node);
    }
}

/// Two nodes on one chain lie on each other's chain in index order.
proof fn lemma_chain_total(idom: Seq<Option<usize>>, from: int, x: int, y: int)
    requires
        on_idom_chain(idom, from, x),
        on_idom_chain(idom, from, y),
        x <= y,
    ensures
        on_idom_chain(idom, x, y),
    decreases idom.len() - from,
{
    if from != x {
        let d = idom[from]->0 as int;
        lemma_chain_above(idom, from, x);
        if from == y {
            lemma_chain_above(idom, d, x);
        } else {
            lemma_chain_total(idom, d, x, y);
        }
    }
}

/// A node on the chain from `x` has an assigned chain where `x` has.
proof fn lemma_chain_assigned_from(idom: Seq<Option<usize>>, x: int, y: int)
    requires
        chain_assigned(idom, x),
        on_idom_chain(idom, x, y),
    ensures
        chain_assigned(idom, y),
{
    assert forall|c: int| #[trigger] on_idom_chain(idom, y, c) implies idom[c] is Some by {
        lemma_chain_trans(idom, x, y, c);
    }
}

/// Walking one link up from a node on the chain stays on the chain.
proof fn lemma_chain_step(idom: Seq<Option<usize>>, from: int, node: int)
    requires
        idom_links_up(idom),
        on_idom_chain(idom, from, node),
        node < idom.len() - 1,
        idom[node] is Some,
    ensures
        on_idom_chain(idom, from, idom[node]->0 as int),
    decreases idom.len() - from,
{
    if from != node {
        let d = idom[from]->0 as int;
        lemma_chain_step(idom, d, node);
    } else {
        let d = idom[node]->0 as int;
        assert(on_idom_chain(idom, d, d));
    }
}

/// Chains compose: a node on the chain of a node on `from`'s chain is on
/// `from`'s chain.
proof fn lemma_chain_trans(idom: Seq<Option<usize>>, from: int, mid: int, node: int)
    requires
        on_idom_chain(idom, from, mid),
        on_idom_chain(idom, mid, node),
    ensures
        on_idom_chain(idom, from, node),
    decreases idom.len() - from,
{
    if from != mid {
        let d = idom[from]->0 as int;
        lemma_chain_trans(idom, d, mid, node);
    }
}

/// Walks `x` up its immediate-dominator chain until it reaches `bound` or
/// beyond; the result is the lowest node of that chain at or above `bound`.
fn climb(idom: &[Option<usize>], x: usize, bound: usize) -> (r: usize)
    requires
        idom_links_up(idom@),
        chain_assigned(idom@, x as int),
        x < idom@.len(),
        bound < idom@.len(),
    ensures
        r < idom@.len(),
        bound <= r,
        on_idom_chain(idom@, x as int, r as int),
        forall|c: int| on_idom_chain(idom@, x as int, c) && bound <= c ==> r <= c,
{
    let ghost s = idom@;
    let ghost n = idom@.len() as int;
    let mut y = x;
    proof {
        assert forall|c: int| on_idom_chain(s, x as int, c) && bound <= c implies y <= c by {
            lemma_chain_above(s, x as int, c);
        };
        assert(on_idom_chain(s, x as int, x as int));
    }
    while y < bound
        invariant
            s == idom@,
            n == s.len(),
            idom_links_up(s),
            chain_assigned(s, x as int),
            y < n,
            bound < n,
            on_idom_chain(s, x as int, y as int),
            forall|c: int| on_idom_chain(s, x as int, c) && bound <= c ==> y <= c,
        decreases n - y,
    {
        proof {
            assert(s[y as int] is Some);
        }
        let next = idom[y].unwrap_or(y);
        proof {
            assert(next == s[y as int]->0);
            assert(y < next < n);
            lemma_chain_step(s, x as int, y as int);
            assert forall|c: int| on_idom_chain(s, x as int, c) && bound <= c implies next <= c by {
                lemma_chain_total(s, x as int, y as int, c);
                assert(c != y);
                assert(on_idom_chain(s, next as int, c));
                lemma_chain_above(s, next as int, c);
            };
        }
        y = next;
    }
    proof {
        assert(on_idom_chain(s, y as int, y as int));
    }
    y
}

/// Finger intersection: the nearest common ancestor of `a` and `b` in the
/// forest `idom`, that is the lowest index that lies on both of their
/// immediate-dominator chains. Only the two chains need be assigned.
pub fn intersect(idom: &[Option<usize>], a: usize, b: usize) -> (r: usize)
    requires
        idom_links_up(idom@),
        chain_assigned(idom@, a as int),
        chain_assigned(idom@, b as int),
        a < idom@.len(),
        b < idom@.len(),
    ensures
        on_idom_chain(idom@, a as int, r as int),
        on_idom_chain(idom@, b as int, r as int),
        forall|c: int|
            on_idom_chain(idom@, a as int, c) && on_idom_chain(idom@, b as int, c) ==> r <= c,
{
    let ghost s = idom@;
    let ghost n = idom@.len() as int;
    let ghost a0 = a as int;
    let ghost b0 = b as int;
    let mut a = a;
    let mut b = b;
    proof {
        assert(on_idom_chain(s, a0, a0));
        assert(on_idom_chain(s, b0, b0));
        assert forall|c: int| on_idom_chain(s, a0, c) && on_idom_chain(s, b0, c) implies a <= c
            && b <= c by {
            lemma_chain_above(s, a0, c);
            lemma_chain_above(s, b0, c);
        };
    }
    while a != b
        invariant
            s == idom@,
            n == s.len(),
            idom_links_up(s),
            chain_assigned(s, a0),
            chain_assigned(s, b0),
            a < n,
            b < n,
            on_idom_chain(s, a0, a as int),
            on_idom_chain(s, b0, b as int),
            forall|c: int|
                on_idom_chain(s, a0, c) && on_idom_chain(s, b0, c) ==> a <= c && b <= c,
        decreases 2 * n - a - b,
    {
        let ghost a1 = a;
        let ghost b1 = b;
        proof {
            lemma_chain_assigned_from(s, a0, a as int);
            lemma_chain_assigned_from(s, b0, b as int);
        }
        a = climb(idom, a, b);
        proof {
            lemma_chain_trans(s, a0, a1 as int, a as int);
            assert forall|c: int| on_idom_chain(s, a0, c) && on_idom_chain(s, b0, c) implies a
                <= c by {
                lemma_chain_total(s, a0, a1 as int, c);
            };
        }
        let ghost a2 = a;
        b = climb(idom, b, a);
        proof {
            lemma_chain_trans(s, b0, b1 as int, b as int);
            assert forall|c: int| on_idom_chain(s, a0, c) && on_idom_chain(s, b0, c) implies b
                <= c by {
                lemma_chain_total(s, b0, b1 as int, c);
            };
            lemma_chain_above(s, a1 as int, a2 as int);
            lemma_chain_above(s, b1 as int, b as int);
            if a2 == a1 {
                assert(b > b1);
            }
        }
    }
    a
}


/// `y` is the block that `avoid` names, if it names one.
pub open spec fn is_avoided(avoid: Option<u32>, y: int) -> bool {
    avoid matches Some(a) && y == a as int
}

/// `p` is a walk from `s` to `y` that never enters the block `avoid` names.
pub open spec fn avoiding_walk(
    g: &ControlFlowGraph,
    p: Seq<int>,
    s: int,
    y: int,
    avoid: Option<u32>,
) -> bool {
    &&& is_walk(g, p)
    &&& p[0] == s
    &&& p.last() == y
    &&& forall|i: int| 0 <= i < p.len() ==> !is_avoided(avoid, #[trigger] p[i])
}

/// Some walk from `s` to `y` avoids the block `avoid` names.
pub open spec fn reaches_avoiding(g: &ControlFlowGraph, s: int, y: int, avoid: Option<u32>) -> bool {
    exists|p: Seq<int>| #[trigger] avoiding_walk(g, p, s, y, avoid)
}

/// The number of `true` entries.
pub open spec fn count_true(s: Seq<bool>) -> nat
    decreases s.len(),
{
    if s.len() == 0 {
        0
    } else {
        count_true(s.drop_last()) + if s.last() {
            1nat
        } else {
            0nat
        }
    }
}

pub proof fn lemma_count_true_bound(s: Seq<bool>)
    ensures
        count_true(s) <= s.len(),
    decreases s.len(),
{
    if s.len() > 0 {
        lemma_count_true_bound(s.drop_last());
    }
}

pub proof fn lemma_count_true_set(s: Seq<bool>, i: int)
    requires
        0 <= i < s.len(),
        !s[i],
    ensures
        count_true(s.update(i, true)) == count_true(s) + 1,
    decreases s.len(),
{
    if i == s.len() - 1 {
        assert(s.update(i, true).drop_last() =~= s.drop_last());
    } else {
        assert(s.update(i, true).drop_last() =~= s.drop_last().update(i, true));
        lemma_count_true_set(s.drop_last(), i);
    }
}

/// Every block of a walk that starts at a block lies in the graph.
proof fn lemma_walk_in_range(g: &ControlFlowGraph, p: Seq<int>, j: int)
    requires
        g.wf(),
        is_walk(g, p),
        0 <= p[0] < g.blocks@.len(),
        0 <= j < p.len(),
    ensures
        0 <= p[j] < g.blocks@.len(),
    decreases j,
{
    if j > 0 {
        lemma_walk_in_range(g, p, j - 1);
        assert(walk_step(g, p, j - 1));
        let k = choose|k: int|
            0 <= k < g.blocks@[p[j - 1]].successors@.len() && #[trigger] g.blocks@[p[j
                - 1]].successors@[k].target == p[j];
        assert(g.blocks@[p[j - 1]].successors@[k].target < g.blocks@.len());
    }
}

/// A walk that avoids `avoid` extends by one more edge to a block that is
/// not avoided.
proof fn lemma_extend_walk(
    g: &ControlFlowGraph,
    p: Seq<int>,
    s: int,
    x: int,
    y: int,
    avoid: Option<u32>,
)
    requires
        avoiding_walk(g, p, s, x, avoid),
        has_edge(g, x, y),
        !is_avoided(avoid, y),
    ensures
        avoiding_walk(g, p.push(y), s, y, avoid),
{
    let q = p.push(y);
    assert forall|i: int| 0 <= i < q.len() - 1 implies #[trigger] walk_step(g, q, i) by {
        if i < p.len() - 1 {
            assert(walk_step(g, p, i));
        }
    };
    assert forall|i: int| 0 <= i < q.len() implies !is_avoided(avoid, #[trigger] q[i]) by {
        if i < p.len() {
            assert(q[i] == p[i]);
        }
    };
}

/// A set of blocks that holds the first block of a walk, and every block
/// that an edge leads to from one of its blocks unless that block is
/// avoided, holds every block of the walk, when the walk avoids `avoid`.
proof fn lemma_closed_holds_walk(
    g: &ControlFlowGraph,
    m: Seq<bool>,
    p: Seq<int>,
    avoid: Option<u32>,
    j: int,
)
    requires
        g.wf(),
        m.len() == g.blocks@.len(),
        is_walk(g, p),
        0 <= p[0] < m.len(),
        m[p[0]],
        forall|i: int| 0 <= i < p.len() ==> !is_avoided(avoid, #[trigger] p[i]),
        forall|x: int, y: int|
            0 <= x < m.len() && m[x] && #[trigger] has_edge(g, x, y) && !is_avoided(avoid, y)
                ==> 0 <= y < m.len() && m[y],
        0 <= j < p.len(),
    ensures
        0 <= p[j] < m.len(),
        m[p[j]],
    decreases j,
{
    if j > 0 {
        lemma_closed_holds_walk(g, m, p, avoid, j - 1);
        assert(walk_step(g, p, j - 1));
        assert(!is_avoided(avoid, p[j]));
    }
}

/// The blocks reachable from `start` along walks that avoid the block
/// `avoid` names: entry `y` of the result is `true` exactly when such a
/// walk leads to `y`.
fn reach_from(g: &ControlFlowGraph, start: u32, avoid: Option<u32>) -> (m: Vec<bool>)
    requires
        g.wf(),
        start < g.blocks@.len(),
        !is_avoided(avoid, start as int),
    ensures
        m@.len() == g.blocks@.len(),
        forall|y: int|
            0 <= y < m@.len() ==> (#[trigger] m@[y] <==> reaches_avoiding(
                g,
                start as int,
                y,
                avoid,
            )),
{
    let n = g.blocks.len();
    let mut m: Vec<bool> = Vec::new();
    let mut i: usize = 0;
    while i < n
        invariant
            i <= n,
            m@.len() == i,
            forall|j: int| 0 <= j < i ==> !m@[j],
        decreases n - i,
    {
        m.push(false);
        i = i + 1;
    }
    proof {
        let p0 = seq![start as int];
        assert(avoiding_walk(g, p0, start as int, start as int, avoid));
    }
    m.set(start as usize, true);
    let mut stack: Vec<u32> = Vec::new();
    stack.push(start);
    proof {
        lemma_count_true_bound(m@);
        assert(stack@[0] == start);
        assert forall|x: int| 0 <= x < n && m@[x] implies x == start as int by {};
    }
    while stack.len() > 0
        invariant
            g.wf(),
            n == g.blocks@.len(),
            m@.len() == n,
            start < n,
            !is_avoided(avoid, start as int),
            m@[start as int],
            count_true(m@) <= n,
            forall|j: int| 0 <= j < stack@.len() ==> #[trigger] stack@[j] < n && m@[stack@[j] as int],
            forall|j1: int, j2: int|
                0 <= j1 < j2 < stack@.len() ==> #[trigger] stack@[j1] != #[trigger] stack@[j2],
            forall|y: int| 0 <= y < n && #[trigger] m@[y] ==> reaches_avoiding(g, start as int, y, avoid),
            forall|x: int, y: int|
                0 <= x < n && m@[x] && !stack@.contains(x as u32) && #[trigger] has_edge(g, x, y)
                    && !is_avoided(avoid, y) ==> 0 <= y < n && m@[y],
        decreases 2 * (n - count_true(m@)) + stack@.len(),
    {
        let ghost meas = 2 * (n - count_true(m@)) + stack@.len();
        let ghost stack0 = stack@;
        let x = stack.pop().unwrap();
        proof {
            assert(stack@ == stack0.drop_last());
            assert(!stack@.contains(x)) by {
                if stack@.contains(x) {
                    let j = choose|j: int| 0 <= j < stack@.len() && stack@[j] == x;
                    assert(stack0[j] == stack0[stack0.len() - 1]);
                }
            };
        }
        let ghost stack1 = stack@;
        let ghost m1 = m@;
        proof {
            assert forall|x2: int| 0 <= x2 < n && x2 != x && !stack1.contains(x2 as u32) implies !#[trigger] stack0.contains(
                x2 as u32,
            ) by {
                if stack0.contains(x2 as u32) {
                    let j = choose|j: int| 0 <= j < stack0.len() && stack0[j] == x2 as u32;
                    if j < stack1.len() {
                        assert(stack1[j] == stack0[j]);
                    }
                }
            };
        }
        let succs = &g.blocks[x as usize].successors;
        let mut k: usize = 0;
        while k < succs.len()
            invariant
                g.wf(),
                n == g.blocks@.len(),
                m@.len() == n,
                x < n,
                start < n,
                m@[x as int],
                succs@ == g.blocks@[x as int].successors@,
                k <= succs@.len(),
                !is_avoided(avoid, start as int),
                m@[start as int],
                count_true(m@) <= n,
                2 * (n - count_true(m@)) + stack@.len() < meas,
                !stack@.contains(x),
                forall|y: int| 0 <= y < n && m1[y] ==> m@[y],
                forall|j: int| 0 <= j < stack@.len() ==> #[trigger] stack@[j] < n && m@[stack@[j] as int],
                forall|j: int| 0 <= j < stack@.len() ==> #[trigger] stack@[j] == x as u32 ==> false,
                forall|j: int| 0 <= j < stack1.len() ==> #[trigger] stack1[j] == stack@[j],
                stack1.len() <= stack@.len(),
                forall|j: int| stack1.len() <= j < stack@.len() ==> !m1[#[trigger] stack@[j] as int],
                forall|y: int| 0 <= y < n && #[trigger] m@[y] && !m1[y] ==> stack@.contains(y as u32),
                forall|j1: int, j2: int|
                    0 <= j1 < j2 < stack@.len() ==> #[trigger] stack@[j1] != #[trigger] stack@[j2],
                forall|y: int| 0 <= y < n && #[trigger] m@[y] ==> reaches_avoiding(g, start as int, y, avoid),
                forall|x2: int, y: int|
                    0 <= x2 < n && m1[x2] && x2 != x && !stack1.contains(x2 as u32) && #[trigger] has_edge(g, x2, y)
                        && !is_avoided(avoid, y) ==> 0 <= y < n && m1[y],
                forall|kk: int|
                    0 <= kk < k ==> !is_avoided(avoid, #[trigger] succs@[kk].target as int) ==> m@[succs@[kk].target as int],
            decreases succs@.len() - k,
        {
            let y = succs[k].target;
            proof {
                assert(g.blocks@[x as int].successors@[k as int].target < n);
            }
            let skip = match avoid {
                Some(a) => a == y,
                None => false,
            };
            if !skip && !m[y as usize] {
                proof {
                    assert(has_edge(g, x as int, y as int)) by {
                        assert(g.blocks@[x as int].successors@[k as int].target == y);
                    };
                    let p = choose|p: Seq<int>| #[trigger] avoiding_walk(g, p, start as int, x as int, avoid);
                    lemma_extend_walk(g, p, start as int, x as int, y as int, avoid);
                    lemma_count_true_set(m@, y as int);
                    lemma_count_true_bound(m@.update(y as int, true));
                    assert(!stack@.contains(y)) by {
                        if stack@.contains(y) {
                            let j = choose|j: int| 0 <= j < stack@.len() && stack@[j] == y;
                            assert(m@[stack@[j] as int]);
                        }
                    };
                }
                let ghost stack2 = stack@;
                m.set(y as usize, true);
                stack.push(y);
                proof {
                    assert(stack@[stack@.len() - 1] == y);
                    assert forall|y2: int| 0 <= y2 < n && #[trigger] m@[y2] && !m1[y2] implies stack@.contains(
                        y2 as u32,
                    ) by {
                        if y2 != y as int {
                            let j = choose|j: int| 0 <= j < stack2.len() && stack2[j] == y2 as u32;
                            assert(stack@[j] == stack2[j]);
                        }
                    };
                    assert forall|j1: int, j2: int|
                        0 <= j1 < j2 < stack@.len() implies #[trigger] stack@[j1] != #[trigger] stack@[j2] by {
                        if j2 == stack@.len() - 1 {
                            assert(m@[stack@[j1] as int] || j1 == j2);
                        }
                    };
                }
            }
            k = k + 1;
        }
        proof {
            assert forall|x2: int, y: int|
                0 <= x2 < n && m@[x2] && !stack@.contains(x2 as u32) && #[trigger] has_edge(g, x2, y)
                    && !is_avoided(avoid, y) implies 0 <= y < n && m@[y] by {
                if x2 == x {
                    let kk = choose|kk: int|
                        0 <= kk < g.blocks@[x2].successors@.len()
                            && #[trigger] g.blocks@[x2].successors@[kk].target == y;
                    assert(succs@[kk].target == y);
                } else if m1[x2] && !stack1.contains(x2 as u32) {
                } else if !m1[x2] {
                } else {
                    let j = choose|j: int| 0 <= j < stack1.len() && stack1[j] == x2 as u32;
                    assert(stack@[j] == x2 as u32);
                }
            };
        }
    }
    proof {
        assert forall|y: int| 0 <= y < m@.len() implies (#[trigger] m@[y] <==> reaches_avoiding(
            g,
            start as int,
            y,
            avoid,
        )) by {
            if reaches_avoiding(g, start as int, y, avoid) {
                let p = choose|p: Seq<int>| #[trigger] avoiding_walk(g, p, start as int, y, avoid);
                lemma_closed_holds_walk(g, m@, p, avoid, p.len() - 1);
            }
        };
    }
    m
}


/// Dominance reads off two reachability questions: `b` is reachable, and
/// (unless `a` is the entry, which every path starts at) no walk from the
/// entry reaches `b` around `a`.
proof fn lemma_dominance_by_reach(g: &ControlFlowGraph, e: u32, a: u32, b: int)
    requires
        g.wf(),
        g.entry == Some(e),
        a < g.blocks@.len(),
        0 <= b < g.blocks@.len(),
    ensures
        reachable(g, b) <==> reaches_avoiding(g, e as int, b, None),
        a == e ==> (dominates_in(g, a as int, b) <==> (a == b || reachable(g, b))),
        a != e ==> (dominates_in(g, a as int, b) <==> (a == b || (reachable(g, b)
            && !reaches_avoiding(g, e as int, b, Some(a))))),
{
    if reachable(g, b) {
        let p = choose|p: Seq<int>| #[trigger] is_entry_path(g, p, b);
        assert(avoiding_walk(g, p, e as int, b, None));
    }
    if reaches_avoiding(g, e as int, b, None) {
        let p = choose|p: Seq<int>| #[trigger] avoiding_walk(g, p, e as int, b, None);
        assert(is_entry_path(g, p, b));
    }
    if a == e {
        assert forall|p: Seq<int>| #[trigger] is_entry_path(g, p, b) implies p.contains(a as int) by {
            assert(p[0] == a as int);
        };
    } else {
        if reaches_avoiding(g, e as int, b, Some(a)) {
            let p = choose|p: Seq<int>| #[trigger] avoiding_walk(g, p, e as int, b, Some(a));
            assert(is_entry_path(g, p, b));
            if p.contains(a as int) {
                let i = choose|i: int| 0 <= i < p.len() && p[i] == a as int;
                assert(!is_avoided(Some(a), p[i]));
            }
        } else {
            assert forall|p: Seq<int>| #[trigger] is_entry_path(g, p, b) implies p.contains(
                a as int,
            ) by {
                if !p.contains(a as int) {
                    assert forall|i: int| 0 <= i < p.len() implies !is_avoided(
                        Some(a),
                        #[trigger] p[i],
                    ) by {
                        if p[i] == a as int {
                            assert(p.contains(a as int));
                        }
                    };
                    assert(avoiding_walk(g, p, e as int, b, Some(a)));
                }
            };
        }
    }
}

/// Two distinct blocks of which one lies outside the graph: neither
/// dominates the other, since every path stays inside the graph.
proof fn lemma_dominance_out_of_range(g: &ControlFlowGraph, a: int, b: int)
    requires
        g.wf(),
        a != b,
        !(0 <= a < g.blocks@.len() && 0 <= b < g.blocks@.len()),
    ensures
        !dominates_in(g, a, b),
{
    if reachable(g, b) {
        let p = choose|p: Seq<int>| #[trigger] is_entry_path(g, p, b);
        lemma_walk_in_range(g, p, p.len() - 1);
        if p.contains(a) {
            let i = choose|i: int| 0 <= i < p.len() && p[i] == a;
            lemma_walk_in_range(g, p, i);
        }
    }
}

/// One row of the dominance relation: entry `b` is whether block `a`
/// dominates block `b`.
fn dominance_row(g: &ControlFlowGraph, e: u32, a: u32, reach: &Vec<bool>) -> (row: Vec<bool>)
    requires
        g.wf(),
        g.entry == Some(e),
        a < g.blocks@.len(),
        reach@.len() == g.blocks@.len(),
        forall|y: int|
            0 <= y < reach@.len() ==> (#[trigger] reach@[y] <==> reaches_avoiding(
                g,
                e as int,
                y,
                None,
            )),
    ensures
        row@.len() == g.blocks@.len(),
        forall|b: int| 0 <= b < row@.len() ==> (#[trigger] row@[b] <==> dominates_in(g, a as int, b)),
{
    let n = g.blocks.len();
    let around: Vec<bool> = if a == e {
        Vec::new()
    } else {
        reach_from(g, e, Some(a))
    };
    let mut row: Vec<bool> = Vec::new();
    let mut b: usize = 0;
    while b < n
        invariant
            g.wf(),
            g.entry == Some(e),
            a < n,
            n == g.blocks@.len(),
            reach@.len() == n,
            forall|y: int|
                0 <= y < reach@.len() ==> (#[trigger] reach@[y] <==> reaches_avoiding(
                    g,
                    e as int,
                    y,
                    None,
                )),
            a != e ==> around@.len() == n,
            a != e ==> forall|y: int|
                0 <= y < around@.len() ==> (#[trigger] around@[y] <==> reaches_avoiding(
                    g,
                    e as int,
                    y,
                    Some(a),
                )),
            b <= n,
            row@.len() == b,
            forall|b2: int| 0 <= b2 < b ==> (#[trigger] row@[b2] <==> dominates_in(g, a as int, b2)),
        decreases n - b,
    {
        proof {
            lemma_dominance_by_reach(g, e, a, b as int);
        }
        let d = if a as usize == b {
            true
        } else if a == e {
            reach[b]
        } else {
            reach[b] && !around[b]
        };
        row.push(d);
        b = b + 1;
    }
    row
}

/// A block `d` other than `b` that dominates `b` and that every other
/// block dominating `b`, besides `b` itself, dominates in turn: the
/// nearest strict dominator of `b`.
pub open spec fn is_immediate_dominator(g: &ControlFlowGraph, d: int, b: int) -> bool {
    &&& d != b
    &&& dominates_in(g, d, b)
    &&& forall|c: int| c != b && #[trigger] dominates_in(g, c, b) ==> dominates_in(g, c, d)
}

/// The dominator tree: each block's immediate dominator, and the blocks
/// that each block immediately dominates, both indexed by block id.
#[derive(Debug)]
pub struct DominatorTree {
    pub idom: Vec<Option<BlockId>>,
    pub children: Vec<Vec<BlockId>>,
}

/// Dominance facts of a control-flow graph: the dominator tree, the blocks
/// reachable from the entry in depth-first post-order, and the dominance
/// relation itself, where `dom[a][b]` tells whether block `a` dominates
/// block `b`.
#[derive(Debug)]
pub struct DominanceInfo {
    pub tree: DominatorTree,
    pub postorder: Vec<BlockId>,
    pub dom: Vec<Vec<bool>>,
}

impl DominanceInfo {
    /// Whether `a` dominates `b` by this record: always for a block and
    /// itself, else as the relation says.
    pub open spec fn dominates_spec(&self, a: int, b: int) -> bool {
        a == b || (0 <= a < self.dom@.len() && 0 <= b < self.dom@[a]@.len() && self.dom@[a]@[b])
    }

    /// Returns `true` if `a` dominates `b`: every path from the entry to
    /// `b` goes through `a`.
    pub fn dominates(&self, a: BlockId, b: BlockId) -> (r: bool)
        ensures
            r == self.dominates_spec(a as int, b as int),
    {
        if a == b {
            return true;
        }
        let ai = a as usize;
        let bi = b as usize;
        if ai < self.dom.len() && bi < self.dom[ai].len() {
            self.dom[ai][bi]
        } else {
            false
        }
    }

    /// Returns `true` if `a` dominates `b` and is not `b`.
    pub fn strictly_dominates(&self, a: BlockId, b: BlockId) -> (r: bool)
        ensures
            r == (a != b && self.dominates_spec(a as int, b as int)),
    {
        a != b && self.dominates(a, b)
    }
}

/// The dominance relation of `g`, as rows of `dominance_row`.
fn dominance_matrix(g: &ControlFlowGraph, e: u32) -> (dom: Vec<Vec<bool>>)
    requires
        g.wf(),
        g.entry == Some(e),
    ensures
        dom@.len() == g.blocks@.len(),
        forall|a: int| 0 <= a < dom@.len() ==> #[trigger] dom@[a]@.len() == g.blocks@.len(),
        forall|a: int, b: int|
            0 <= a < dom@.len() && 0 <= b < g.blocks@.len() ==> (#[trigger] dom@[a]@[b]
                <==> dominates_in(g, a, b)),
{
    let n = g.blocks.len();
    let reach = reach_from(g, e, None);
    let mut dom: Vec<Vec<bool>> = Vec::new();
    let mut a: usize = 0;
    while a < n
        invariant
            g.wf(),
            g.entry == Some(e),
            n == g.blocks@.len(),
            reach@.len() == n,
            forall|y: int|
                0 <= y < reach@.len() ==> (#[trigger] reach@[y] <==> reaches_avoiding(
                    g,
                    e as int,
                    y,
                    None,
                )),
            a <= n,
            dom@.len() == a,
            forall|a2: int| 0 <= a2 < a ==> #[trigger] dom@[a2]@.len() == n,
            forall|a2: int, b: int|
                0 <= a2 < a && 0 <= b < n ==> (#[trigger] dom@[a2]@[b] <==> dominates_in(g, a2, b)),
        decreases n - a,
    {
        let row = dominance_row(g, e, a as u32, &reach);
        dom.push(row);
        a = a + 1;
    }
    dom
}

proof fn lemma_count_true_mono(s: Seq<bool>, t: Seq<bool>)
    requires
        s.len() == t.len(),
        forall|i: int| 0 <= i < s.len() && s[i] ==> t[i],
    ensures
        count_true(s) <= count_true(t),
    decreases s.len(),
{
    if s.len() > 0 {
        lemma_count_true_mono(s.drop_last(), t.drop_last());
    }
}

/// A block that an edge leads to from a reachable block is reachable.
proof fn lemma_reachable_step(g: &ControlFlowGraph, e: u32, x: int, y: int)
    requires
        g.entry == Some(e),
        reachable(g, x),
        has_edge(g, x, y),
    ensures
        reachable(g, y),
{
    let p = choose|p: Seq<int>| #[trigger] is_entry_path(g, p, x);
    assert(avoiding_walk(g, p, e as int, x, None));
    lemma_extend_walk(g, p, e as int, x, y, None);
    assert(is_entry_path(g, p.push(y), y));
}

/// What the depth-first search keeps true: visited blocks are reachable;
/// the finished blocks, in `order`, are distinct and visited, and every
/// block that an edge leads to from one of them is visited.
pub open spec fn dfs_state(g: &ControlFlowGraph, visited: Seq<bool>, order: Seq<BlockId>) -> bool {
    &&& visited.len() == g.blocks@.len()
    &&& forall|x: int| 0 <= x < visited.len() && #[trigger] visited[x] ==> reachable(g, x)
    &&& forall|j1: int, j2: int|
        0 <= j1 < j2 < order.len() ==> #[trigger] order[j1] != #[trigger] order[j2]
    &&& forall|j: int| 0 <= j < order.len() ==> #[trigger] order[j] < visited.len() && visited[order[j] as int]
    &&& forall|j: int, y: int|
        0 <= j < order.len() && #[trigger] has_edge(g, order[j] as int, y) ==> 0 <= y
            < visited.len() && visited[y]
}

/// Visits `b` and, depth first, every unvisited block it leads to,
/// appending each block to `order` once all its successors are visited.
fn dfs_postorder(
    g: &ControlFlowGraph,
    b: BlockId,
    visited: &mut Vec<bool>,
    order: &mut Vec<BlockId>,
    Ghost(e): Ghost<u32>,
)
    requires
        g.wf(),
        g.entry == Some(e),
        b < g.blocks@.len(),
        reachable(g, b as int),
        dfs_state(g, old(visited)@, old(order)@),
    ensures
        dfs_state(g, final(visited)@, final(order)@),
        final(visited)@[b as int],
        forall|x: int| 0 <= x < old(visited)@.len() && old(visited)@[x] ==> #[trigger] final(visited)@[x],
        final(order)@.len() >= old(order)@.len(),
        forall|j: int| 0 <= j < old(order)@.len() ==> #[trigger] final(order)@[j] == old(order)@[j],
        forall|j: int|
            old(order)@.len() <= j < final(order)@.len() ==> !old(visited)@[#[trigger] final(order)@[j] as int],
        forall|x: int|
            0 <= x < final(visited)@.len() && #[trigger] final(visited)@[x] && !old(visited)@[x]
                ==> final(order)@.contains(x as u32),
        !old(visited)@[b as int] ==> final(order)@.len() > 0 && final(order)@.last() == b,
    decreases g.blocks@.len() - count_true(old(visited)@),
{
    if visited[b as usize] {
        return;
    }
    let ghost v0 = visited@;
    let ghost o0 = order@;
    assert(v0 == old(visited)@);
    proof {
        lemma_count_true_set(visited@, b as int);
        lemma_count_true_bound(visited@.update(b as int, true));
        assert forall|j: int| 0 <= j < o0.len() implies o0[j] != b by {
            assert(v0[o0[j] as int]);
        };
    }
    visited.set(b as usize, true);
    let n = g.blocks.len();
    let succs = &g.blocks[b as usize].successors;
    let m = succs.len();
    let mut k: usize = 0;
    while k < m
        invariant
            g.wf(),
            g.entry == Some(e),
            n == g.blocks@.len(),
            b < n,
            reachable(g, b as int),
            succs@ == g.blocks@[b as int].successors@,
            m == succs@.len(),
            k <= m,
            dfs_state(g, visited@, order@),
            visited@[b as int],
            !v0[b as int],
            v0.len() == n,
            v0 == old(visited)@,
            count_true(visited@) > count_true(v0),
            forall|x: int| 0 <= x < n && v0[x] ==> #[trigger] visited@[x],
            order@.len() >= o0.len(),
            forall|j: int| 0 <= j < o0.len() ==> #[trigger] order@[j] == o0[j],
            forall|j: int| o0.len() <= j < order@.len() ==> !v0[#[trigger] order@[j] as int],
            forall|j: int| 0 <= j < order@.len() ==> #[trigger] order@[j] != b,
            forall|x: int|
                0 <= x < n && #[trigger] visited@[x] && !v0[x] && x != b ==> order@.contains(x as u32),
            forall|kk: int| 0 <= kk < k ==> visited@[#[trigger] succs@[kk].target as int],
        decreases m - k,
    {
        let t = succs[k].target;
        proof {
            assert(g.blocks@[b as int].successors@[k as int].target < n);
            assert(has_edge(g, b as int, t as int)) by {
                assert(g.blocks@[b as int].successors@[k as int].target == t);
            };
            lemma_reachable_step(g, e, b as int, t as int);
            lemma_count_true_bound(visited@);
            assert(n - count_true(visited@) < n - count_true(old(visited)@));
        }
        let ghost v1 = visited@;
        let ghost o1 = order@;
        dfs_postorder(g, t, visited, order, Ghost(e));
        proof {
            lemma_count_true_mono(v1, visited@);
            assert forall|j: int| 0 <= j < order@.len() implies #[trigger] order@[j] != b by {
                if j < o1.len() {
                    assert(order@[j] == o1[j]);
                } else {
                    assert(!v1[order@[j] as int]);
                }
            };
            assert forall|x: int|
                0 <= x < n && #[trigger] visited@[x] && !v0[x] && x != b implies order@.contains(
                    x as u32,
                ) by {
                if v1[x] {
                    let j = choose|j: int| 0 <= j < o1.len() && o1[j] == x as u32;
                    assert(order@[j] == o1[j]);
                }
            };
            assert forall|j: int| o0.len() <= j < order@.len() implies !v0[#[trigger] order@[j] as int] by {
                if j < o1.len() {
                    assert(order@[j] == o1[j]);
                } else {
                    assert(!v1[order@[j] as int]);
                }
            };
            assert forall|j: int| 0 <= j < o0.len() implies #[trigger] order@[j] == o0[j] by {
                assert(order@[j] == o1[j]);
            };
        }
        k = k + 1;
    }
    let ghost o2 = order@;
    order.push(b);
    proof {
        assert(order@[order@.len() - 1] == b);
        assert forall|j: int, y: int|
            0 <= j < order@.len() && #[trigger] has_edge(g, order@[j] as int, y) implies 0 <= y < n
                && visited@[y] by {
            if j == order@.len() - 1 {
                let kk = choose|kk: int|
                    0 <= kk < g.blocks@[b as int].successors@.len()
                        && #[trigger] g.blocks@[b as int].successors@[kk].target == y;
                assert(succs@[kk].target == y);
            } else {
                assert(order@[j] == o2[j]);
            }
        };
        assert forall|j1: int, j2: int|
            0 <= j1 < j2 < order@.len() implies #[trigger] order@[j1] != #[trigger] order@[j2] by {
            if j2 == order@.len() - 1 {
                assert(o2[j1] != b);
            } else {
                assert(o2[j1] != o2[j2]);
            }
        };
        assert forall|j: int| 0 <= j < order@.len() implies #[trigger] order@[j] < n && visited@[order@[j] as int] by {
            if j < o2.len() {
                assert(order@[j] == o2[j]);
            }
        };
        assert forall|x: int|
            0 <= x < n && #[trigger] visited@[x] && !v0[x] implies order@.contains(x as u32) by {
            if x != b {
                let j = choose|j: int| 0 <= j < o2.len() && o2[j] == x as u32;
                assert(order@[j] == o2[j]);
            }
        };
        assert forall|j: int| o0.len() <= j < order@.len() implies !v0[#[trigger] order@[j] as int] by {
            if j < o2.len() {
                assert(order@[j] == o2[j]);
            }
        };
        assert forall|j: int| 0 <= j < o0.len() implies #[trigger] order@[j] == o0[j] by {
            assert(order@[j] == o2[j]);
        };
    }
}

/// The blocks reachable from the entry, in depth-first post-order: each
/// once, the entry last.
fn postorder_traversal(cfg: &ControlFlowGraph, entry: BlockId) -> (order: Vec<BlockId>)
    requires
        cfg.wf(),
        cfg.entry == Some(entry),
    ensures
        is_reachable_postorder(cfg, entry, order@),
{
    let n = cfg.blocks.len();
    let mut visited: Vec<bool> = Vec::new();
    let mut i: usize = 0;
    while i < n
        invariant
            i <= n,
            visited@.len() == i,
            forall|j: int| 0 <= j < i ==> !visited@[j],
        decreases n - i,
    {
        visited.push(false);
        i = i + 1;
    }
    let mut order: Vec<BlockId> = Vec::new();
    proof {
        assert(is_entry_path(cfg, seq![entry as int], entry as int));
    }
    dfs_postorder(cfg, entry, &mut visited, &mut order, Ghost(entry));
    proof {
        assert forall|y: int| #[trigger] reachable(cfg, y) implies order@.contains(y as u32) by {
            let p = choose|p: Seq<int>| #[trigger] is_entry_path(cfg, p, y);
            assert forall|x: int, y2: int|
                0 <= x < visited@.len() && visited@[x] && #[trigger] has_edge(cfg, x, y2)
                    && !is_avoided(None, y2) implies 0 <= y2 < visited@.len() && visited@[y2] by {
                let j = choose|j: int| 0 <= j < order@.len() && order@[j] == x as u32;
                assert(has_edge(cfg, order@[j] as int, y2));
            };
            lemma_closed_holds_walk(cfg, visited@, p, None, p.len() - 1);
        };
        assert forall|j: int| 0 <= j < order@.len() implies reachable(cfg, #[trigger] order@[j] as int) by {
            assert(visited@[order@[j] as int]);
        };
    }
    order
}

/// `order` lists, each once, exactly the blocks reachable from the entry,
/// and ends with the entry.
pub open spec fn is_reachable_postorder(g: &ControlFlowGraph, entry: BlockId, order: Seq<BlockId>) -> bool {
    &&& forall|j1: int, j2: int|
        0 <= j1 < j2 < order.len() ==> #[trigger] order[j1] != #[trigger] order[j2]
    &&& forall|j: int| 0 <= j < order.len() ==> reachable(g, #[trigger] order[j] as int)
    &&& forall|y: int| #[trigger] reachable(g, y) ==> order.contains(y as u32)
    &&& order.len() > 0 && order.last() == entry
}

/// A prefix of a path from the entry is a path from the entry.
proof fn lemma_prefix_path(g: &ControlFlowGraph, p: Seq<int>, b: int, i: int)
    requires
        is_entry_path(g, p, b),
        0 <= i < p.len(),
    ensures
        is_entry_path(g, p.take(i + 1), p[i]),
{
    let q = p.take(i + 1);
    assert forall|k: int| 0 <= k < q.len() - 1 implies #[trigger] walk_step(g, q, k) by {
        assert(walk_step(g, p, k));
        assert(q[k] == p[k] && q[k + 1] == p[k + 1]);
    };
}

/// Dominance is transitive.
pub proof fn lemma_dominates_trans(g: &ControlFlowGraph, a: int, b: int, c: int)
    requires
        dominates_in(g, a, b),
        dominates_in(g, b, c),
    ensures
        dominates_in(g, a, c),
{
    if a != b && b != c && a != c {
        assert forall|p: Seq<int>| #[trigger] is_entry_path(g, p, c) implies p.contains(a) by {
            assert(p.contains(b));
            let i = choose|i: int| 0 <= i < p.len() && p[i] == b;
            lemma_prefix_path(g, p, c, i);
            let q = p.take(i + 1);
            assert(q.contains(a));
            let j = choose|j: int| 0 <= j < q.len() && q[j] == a;
            assert(p[j] == a);
        };
    }
}

proof fn lemma_no_mutual_path(g: &ControlFlowGraph, a: int, b: int, p: Seq<int>)
    requires
        a != b,
        dominates_in(g, a, b),
        dominates_in(g, b, a),
    ensures
        !is_entry_path(g, p, a),
    decreases p.len(),
{
    if is_entry_path(g, p, a) {
        assert(p.contains(b));
        let i = choose|i: int| 0 <= i < p.len() && p[i] == b;
        assert(i != p.len() - 1);
        lemma_prefix_path(g, p, a, i);
        let q = p.take(i + 1);
        assert(q.contains(a));
        let j = choose|j: int| 0 <= j < q.len() && q[j] == a;
        assert(p[j] == a);
        lemma_prefix_path(g, p, a, j);
        lemma_no_mutual_path(g, a, b, p.take(j + 1));
    }
}

/// Two distinct blocks do not dominate each other.
pub proof fn lemma_dominates_antisym(g: &ControlFlowGraph, a: int, b: int)
    requires
        dominates_in(g, a, b),
        dominates_in(g, b, a),
    ensures
        a == b,
{
    if a != b {
        let p = choose|p: Seq<int>| #[trigger] is_entry_path(g, p, a);
        lemma_no_mutual_path(g, a, b, p);
        assert(!is_entry_path(g, p, a));
    }
}

/// The blocks that dominate `r`.
pub open spec fn dom_set(g: &ControlFlowGraph, r: int) -> Set<int> {
    Set::new(|c: int| 0 <= c < g.blocks@.len() && dominates_in(g, c, r))
}

/// A block has at least itself and at most every block as dominators.
pub proof fn lemma_dom_set_bounds(g: &ControlFlowGraph, r: int)
    requires
        0 <= r < g.blocks@.len(),
    ensures
        dom_set(g, r).finite(),
        1 <= dom_set(g, r).len() <= g.blocks@.len(),
{
    let n = g.blocks@.len() as int;
    vstd::set_lib::lemma_int_range(0, n);
    assert(dom_set(g, r).subset_of(vstd::set_lib::set_int_range(0, n)));
    vstd::set_lib::lemma_len_subset(dom_set(g, r), vstd::set_lib::set_int_range(0, n));
    assert(dom_set(g, r).contains(r));
    vstd::set_lib::lemma_set_empty_equivalency_len(dom_set(g, r));
}

/// A strict dominator of `r` has fewer dominators than `r`.
pub proof fn lemma_dom_set_shrinks(g: &ControlFlowGraph, d: int, r: int)
    requires
        0 <= d < g.blocks@.len(),
        0 <= r < g.blocks@.len(),
        d != r,
        dominates_in(g, d, r),
    ensures
        dom_set(g, d).len() < dom_set(g, r).len(),
{
    lemma_dom_set_bounds(g, d);
    lemma_dom_set_bounds(g, r);
    let sr = dom_set(g, r);
    assert(dom_set(g, d).subset_of(sr.remove(r))) by {
        assert forall|c: int| dom_set(g, d).contains(c) implies sr.remove(r).contains(c) by {
            lemma_dominates_trans(g, c, d, r);
            if c == r {
                lemma_dominates_antisym(g, d, r);
            }
        };
    };
    vstd::set_lib::lemma_len_subset(dom_set(g, d), sr.remove(r));
}

/// The dominance relation of `g` as `dominance_matrix` gives it.
pub open spec fn is_dominance_matrix(g: &ControlFlowGraph, dom: Seq<Vec<bool>>) -> bool {
    &&& dom.len() == g.blocks@.len()
    &&& forall|a: int| 0 <= a < dom.len() ==> #[trigger] dom[a]@.len() == g.blocks@.len()
    &&& forall|a: int, b: int|
        0 <= a < dom.len() && 0 <= b < g.blocks@.len() ==> (#[trigger] dom[a]@[b]
            <==> dominates_in(g, a, b))
}

/// The immediate dominator of block `b`, if it has one.
fn immediate_dominator(g: &ControlFlowGraph, dom: &Vec<Vec<bool>>, b: usize) -> (r: Option<BlockId>)
    requires
        g.wf(),
        is_dominance_matrix(g, dom@),
        b < g.blocks@.len(),
    ensures
        r matches Some(d) ==> d < g.blocks@.len() && is_immediate_dominator(g, d as int, b as int),
        r is None ==> forall|d: int| !#[trigger] is_immediate_dominator(g, d, b as int),
{
    let n = dom.len();
    let mut d: usize = 0;
    while d < n
        invariant
            g.wf(),
            is_dominance_matrix(g, dom@),
            n == dom@.len(),
            b < n,
            d <= n,
            forall|d2: int| 0 <= d2 < d ==> !#[trigger] is_immediate_dominator(g, d2, b as int),
        decreases n - d,
    {
        if d != b && dom[d][b] {
            let mut c: usize = 0;
            let mut ok = true;
            while c < n && ok
                invariant
                    g.wf(),
                    is_dominance_matrix(g, dom@),
                    n == dom@.len(),
                    b < n,
                    d < n,
                    c <= n,
                    ok ==> forall|c2: int|
                        0 <= c2 < c && c2 != b && #[trigger] dom@[c2]@[b as int] ==> dom@[c2]@[d as int],
                    !ok ==> !is_immediate_dominator(g, d as int, b as int),
                decreases n - c,
            {
                if c != b && dom[c][b] && !dom[c][d] {
                    ok = false;
                }
                c = c + 1;
            }
            if ok {
                proof {
                    assert forall|c2: int| c2 != b && #[trigger] dominates_in(g, c2, b as int)
                        implies dominates_in(g, c2, d as int) by {
                        if !(0 <= c2 < n) {
                            lemma_dominance_out_of_range(g, c2, b as int);
                        } else {
                            assert(dom@[c2]@[b as int]);
                        }
                    };
                }
                return Some(d as u32);
            }
        }
        d = d + 1;
    }
    proof {
        assert forall|d2: int| !#[trigger] is_immediate_dominator(g, d2, b as int) by {
            if !(0 <= d2 < n) && d2 != b {
                lemma_dominance_out_of_range(g, d2, b as int);
            }
        };
    }
    None
}

/// The dominator tree of `g`.
fn dominator_tree(g: &ControlFlowGraph, dom: &Vec<Vec<bool>>) -> (t: DominatorTree)
    requires
        g.wf(),
        is_dominance_matrix(g, dom@),
    ensures
        describes_tree(g, t),
{
    let n = dom.len();
    let mut idom: Vec<Option<BlockId>> = Vec::new();
    let mut b: usize = 0;
    while b < n
        invariant
            g.wf(),
            is_dominance_matrix(g, dom@),
            n == dom@.len(),
            b <= n,
            idom@.len() == b,
            forall|b2: int| 0 <= b2 < b ==> idom_fits(g, #[trigger] idom@[b2], b2),
        decreases n - b,
    {
        let r = immediate_dominator(g, dom, b);
        idom.push(r);
        b = b + 1;
    }
    let mut children: Vec<Vec<BlockId>> = Vec::new();
    let mut d: usize = 0;
    while d < n
        invariant
            n == dom@.len(),
            n == g.blocks@.len(),
            n <= u32::MAX,
            idom@.len() == n,
            d <= n,
            children@.len() == d,
            forall|d2: int, j: int|
                0 <= d2 < d && 0 <= j < children@[d2]@.len() ==> {
                    let c = #[trigger] children@[d2]@[j];
                    c < n && idom@[c as int] == Some(d2 as u32)
                },
            forall|d2: int, c: int|
                #![trigger idom@[c], children@[d2]]
                0 <= d2 < d && 0 <= c < n && idom@[c] == Some(d2 as u32)
                    ==> children@[d2]@.contains(c as u32),
        decreases n - d,
    {
        let mut kids: Vec<BlockId> = Vec::new();
        let mut c: usize = 0;
        while c < n
            invariant
                n == g.blocks@.len(),
                n <= u32::MAX,
                idom@.len() == n,
                d < n,
                c <= n,
                forall|j: int|
                    0 <= j < kids@.len() ==> {
                        let x = #[trigger] kids@[j];
                        x < n && idom@[x as int] == Some(d as u32)
                    },
                forall|c2: int|
                    0 <= c2 < c && #[trigger] idom@[c2] == Some(d as u32) ==> kids@.contains(
                        c2 as u32,
                    ),
            decreases n - c,
        {
            if idom[c] == Some(d as u32) {
                let ghost before = kids@;
                kids.push(c as u32);
                proof {
                    assert(kids@[kids@.len() - 1] == c as u32);
                    assert forall|c2: int|
                        0 <= c2 < c && #[trigger] idom@[c2] == Some(d as u32) implies kids@.contains(
                            c2 as u32,
                        ) by {
                        let j = choose|j: int| 0 <= j < before.len() && before[j] == c2 as u32;
                        assert(kids@[j] == before[j]);
                    };
                }
            }
            c = c + 1;
        }
        children.push(kids);
        d = d + 1;
    }
    DominatorTree { idom, children }
}

/// `r` is what the dominator tree records for block `b`: its immediate
/// dominator, or nothing when it has none.
pub open spec fn idom_fits(g: &ControlFlowGraph, r: Option<BlockId>, b: int) -> bool {
    match r {
        Some(d) => d < g.blocks@.len() && is_immediate_dominator(g, d as int, b),
        None => forall|d: int| !#[trigger] is_immediate_dominator(g, d, b),
    }
}

/// `t` is the dominator tree of `g`: one immediate-dominator entry per
/// block, and under each block the blocks it immediately dominates.
pub open spec fn describes_tree(g: &ControlFlowGraph, t: DominatorTree) -> bool {
    let n = g.blocks@.len();
    &&& t.idom@.len() == n
    &&& forall|b: int| 0 <= b < n ==> idom_fits(g, #[trigger] t.idom@[b], b)
    &&& t.children@.len() == n
    &&& forall|d: int, j: int|
        0 <= d < n && 0 <= j < t.children@[d]@.len() ==> {
            let c = #[trigger] t.children@[d]@[j];
            c < n && t.idom@[c as int] == Some(d as u32)
        }
    &&& forall|d: int, c: int|
        #![trigger t.idom@[c], t.children@[d]]
        0 <= d < n && 0 <= c < n && t.idom@[c] == Some(d as u32)
            ==> t.children@[d]@.contains(c as u32)
}

/// Computes the dominance facts of `cfg`: `None` when it has no entry
/// block.
pub fn compute_dominators(cfg: &ControlFlowGraph) -> (r: Option<DominanceInfo>)
    requires
        cfg.wf(),
    ensures
        r is None <==> cfg.entry is None,
        r matches Some(d) ==> forall|a: int, b: int|
            #![trigger d.dominates_spec(a, b)]
            #![trigger dominates_in(cfg, a, b)]
            d.dominates_spec(a, b) <==> dominates_in(cfg, a, b),
        r matches Some(d) ==> describes_tree(cfg, d.tree),
        r matches Some(d) ==> is_reachable_postorder(cfg, cfg.entry->0, d.postorder@),
{
    let e = match cfg.entry {
        Some(e) => e,
        None => {
            return None;
        },
    };
    let dom = dominance_matrix(cfg, e);
    let tree = dominator_tree(cfg, &dom);
    let postorder = postorder_traversal(cfg, e);
    let info = DominanceInfo {
        tree,
        postorder,
        dom,
    };
    proof {
        assert forall|a: int, b: int| info.dominates_spec(a, b) <==> dominates_in(cfg, a, b) by {
            if a == b {
            } else if 0 <= a < cfg.blocks@.len() && 0 <= b < cfg.blocks@.len() {
                assert(info.dom@[a]@[b] <==> dominates_in(cfg, a, b));
            } else {
                lemma_dominance_out_of_range(cfg, a, b);
            }
        };
    }
    Some(info)
}

/// A path from the entry to `x`, followed by the part of walk `q` after
/// position `k` where `q[k] == x`, is a path from the entry to `q`'s end.
proof fn lemma_splice_path(g: &ControlFlowGraph, p: Seq<int>, x: int, q: Seq<int>, k: int)
    requires
        is_entry_path(g, p, x),
        is_walk(g, q),
        0 <= k < q.len(),
        q[k] == x,
    ensures
        is_entry_path(g, p + q.subrange(k + 1, q.len() as int), q.last()),
{
    let r = p + q.subrange(k + 1, q.len() as int);
    assert forall|i: int| 0 <= i < r.len() - 1 implies #[trigger] walk_step(g, r, i) by {
        if i < p.len() - 1 {
            assert(walk_step(g, p, i));
        } else if i == p.len() - 1 {
            assert(walk_step(g, q, k));
        } else {
            let j = k + 1 + (i - p.len());
            assert(walk_step(g, q, j));
            assert(r[i] == q[j] && r[i + 1] == q[j + 1]);
        }
    };
}

/// Scanning walk `q` down from position `i`, finds the last position whose
/// block strictly dominates `b` (position 0, the entry, does).
proof fn lemma_last_strict_dominator(g: &ControlFlowGraph, q: Seq<int>, b: int, i: int) -> (k: int)
    requires
        0 <= i < q.len(),
        q[0] != b,
        dominates_in(g, q[0], b),
        forall|j: int| i < j < q.len() ==> !(#[trigger] q[j] != b && dominates_in(g, q[j], b)),
    ensures
        0 <= k <= i,
        q[k] != b && dominates_in(g, q[k], b),
        forall|j: int| k < j < q.len() ==> !(#[trigger] q[j] != b && dominates_in(g, q[j], b)),
    decreases i,
{
    if q[i] != b && dominates_in(g, q[i], b) {
        i
    } else {
        lemma_last_strict_dominator(g, q, b, i - 1)
    }
}

/// Every block reachable from the entry, other than the entry itself, has
/// an immediate dominator; so the dominator tree gives it one.
pub proof fn law_reachable_block_has_idom(g: &ControlFlowGraph, t: DominatorTree, b: int)
    requires
        g.wf(),
        describes_tree(g, t),
        reachable(g, b),
        g.entry matches Some(e) && b != e as int,
    ensures
        0 <= b < g.blocks@.len(),
        t.idom@[b] is Some,
        exists|d: int| #[trigger] is_immediate_dominator(g, d, b),
{
    let e = g.entry->0;
    let q = choose|q: Seq<int>| #[trigger] is_entry_path(g, q, b);
    lemma_walk_in_range(g, q, q.len() - 1);
    lemma_dominance_by_reach(g, e, e, b);
    let k = lemma_last_strict_dominator(g, q, b, q.len() - 1);
    let d = q[k];
    assert forall|c: int| c != b && #[trigger] dominates_in(g, c, b) implies dominates_in(g, c, d) by {
        lemma_prefix_path(g, q, b, k);
        assert(is_entry_path(g, q.take(k + 1), d));
        if !dominates_in(g, c, d) {
            assert(!every_path_passes(g, c, d));
            let p = choose|p: Seq<int>| #[trigger] is_entry_path(g, p, d) && !p.contains(c);
            lemma_splice_path(g, p, d, q, k);
            let r = p + q.subrange(k + 1, q.len() as int);
            assert(r.contains(c));
            let i = choose|i: int| 0 <= i < r.len() && r[i] == c;
            if i >= p.len() {
                let j = k + 1 + (i - p.len());
                assert(q[j] == c);
            } else {
                assert(p.contains(c));
            }
        }
    };
    assert(is_immediate_dominator(g, d, b));
    assert(idom_fits(g, t.idom@[b], b));
}

/// Every block of the post-order that `compute_dominators` reports, other
/// than the entry, has an immediate dominator in its tree.
pub proof fn law_postorder_blocks_have_idom(g: &ControlFlowGraph, d: DominanceInfo, j: int)
    requires
        g.wf(),
        g.entry is Some,
        describes_tree(g, d.tree),
        is_reachable_postorder(g, g.entry->0, d.postorder@),
        0 <= j < d.postorder@.len(),
        d.postorder@[j] != g.entry->0,
    ensures
        0 <= d.postorder@[j] < g.blocks@.len(),
        d.tree.idom@[d.postorder@[j] as int] is Some,
{
    law_reachable_block_has_idom(g, d.tree, d.postorder@[j] as int);
}


/// An edge as `mark_back_edges` leaves it: of kind `Back` when its target
/// dominates its source by `d`, else unchanged.
pub open spec fn marked_edge(d: &DominanceInfo, e: CfgEdge) -> CfgEdge {
    if d.dominates_spec(e.target as int, e.source as int) {
        CfgEdge { kind: EdgeKind::Back, ..e }
    } else {
        e
    }
}

/// Marks as `Back` every edge whose target dominates its source; all else
/// in the graph stays as it was.
pub fn mark_back_edges(cfg: &mut ControlFlowGraph, dom_info: &DominanceInfo)
    ensures
        final(cfg).entry == old(cfg).entry,
        final(cfg).blocks@.len() == old(cfg).blocks@.len(),
        forall|i: int|
            0 <= i < final(cfg).blocks@.len() ==> {
                let b = #[trigger] final(cfg).blocks@[i];
                let a = old(cfg).blocks@[i];
                &&& b == BasicBlock { successors: b.successors, ..a }
                &&& b.successors@ == a.successors@.map_values(|e: CfgEdge| marked_edge(dom_info, e))
            },
        old(cfg).wf() ==> final(cfg).wf(),
{
    let n = cfg.blocks.len();
    let mut i: usize = 0;
    while i < n
        invariant
            n == cfg.blocks@.len(),
            n == old(cfg).blocks@.len(),
            i <= n,
            cfg.entry == old(cfg).entry,
            forall|j: int|
                0 <= j < n ==> {
                    let b = #[trigger] cfg.blocks@[j];
                    let a = old(cfg).blocks@[j];
                    &&& b == BasicBlock { successors: b.successors, ..a }
                    &&& j < i ==> b.successors@ == a.successors@.map_values(
                        |e: CfgEdge| marked_edge(dom_info, e),
                    )
                    &&& j >= i ==> b.successors@ == a.successors@
                },
        decreases n - i,
    {
        let mut succ: Vec<CfgEdge> = Vec::new();
        std::mem::swap(&mut succ, &mut cfg.blocks[i].successors);
        let ghost orig = succ@;
        let m = succ.len();
        let mut k: usize = 0;
        while k < m
            invariant
                m == succ@.len(),
                orig.len() == m,
                k <= m,
                forall|j: int|
                    0 <= j < m ==> #[trigger] succ@[j] == if j < k {
                        marked_edge(dom_info, orig[j])
                    } else {
                        orig[j]
                    },
            decreases m - k,
        {
            let edge = succ[k];
            if dom_info.dominates(edge.target, edge.source) {
                succ.set(k, CfgEdge { kind: EdgeKind::Back, ..edge });
            }
            k = k + 1;
        }
        proof {
            assert(succ@ =~= orig.map_values(|e: CfgEdge| marked_edge(dom_info, e)));
        }
        std::mem::swap(&mut succ, &mut cfg.blocks[i].successors);
        i = i + 1;
    }
}

} // verus!
