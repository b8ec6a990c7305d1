//! Control-flow structuring: recovers loops, conditionals and sequences
//! from a control-flow graph, its dominator tree and its back edges.

use crate::cfg::{BlockId, CfgEdge, ControlFlowGraph, EdgeKind};
use crate::dominators::{
    DominanceInfo,
    DominatorTree,
    count_true,
    lemma_count_true_bound,
    lemma_count_true_set,
};
use vstd::prelude::*;

verus! {

/// A recovered control-flow construct.
#[derive(Debug)]
pub enum HighLevelControlFlow {
    /// Constructs executed one after another.
    Sequence(Vec<HighLevelControlFlow>),
    /// The execution of a basic block.
    Block(BlockId),
    /// A conditional without an else branch.
    If { cond: BlockId, then_branch: Box<HighLevelControlFlow> },
    /// A conditional with both branches.
    IfElse {
        cond: BlockId,
        then_branch: Box<HighLevelControlFlow>,
        else_branch: Box<HighLevelControlFlow>,
    },
    /// A loop tested before its body.
    While { cond: BlockId, body: Box<HighLevelControlFlow> },
    /// A loop tested after its body.
    DoWhile { body: Box<HighLevelControlFlow>, cond: BlockId },
    Return,
    Break,
    Continue,
    /// A jump to a block structured elsewhere.
    Goto(BlockId),
}

/// A recovered construct as a mathematical value.
pub enum Structure {
    Sequence(Seq<Structure>),
    Block(BlockId),
    If { cond: BlockId, then_branch: Box<Structure> },
    IfElse { cond: BlockId, then_branch: Box<Structure>, else_branch: Box<Structure> },
    While { cond: BlockId, body: Box<Structure> },
    DoWhile { body: Box<Structure>, cond: BlockId },
    Return,
    Break,
    Continue,
    Goto(BlockId),
}

impl HighLevelControlFlow {
    /// The construct as a mathematical value.
    pub open spec fn structure(&self) -> Structure
        decreases self,
    {
        match self {
            HighLevelControlFlow::Sequence(items) => Structure::Sequence(
                Seq::new(
                    items@.len(),
                    |i: int|
                        if 0 <= i < items@.len() {
                            items@[i].structure()
                        } else {
                            Structure::Return
                        },
                ),
            ),
            HighLevelControlFlow::Block(b) => Structure::Block(*b),
            HighLevelControlFlow::If { cond, then_branch } => Structure::If {
                cond: *cond,
                then_branch: Box::new(then_branch.structure()),
            },
            HighLevelControlFlow::IfElse { cond, then_branch, else_branch } => Structure::IfElse {
                cond: *cond,
                then_branch: Box::new(then_branch.structure()),
                else_branch: Box::new(else_branch.structure()),
            },
            HighLevelControlFlow::While { cond, body } => Structure::While {
                cond: *cond,
                body: Box::new(body.structure()),
            },
            HighLevelControlFlow::DoWhile { body, cond } => Structure::DoWhile {
                body: Box::new(body.structure()),
                cond: *cond,
            },
            HighLevelControlFlow::Return => Structure::Return,
            HighLevelControlFlow::Break => Structure::Break,
            HighLevelControlFlow::Continue => Structure::Continue,
            HighLevelControlFlow::Goto(b) => Structure::Goto(*b),
        }
    }
}


/// The blocks that `t` records as immediately dominated by `b`.
pub open spec fn dom_children(t: &DominatorTree, b: int) -> Seq<BlockId> {
    if 0 <= b < t.children@.len() {
        t.children@[b]@
    } else {
        Seq::empty()
    }
}

/// Of two edges, the target of the first of kind `kind`.
pub open spec fn first_target(succ: Seq<CfgEdge>, kind: EdgeKind) -> Option<BlockId> {
    if succ[0].kind == kind {
        Some(succ[0].target)
    } else if succ[1].kind == kind {
        Some(succ[1].target)
    } else {
        None
    }
}

/// One back edge into a conditional with branches `tb` and `fb`, from
/// `src`: when `tb` dominates `src` the conditional is a loop; else when
/// `fb` does, it is a loop whose body is `fb` and whose exit is `tb`.
pub open spec fn loop_step(
    d: &DominanceInfo,
    tb: BlockId,
    fb: BlockId,
    st: (bool, BlockId, BlockId),
    src: BlockId,
) -> (bool, BlockId, BlockId) {
    if d.dominates_spec(tb as int, src as int) {
        (true, st.1, st.2)
    } else if d.dominates_spec(fb as int, src as int) {
        (true, fb, tb)
    } else {
        st
    }
}

/// `loop_step` over the first `k` edges of block `i` that lead back to `b`.
pub open spec fn scan_edges(
    g: &ControlFlowGraph,
    d: &DominanceInfo,
    tb: BlockId,
    fb: BlockId,
    b: BlockId,
    i: int,
    k: int,
    st: (bool, BlockId, BlockId),
) -> (bool, BlockId, BlockId)
    decreases k,
{
    if k <= 0 {
        st
    } else {
        let prev = scan_edges(g, d, tb, fb, b, i, k - 1, st);
        let e = g.blocks@[i].successors@[k - 1];
        if e.kind == EdgeKind::Back && e.target == b {
            loop_step(d, tb, fb, prev, g.blocks@[i].id)
        } else {
            prev
        }
    }
}

/// `loop_step` over the back edges to `b` of the first `i` blocks, in
/// order: whether the conditional `b` is a loop, its body and its exit.
pub open spec fn scan_blocks(
    g: &ControlFlowGraph,
    d: &DominanceInfo,
    tb: BlockId,
    fb: BlockId,
    b: BlockId,
    i: int,
) -> (bool, BlockId, BlockId)
    decreases i,
{
    if i <= 0 {
        (false, tb, fb)
    } else {
        scan_edges(
            g,
            d,
            tb,
            fb,
            b,
            i - 1,
            g.blocks@[i - 1].successors@.len() as int,
            scan_blocks(g, d, tb, fb, b, i - 1),
        )
    }
}

/// A construct of two parts, one after the other.
pub open spec fn seq2(a: Structure, b: Structure) -> Structure {
    Structure::Sequence(seq![a, b])
}

/// A construct of three parts, one after the other.
pub open spec fn seq3(a: Structure, b: Structure, c: Structure) -> Structure {
    Structure::Sequence(seq![a, b, c])
}

/// Structures block `b`, given the blocks visited so far: a block already
/// visited becomes a jump to it. Otherwise the block is marked visited and
/// read by its outgoing edges: none, a block; one, the block followed by
/// the structure of its target when it immediately dominates that target
/// over an edge that is not a back edge, else by a jump; a true and a false
/// edge, a loop when a back edge into the block comes from a block that a
/// branch dominates, else a conditional whose branches are structured when
/// the block immediately dominates them; anything else, the block alone.
/// `fuel` bounds the depth of the walk. The result holds the construct and
/// the blocks visited after it.
pub open spec fn visit_spec(
    g: &ControlFlowGraph,
    t: &DominatorTree,
    d: &DominanceInfo,
    b: BlockId,
    v: Seq<bool>,
    fuel: nat,
) -> (Structure, Seq<bool>)
    decreases fuel,
{
    if fuel == 0 || !(b < v.len()) || !(b < g.blocks@.len()) || v[b as int] {
        (Structure::Goto(b), v)
    } else {
        let v1 = v.update(b as int, true);
        let succ = g.blocks@[b as int].successors@;
        let kids = dom_children(t, b as int);
        let f = (fuel - 1) as nat;
        let blk = Structure::Block(b);
        if succ.len() == 0 {
            (blk, v1)
        } else if succ.len() == 1 {
            let next = succ[0].target;
            if succ[0].kind == EdgeKind::Back || !kids.contains(next) {
                (seq2(blk, Structure::Goto(next)), v1)
            } else {
                let (r, v2) = visit_spec(g, t, d, next, v1, f);
                (seq2(blk, r), v2)
            }
        } else if succ.len() == 2 {
            match (first_target(succ, EdgeKind::True), first_target(succ, EdgeKind::False)) {
                (Some(tb), Some(fb)) => {
                    let (is_while, body, exit) = scan_blocks(
                        g,
                        d,
                        tb,
                        fb,
                        b,
                        g.blocks@.len() as int,
                    );
                    if is_while {
                        let (body_s, v2) = visit_spec(g, t, d, body, v1, f);
                        let w = Structure::While { cond: b, body: Box::new(body_s) };
                        if exit < v2.len() && v2[exit as int] {
                            (Structure::Sequence(seq![w]), v2)
                        } else {
                            let (exit_s, v3) = visit_spec(g, t, d, exit, v2, f);
                            (seq2(w, exit_s), v3)
                        }
                    } else {
                        let t_dom = kids.contains(tb);
                        let f_dom = kids.contains(fb);
                        if t_dom && f_dom {
                            let (ts, v2) = visit_spec(g, t, d, tb, v1, f);
                            let (fs, v3) = visit_spec(g, t, d, fb, v2, f);
                            (
                                seq2(
                                    blk,
                                    Structure::IfElse {
                                        cond: b,
                                        then_branch: Box::new(ts),
                                        else_branch: Box::new(fs),
                                    },
                                ),
                                v3,
                            )
                        } else if t_dom || f_dom {
                            let (inner, other) = if t_dom {
                                (tb, fb)
                            } else {
                                (fb, tb)
                            };
                            let (is, v2) = visit_spec(g, t, d, inner, v1, f);
                            let c = Structure::If { cond: b, then_branch: Box::new(is) };
                            if other < v2.len() && v2[other as int] {
                                (seq2(blk, c), v2)
                            } else {
                                let (os, v3) = visit_spec(g, t, d, other, v2, f);
                                (seq3(blk, c, os), v3)
                            }
                        } else {
                            (
                                seq2(
                                    blk,
                                    Structure::IfElse {
                                        cond: b,
                                        then_branch: Box::new(Structure::Goto(tb)),
                                        else_branch: Box::new(Structure::Goto(fb)),
                                    },
                                ),
                                v1,
                            )
                        }
                    }
                },
                _ => (seq3(blk, Structure::Goto(succ[0].target), Structure::Goto(succ[1].target)), v1),
            }
        } else {
            (blk, v1)
        }
    }
}

/// The structure of the whole graph: that of the entry block with nothing
/// visited yet, and an empty sequence when there is no entry.
pub open spec fn structure_of(g: &ControlFlowGraph, t: &DominatorTree, d: &DominanceInfo) -> Structure {
    match g.entry {
        Some(e) => visit_spec(
            g,
            t,
            d,
            e,
            Seq::new(g.blocks@.len(), |i: int| false),
            (g.blocks@.len() + 1) as nat,
        ).0,
        None => Structure::Sequence(Seq::empty()),
    }
}

/// The block a construct starts with.
pub open spec fn structure_head(s: Structure) -> Option<BlockId>
    decreases s,
{
    match s {
        Structure::Sequence(items) => if items.len() > 0 {
            structure_head(items[0])
        } else {
            None
        },
        Structure::Block(b) => Some(b),
        Structure::If { cond, .. } => Some(cond),
        Structure::IfElse { cond, .. } => Some(cond),
        Structure::While { cond, .. } => Some(cond),
        Structure::DoWhile { body, .. } => structure_head(*body),
        Structure::Goto(b) => Some(b),
        _ => None,
    }
}

/// Some block of `g` has a back edge into `b` and `h` dominates it.
pub open spec fn dominates_back_edge_source(g: &ControlFlowGraph, d: &DominanceInfo, b: BlockId, h: BlockId) -> bool {
    exists|i: int, k: int|
        0 <= i < g.blocks@.len() && 0 <= k < g.blocks@[i].successors@.len() && (#[trigger] g.blocks@[i].successors@[k]).kind
            == EdgeKind::Back && g.blocks@[i].successors@[k].target == b && d.dominates_spec(
            h as int,
            g.blocks@[i].id as int,
        )
}

/// Among the first `i` blocks, one has a back edge into `b` whose source
/// `h1` or `h2` dominates.
pub open spec fn back_edge_source_dominated_upto(
    g: &ControlFlowGraph,
    d: &DominanceInfo,
    b: BlockId,
    h1: BlockId,
    h2: BlockId,
    i: int,
) -> bool {
    exists|i2: int, k: int|
        0 <= i2 < i && 0 <= k < g.blocks@[i2].successors@.len() && (#[trigger] g.blocks@[i2].successors@[k]).kind
            == EdgeKind::Back && g.blocks@[i2].successors@[k].target == b && (d.dominates_spec(
            h1 as int,
            g.blocks@[i2].id as int,
        ) || d.dominates_spec(h2 as int, g.blocks@[i2].id as int))
}

/// What the scan of back edges into `b` over the first `i` blocks
/// decides: the body and exit are the two branches, in either order, the
/// true branch first unless it is a loop; and when it is a loop, its body
/// dominates the source of one of those back edges.
proof fn lemma_scan_blocks_shape(g: &ControlFlowGraph, d: &DominanceInfo, tb: BlockId, fb: BlockId, b: BlockId, i: int)
    requires
        0 <= i <= g.blocks@.len(),
    ensures
        ({
            let st = scan_blocks(g, d, tb, fb, b, i);
            &&& (st.1 == tb && st.2 == fb) || (st.1 == fb && st.2 == tb)
            &&& !st.0 ==> st.1 == tb && st.2 == fb
            &&& st.0 ==> dominates_back_edge_source(g, d, b, st.1)
            &&& st.0 <==> back_edge_source_dominated_upto(g, d, b, tb, fb, i)
        }),
    decreases i,
{
    if i > 0 {
        lemma_scan_blocks_shape(g, d, tb, fb, b, i - 1);
        lemma_scan_edges_loop(g, d, tb, fb, b, i - 1, g.blocks@[i - 1].successors@.len() as int, scan_blocks(
            g,
            d,
            tb,
            fb,
            b,
            i - 1,
        ));
        if back_edge_source_dominated_upto(g, d, b, tb, fb, i) {
            let (i2, k) = choose|i2: int, k: int|
                0 <= i2 < i && 0 <= k < g.blocks@[i2].successors@.len() && (#[trigger] g.blocks@[i2].successors@[k]).kind
                    == EdgeKind::Back && g.blocks@[i2].successors@[k].target == b && (d.dominates_spec(
                    tb as int,
                    g.blocks@[i2].id as int,
                ) || d.dominates_spec(fb as int, g.blocks@[i2].id as int));
            if i2 < i - 1 {
                assert(back_edge_source_dominated_upto(g, d, b, tb, fb, i - 1));
            }
        }
        if back_edge_source_dominated_upto(g, d, b, tb, fb, i - 1) {
            let (i2, k) = choose|i2: int, k: int|
                0 <= i2 < i - 1 && 0 <= k < g.blocks@[i2].successors@.len() && (#[trigger] g.blocks@[i2].successors@[k]).kind
                    == EdgeKind::Back && g.blocks@[i2].successors@[k].target == b && (d.dominates_spec(
                    tb as int,
                    g.blocks@[i2].id as int,
                ) || d.dominates_spec(fb as int, g.blocks@[i2].id as int));
            assert(back_edge_source_dominated_upto(g, d, b, tb, fb, i));
        }
        lemma_scan_edges_shape(
            g,
            d,
            tb,
            fb,
            b,
            i - 1,
            g.blocks@[i - 1].successors@.len() as int,
            scan_blocks(g, d, tb, fb, b, i - 1),
        );
    }
}

proof fn lemma_scan_edges_shape(
    g: &ControlFlowGraph,
    d: &DominanceInfo,
    tb: BlockId,
    fb: BlockId,
    b: BlockId,
    i: int,
    k: int,
    st: (bool, BlockId, BlockId),
)
    requires
        0 <= i < g.blocks@.len(),
        0 <= k <= g.blocks@[i].successors@.len(),
        (st.1 == tb && st.2 == fb) || (st.1 == fb && st.2 == tb),
        !st.0 ==> st.1 == tb && st.2 == fb,
        st.0 ==> dominates_back_edge_source(g, d, b, st.1),
    ensures
        ({
            let r = scan_edges(g, d, tb, fb, b, i, k, st);
            &&& (r.1 == tb && r.2 == fb) || (r.1 == fb && r.2 == tb)
            &&& !r.0 ==> r.1 == tb && r.2 == fb
            &&& r.0 ==> dominates_back_edge_source(g, d, b, r.1)
        }),
    decreases k,
{
    if k > 0 {
        lemma_scan_edges_shape(g, d, tb, fb, b, i, k - 1, st);
        let prev = scan_edges(g, d, tb, fb, b, i, k - 1, st);
        let e = g.blocks@[i].successors@[k - 1];
        if e.kind == EdgeKind::Back && e.target == b {
            let src = g.blocks@[i].id;
            if d.dominates_spec(tb as int, src as int) {
                if !prev.0 {
                    assert(g.blocks@[i].successors@[k - 1] == e);
                    assert(dominates_back_edge_source(g, d, b, tb));
                }
            } else if d.dominates_spec(fb as int, src as int) {
                assert(g.blocks@[i].successors@[k - 1] == e);
                assert(dominates_back_edge_source(g, d, b, fb));
            }
        }
    }
}

/// Scanning the first `k` edges of block `i` ends in a loop exactly when it
/// started in one or one of those edges is a back edge into `b` whose
/// source a branch dominates.
proof fn lemma_scan_edges_loop(
    g: &ControlFlowGraph,
    d: &DominanceInfo,
    tb: BlockId,
    fb: BlockId,
    b: BlockId,
    i: int,
    k: int,
    st: (bool, BlockId, BlockId),
)
    requires
        0 <= i < g.blocks@.len(),
        0 <= k <= g.blocks@[i].successors@.len(),
    ensures
        scan_edges(g, d, tb, fb, b, i, k, st).0 <==> st.0 || exists|k2: int|
            0 <= k2 < k && (#[trigger] g.blocks@[i].successors@[k2]).kind == EdgeKind::Back
                && g.blocks@[i].successors@[k2].target == b && (d.dominates_spec(tb as int, g.blocks@[i].id as int)
                || d.dominates_spec(fb as int, g.blocks@[i].id as int)),
    decreases k,
{
    if k > 0 {
        lemma_scan_edges_loop(g, d, tb, fb, b, i, k - 1, st);
        let e = g.blocks@[i].successors@[k - 1];
        if e.kind == EdgeKind::Back && e.target == b && (d.dominates_spec(tb as int, g.blocks@[i].id as int)
            || d.dominates_spec(fb as int, g.blocks@[i].id as int)) {
            assert(g.blocks@[i].successors@[k - 1] == e);
        }
    }
}

/// Every construct the walk produces for a block starts with that block.
pub proof fn lemma_visit_head(g: &ControlFlowGraph, t: &DominatorTree, d: &DominanceInfo, x: BlockId, v: Seq<bool>, fuel: nat)
    ensures
        structure_head(visit_spec(g, t, d, x, v, fuel).0) == Some(x),
{
    let s = visit_spec(g, t, d, x, v, fuel).0;
    lemma_visit_first(g, t, d, x, v, fuel);
    if let Structure::Sequence(items) = s {
        assert(structure_head(items[0]) == Some(x));
    }
}

proof fn lemma_visit_first(g: &ControlFlowGraph, t: &DominatorTree, d: &DominanceInfo, x: BlockId, v: Seq<bool>, fuel: nat)
    ensures
        ({
            let s = visit_spec(g, t, d, x, v, fuel).0;
            ||| s == Structure::Goto(x)
            ||| s == Structure::Block(x)
            ||| (s matches Structure::Sequence(items) && items.len() > 0 && (items[0] == Structure::Block(x) || (
                items[0] matches Structure::While { cond, .. } && cond == x)))
        }),
{
}

/// Where the walk structures block `b` as a while loop, the loop body
/// starts with the branch of `b` that dominates the source of a back edge
/// into `b` (the branch that stays in the loop), and what follows the loop
/// starts with the other branch.
pub proof fn law_while_body_is_the_looping_branch(
    g: &ControlFlowGraph,
    t: &DominatorTree,
    d: &DominanceInfo,
    b: BlockId,
    v: Seq<bool>,
    fuel: nat,
)
    ensures
        ({
            let s = visit_spec(g, t, d, b, v, fuel).0;
            (s matches Structure::Sequence(items) && items.len() > 0 && items[0] is While) ==> {
                let items = s->Sequence_0;
                let succ = g.blocks@[b as int].successors@;
                &&& items[0]->While_cond == b
                &&& b < g.blocks@.len() && succ.len() == 2
                &&& first_target(succ, EdgeKind::True) is Some && first_target(succ, EdgeKind::False) is Some
                &&& structure_head(*items[0]->While_body) matches Some(h) && {
                    let tb = first_target(succ, EdgeKind::True)->0;
                    let fb = first_target(succ, EdgeKind::False)->0;
                    &&& h == tb || h == fb
                    &&& dominates_back_edge_source(g, d, b, h)
                    &&& items.len() > 1 ==> structure_head(items[1]) == Some(if h == tb { fb } else { tb })
                }
            }
        }),
{
    let s = visit_spec(g, t, d, b, v, fuel).0;
    if fuel == 0 || !(b < v.len()) || !(b < g.blocks@.len()) || v[b as int] {
        return;
    }
    let v1 = v.update(b as int, true);
    let succ = g.blocks@[b as int].successors@;
    let f = (fuel - 1) as nat;
    if succ.len() == 2 {
        if let (Some(tb), Some(fb)) = (first_target(succ, EdgeKind::True), first_target(succ, EdgeKind::False)) {
            let (is_while, body, exit) = scan_blocks(g, d, tb, fb, b, g.blocks@.len() as int);
            lemma_scan_blocks_shape(g, d, tb, fb, b, g.blocks@.len() as int);
            if is_while {
                let (body_s, v2) = visit_spec(g, t, d, body, v1, f);
                lemma_visit_head(g, t, d, body, v1, f);
                if !(exit < v2.len() && v2[exit as int]) {
                    lemma_visit_head(g, t, d, exit, v2, f);
                }
                let items = s->Sequence_0;
                assert(structure_head(*items[0]->While_body) == Some(body));
                assert(dominates_back_edge_source(g, d, b, body));
            }
        }
    }
}

/// A block walked for the first time whose true and false edges lead to
/// branches of which one dominates the source of a back edge into it is
/// structured as a while loop on it; one where neither does is not.
pub proof fn law_loop_header_becomes_while(
    g: &ControlFlowGraph,
    t: &DominatorTree,
    d: &DominanceInfo,
    b: BlockId,
    v: Seq<bool>,
    fuel: nat,
)
    requires
        fuel > 0,
        b < v.len(),
        b < g.blocks@.len(),
        !v[b as int],
        g.blocks@[b as int].successors@.len() == 2,
        first_target(g.blocks@[b as int].successors@, EdgeKind::True) is Some,
        first_target(g.blocks@[b as int].successors@, EdgeKind::False) is Some,
    ensures
        ({
            let succ = g.blocks@[b as int].successors@;
            let tb = first_target(succ, EdgeKind::True)->0;
            let fb = first_target(succ, EdgeKind::False)->0;
            let s = visit_spec(g, t, d, b, v, fuel).0;
            (s matches Structure::Sequence(items) && items.len() > 0 && items[0] is While)
                <==> back_edge_source_dominated_upto(g, d, b, tb, fb, g.blocks@.len() as int)
        }),
{
    let succ = g.blocks@[b as int].successors@;
    let tb = first_target(succ, EdgeKind::True)->0;
    let fb = first_target(succ, EdgeKind::False)->0;
    lemma_scan_blocks_shape(g, d, tb, fb, b, g.blocks@.len() as int);
    let v1 = v.update(b as int, true);
    let f = (fuel - 1) as nat;
    let (is_while, body, exit) = scan_blocks(g, d, tb, fb, b, g.blocks@.len() as int);
    if is_while {
        let (body_s, v2) = visit_spec(g, t, d, body, v1, f);
        if !(exit < v2.len() && v2[exit as int]) {
            let (exit_s, v3) = visit_spec(g, t, d, exit, v2, f);
        }
    }
}

proof fn lemma_structure_seq(r: HighLevelControlFlow, parts: Seq<Structure>)
    requires
        r matches HighLevelControlFlow::Sequence(items) && items@.len() == parts.len() && forall|i: int|
            0 <= i < parts.len() ==> #[trigger] items@[i].structure() == parts[i],
    ensures
        r.structure() == Structure::Sequence(parts),
{
    if let HighLevelControlFlow::Sequence(items) = r {
        let ps = r.structure()->Sequence_0;
        assert(ps.len() == parts.len());
        assert forall|i: int| 0 <= i < parts.len() implies ps[i] == parts[i] by {
            assert(items@[i].structure() == parts[i]);
        };
        assert(ps =~= parts);
    }
}

/// The lists of `ss`, one after another.
pub open spec fn flat_heads(ss: Seq<Seq<BlockId>>) -> Seq<BlockId>
    decreases ss.len(),
{
    if ss.len() == 0 {
        Seq::empty()
    } else {
        flat_heads(ss.drop_last()) + ss.last()
    }
}

/// The blocks each of `items` structures.
pub open spec fn heads_items(items: Seq<Structure>) -> Seq<Seq<BlockId>>
    decreases items,
{
    Seq::new(
        items.len(),
        |i: int|
            if 0 <= i < items.len() {
                heads(items[i])
            } else {
                Seq::empty()
            },
    )
}

/// The blocks a construct structures, in order: each block it executes
/// as a `Block` and each loop it tests; a conditional's test is the
/// `Block` before it.
pub open spec fn heads(s: Structure) -> Seq<BlockId>
    decreases s,
{
    match s {
        Structure::Sequence(items) => flat_heads(heads_items(items)),
        Structure::Block(b) => seq![b],
        Structure::If { then_branch, .. } => heads(*then_branch),
        Structure::IfElse { then_branch, else_branch, .. } => heads(*then_branch) + heads(
            *else_branch,
        ),
        Structure::While { cond, body } => seq![cond] + heads(*body),
        Structure::DoWhile { body, cond } => seq![cond] + heads(*body),
        _ => Seq::empty(),
    }
}

proof fn lemma_heads_seq(parts: Seq<Structure>)
    requires
        1 <= parts.len() <= 3,
    ensures
        heads(Structure::Sequence(parts)) == if parts.len() == 1 {
            heads(parts[0])
        } else if parts.len() == 2 {
            heads(parts[0]) + heads(parts[1])
        } else {
            heads(parts[0]) + heads(parts[1]) + heads(parts[2])
        },
{
    let ss = heads_items(parts);
    assert(heads(Structure::Sequence(parts)) == flat_heads(ss));
    assert(ss.len() == parts.len());
    assert(ss[0] == heads(parts[0]));
    if parts.len() >= 2 {
        assert(ss[1] == heads(parts[1]));
    }
    if parts.len() >= 3 {
        assert(ss[2] == heads(parts[2]));
    }
    let s0 = ss.take(0);
    let s1 = ss.take(1);
    let s2 = ss.take(2);
    assert(s0 =~= Seq::<Seq<BlockId>>::empty());
    assert(flat_heads(s0) == Seq::<BlockId>::empty());
    assert(s1.drop_last() =~= s0);
    assert(flat_heads(s1) == flat_heads(s0) + s1.last());
    assert(flat_heads(s1) =~= heads(parts[0]));
    if parts.len() == 1 {
        assert(ss =~= s1);
    } else {
        assert(s2.drop_last() =~= s1);
        assert(flat_heads(s2) == flat_heads(s1) + s2.last());
        assert(flat_heads(s2) =~= heads(parts[0]) + heads(parts[1]));
        if parts.len() == 2 {
            assert(ss =~= s2);
        } else {
            assert(ss.drop_last() =~= s2);
            assert(flat_heads(ss) == flat_heads(s2) + ss.last());
        }
    }
}

/// `a` lists distinct blocks that were not visited in `v` and are in
/// `v2`, and the blocks visited only grow from `v` to `v2`.
pub open spec fn fresh_list(v: Seq<bool>, a: Seq<BlockId>, v2: Seq<bool>) -> bool {
    &&& v2.len() == v.len()
    &&& forall|x: int| 0 <= x < v.len() && v[x] ==> #[trigger] v2[x]
    &&& a.no_duplicates()
    &&& forall|i: int|
        0 <= i < a.len() ==> (a[i] as int) < v.len() && !v[a[i] as int] && v2[#[trigger] a[i] as int]
}

proof fn lemma_fresh_concat(v: Seq<bool>, a: Seq<BlockId>, v1: Seq<bool>, b: Seq<BlockId>, v2: Seq<bool>)
    requires
        fresh_list(v, a, v1),
        fresh_list(v1, b, v2),
    ensures
        fresh_list(v, a + b, v2),
{
    assert forall|i: int, j: int| 0 <= i < j < (a + b).len() implies (a + b)[i] != (a + b)[j] by {
        if j < a.len() {
        } else if i >= a.len() {
            assert(b[i - a.len()] != b[j - a.len()]);
        } else {
            assert(v1[a[i] as int]);
            assert(!v1[b[j - a.len()] as int]);
        }
    };
    assert forall|i: int| 0 <= i < (a + b).len() implies ((a + b)[i] as int) < v.len() && !v[(a + b)[i] as int]
        && v2[#[trigger] (a + b)[i] as int] by {
        if i < a.len() {
            assert((a + b)[i] == a[i]);
        } else {
            assert((a + b)[i] == b[i - a.len()]);
            if v[b[i - a.len()] as int] {
                assert(v1[b[i - a.len()] as int]);
            }
        }
    };
}

proof fn lemma_fresh_empty(v: Seq<bool>, v2: Seq<bool>)
    requires
        v2.len() == v.len(),
        forall|x: int| 0 <= x < v.len() && v[x] ==> #[trigger] v2[x],
    ensures
        fresh_list(v, Seq::empty(), v2),
{
}

/// Structuring a block marks it and the blocks structured under it as
/// visited, structures none that was visited before, and none twice.
proof fn lemma_visit_fresh(
    g: &ControlFlowGraph,
    t: &DominatorTree,
    d: &DominanceInfo,
    b: BlockId,
    v: Seq<bool>,
    fuel: nat,
)
    requires
        g.wf(),
        v.len() == g.blocks@.len(),
    ensures
        fresh_list(v, heads(visit_spec(g, t, d, b, v, fuel).0), visit_spec(g, t, d, b, v, fuel).1),
    decreases fuel,
{
    let n = g.blocks@.len();
    if fuel == 0 || !(b < v.len()) || !(b < g.blocks@.len()) || v[b as int] {
        lemma_fresh_empty(v, v);
    } else {
        let v1 = v.update(b as int, true);
        let succ = g.blocks@[b as int].successors@;
        let kids = dom_children(t, b as int);
        let f = (fuel - 1) as nat;
        let blk = Structure::Block(b);
        assert forall|k: int| 0 <= k < succ.len() implies #[trigger] succ[k].target < n by {
            assert(g.blocks@[b as int].successors@[k].target < n);
        };
        assert(fresh_list(v, seq![b], v1));
        assert(heads(blk) == seq![b]);
        if succ.len() == 0 {
        } else if succ.len() == 1 {
            let next = succ[0].target;
            if succ[0].kind == EdgeKind::Back || !kids.contains(next) {
                lemma_heads_seq(seq![blk, Structure::Goto(next)]);
                assert(seq![b] + Seq::<BlockId>::empty() =~= seq![b]);
            } else {
                let (r, v2) = visit_spec(g, t, d, next, v1, f);
                lemma_visit_fresh(g, t, d, next, v1, f);
                lemma_heads_seq(seq![blk, r]);
                lemma_fresh_concat(v, seq![b], v1, heads(r), v2);
            }
        } else if succ.len() == 2 {
            match (first_target(succ, EdgeKind::True), first_target(succ, EdgeKind::False)) {
                (Some(tb), Some(fb)) => {
                    let (is_while, body, exit) = scan_blocks(g, d, tb, fb, b, n as int);
                    if is_while {
                        let (body_s, v2) = visit_spec(g, t, d, body, v1, f);
                        lemma_visit_fresh(g, t, d, body, v1, f);
                        let w = Structure::While { cond: b, body: Box::new(body_s) };
                        lemma_fresh_concat(v, seq![b], v1, heads(body_s), v2);
                        assert(heads(w) == seq![b] + heads(body_s));
                        if exit < v2.len() && v2[exit as int] {
                            lemma_heads_seq(seq![w]);
                        } else {
                            let (exit_s, v3) = visit_spec(g, t, d, exit, v2, f);
                            lemma_visit_fresh(g, t, d, exit, v2, f);
                            lemma_heads_seq(seq![w, exit_s]);
                            lemma_fresh_concat(v, heads(w), v2, heads(exit_s), v3);
                        }
                    } else {
                        let t_dom = kids.contains(tb);
                        let f_dom = kids.contains(fb);
                        if t_dom && f_dom {
                            let (ts, v2) = visit_spec(g, t, d, tb, v1, f);
                            lemma_visit_fresh(g, t, d, tb, v1, f);
                            let (fs, v3) = visit_spec(g, t, d, fb, v2, f);
                            lemma_visit_fresh(g, t, d, fb, v2, f);
                            let c = Structure::IfElse {
                                cond: b,
                                then_branch: Box::new(ts),
                                else_branch: Box::new(fs),
                            };
                            lemma_heads_seq(seq![blk, c]);
                            lemma_fresh_concat(v1, heads(ts), v2, heads(fs), v3);
                            lemma_fresh_concat(v, seq![b], v1, heads(c), v3);
                        } else if t_dom || f_dom {
                            let (inner, other) = if t_dom {
                                (tb, fb)
                            } else {
                                (fb, tb)
                            };
                            let (is, v2) = visit_spec(g, t, d, inner, v1, f);
                            lemma_visit_fresh(g, t, d, inner, v1, f);
                            let c = Structure::If { cond: b, then_branch: Box::new(is) };
                            lemma_fresh_concat(v, seq![b], v1, heads(c), v2);
                            if other < v2.len() && v2[other as int] {
                                lemma_heads_seq(seq![blk, c]);
                            } else {
                                let (os, v3) = visit_spec(g, t, d, other, v2, f);
                                lemma_visit_fresh(g, t, d, other, v2, f);
                                lemma_heads_seq(seq![blk, c, os]);
                                lemma_fresh_concat(v, seq![b] + heads(c), v2, heads(os), v3);
                            }
                        } else {
                            let c = Structure::IfElse {
                                cond: b,
                                then_branch: Box::new(Structure::Goto(tb)),
                                else_branch: Box::new(Structure::Goto(fb)),
                            };
                            lemma_heads_seq(seq![blk, c]);
                            assert(heads(Structure::Goto(tb)) == Seq::<BlockId>::empty());
                            assert(heads(Structure::Goto(fb)) == Seq::<BlockId>::empty());
                            assert(heads(c) =~= Seq::<BlockId>::empty());
                            assert(seq![b] + heads(c) =~= seq![b]);
                        }
                    }
                },
                _ => {
                    lemma_heads_seq(
                        seq![blk, Structure::Goto(succ[0].target), Structure::Goto(succ[1].target)],
                    );
                    assert(seq![b] + Seq::<BlockId>::empty() + Seq::<BlockId>::empty() =~= seq![b]);
                },
            }
        } else {
        }
    }
}

/// Structuring never structures a block twice: the blocks that the
/// result executes as a `Block` or tests as a loop are distinct blocks of
/// the graph.
pub proof fn law_structure_heads_distinct(g: &ControlFlowGraph, t: &DominatorTree, d: &DominanceInfo)
    requires
        g.wf(),
    ensures
        heads(structure_of(g, t, d)).no_duplicates(),
        forall|i: int|
            0 <= i < heads(structure_of(g, t, d)).len() ==> (#[trigger] heads(structure_of(g, t, d))[i] as int)
                < g.blocks@.len(),
{
    match g.entry {
        Some(e) => {
            let v = Seq::new(g.blocks@.len(), |i: int| false);
            lemma_visit_fresh(g, t, d, e, v, (g.blocks@.len() + 1) as nat);
        },
        None => {
            assert(heads(Structure::Sequence(Seq::empty())) =~= Seq::<BlockId>::empty()) by {
                assert(heads_items(Seq::<Structure>::empty()) =~= Seq::<Seq<BlockId>>::empty());
            };
        },
    }
}

/// Whether `t` records `x` as immediately dominated by `b`.
fn children_contain(t: &DominatorTree, b: BlockId, x: BlockId) -> (r: bool)
    ensures
        r == dom_children(t, b as int).contains(x),
{
    if (b as usize) >= t.children.len() {
        return false;
    }
    let kids = &t.children[b as usize];
    let mut i: usize = 0;
    while i < kids.len()
        invariant
            kids@ == dom_children(t, b as int),
            i <= kids@.len(),
            forall|j: int| 0 <= j < i ==> kids@[j] != x,
        decreases kids@.len() - i,
    {
        if kids[i] == x {
            return true;
        }
        i = i + 1;
    }
    false
}

/// Of two edges, the target of the first of kind `kind`.
fn first_target_of(succ: &Vec<CfgEdge>, kind: EdgeKind) -> (r: Option<BlockId>)
    requires
        succ@.len() == 2,
    ensures
        r == first_target(succ@, kind),
{
    if succ[0].kind == kind {
        Some(succ[0].target)
    } else if succ[1].kind == kind {
        Some(succ[1].target)
    } else {
        None
    }
}

/// Whether the conditional `b`, with branches `tb` and `fb`, is a loop, and
/// its body and exit.
fn scan_back_edges(
    g: &ControlFlowGraph,
    d: &DominanceInfo,
    tb: BlockId,
    fb: BlockId,
    b: BlockId,
) -> (r: (bool, BlockId, BlockId))
    ensures
        r == scan_blocks(g, d, tb, fb, b, g.blocks@.len() as int),
{
    let mut st: (bool, BlockId, BlockId) = (false, tb, fb);
    let mut i: usize = 0;
    while i < g.blocks.len()
        invariant
            i <= g.blocks@.len(),
            st == scan_blocks(g, d, tb, fb, b, i as int),
        decreases g.blocks@.len() - i,
    {
        let ghost st0 = st;
        let succ = &g.blocks[i].successors;
        let src = g.blocks[i].id;
        let mut k: usize = 0;
        while k < succ.len()
            invariant
                i < g.blocks@.len(),
                succ@ == g.blocks@[i as int].successors@,
                src == g.blocks@[i as int].id,
                k <= succ@.len(),
                st0 == scan_blocks(g, d, tb, fb, b, i as int),
                st == scan_edges(g, d, tb, fb, b, i as int, k as int, st0),
            decreases succ@.len() - k,
        {
            let e = succ[k];
            if e.kind == EdgeKind::Back && e.target == b {
                if d.dominates(tb, src) {
                    st = (true, st.1, st.2);
                } else if d.dominates(fb, src) {
                    st = (true, fb, tb);
                }
            }
            k = k + 1;
        }
        i = i + 1;
    }
    st
}


proof fn lemma_scan_edges_branches(
    g: &ControlFlowGraph,
    d: &DominanceInfo,
    tb: BlockId,
    fb: BlockId,
    b: BlockId,
    i: int,
    k: int,
    st: (bool, BlockId, BlockId),
)
    requires
        (st.1 == tb && st.2 == fb) || (st.1 == fb && st.2 == tb),
    ensures
        ({
            let r = scan_edges(g, d, tb, fb, b, i, k, st);
            (r.1 == tb && r.2 == fb) || (r.1 == fb && r.2 == tb)
        }),
    decreases k,
{
    if k > 0 {
        lemma_scan_edges_branches(g, d, tb, fb, b, i, k - 1, st);
    }
}

/// A loop's body and exit are the two branches, one way round or the other.
proof fn lemma_scan_branches(
    g: &ControlFlowGraph,
    d: &DominanceInfo,
    tb: BlockId,
    fb: BlockId,
    b: BlockId,
    i: int,
)
    ensures
        ({
            let r = scan_blocks(g, d, tb, fb, b, i);
            (r.1 == tb && r.2 == fb) || (r.1 == fb && r.2 == tb)
        }),
    decreases i,
{
    if i > 0 {
        lemma_scan_branches(g, d, tb, fb, b, i - 1);
        lemma_scan_edges_branches(
            g,
            d,
            tb,
            fb,
            b,
            i - 1,
            g.blocks@[i - 1].successors@.len() as int,
            scan_blocks(g, d, tb, fb, b, i - 1),
        );
    }
}

/// Structures block `b` as `visit_spec` says, marking the blocks it visits.
fn visit(
    g: &ControlFlowGraph,
    t: &DominatorTree,
    d: &DominanceInfo,
    b: BlockId,
    visited: &mut Vec<bool>,
    Ghost(fuel): Ghost<nat>,
) -> (r: HighLevelControlFlow)
    requires
        g.wf(),
        b < g.blocks@.len(),
        old(visited)@.len() == g.blocks@.len(),
        fuel > g.blocks@.len() - count_true(old(visited)@),
    ensures
        final(visited)@.len() == g.blocks@.len(),
        count_true(final(visited)@) >= count_true(old(visited)@),
        (r.structure(), final(visited)@) == visit_spec(g, t, d, b, old(visited)@, fuel),
    decreases fuel,
{
    let ghost v0 = visited@;
    let ghost n = g.blocks@.len();
    proof {
        lemma_count_true_bound(v0);
    }
    if visited[b as usize] {
        return HighLevelControlFlow::Goto(b);
    }
    proof {
        lemma_count_true_set(v0, b as int);
        lemma_count_true_bound(v0.update(b as int, true));
    }
    visited.set(b as usize, true);
    let ghost f = (fuel - 1) as nat;
    let succ = &g.blocks[b as usize].successors;
    let m = succ.len();
    proof {
        assert forall|k: int| 0 <= k < m implies #[trigger] succ@[k].target < n by {
            assert(g.blocks@[b as int].successors@[k].target < n);
        };
    }
    if m == 0 {
        HighLevelControlFlow::Block(b)
    } else if m == 1 {
        let next = succ[0].target;
        if succ[0].kind == EdgeKind::Back || !children_contain(t, b, next) {
            let r = HighLevelControlFlow::Sequence(
                vec![HighLevelControlFlow::Block(b), HighLevelControlFlow::Goto(next)],
            );
            proof {
                lemma_structure_seq(r, seq![Structure::Block(b), Structure::Goto(next)]);
            }
            r
        } else {
            let inner = visit(g, t, d, next, visited, Ghost(f));
            let ghost is = inner.structure();
            let r = HighLevelControlFlow::Sequence(vec![HighLevelControlFlow::Block(b), inner]);
            proof {
                lemma_structure_seq(r, seq![Structure::Block(b), is]);
            }
            r
        }
    } else if m == 2 {
        let tbo = first_target_of(succ, EdgeKind::True);
        let fbo = first_target_of(succ, EdgeKind::False);
        match (tbo, fbo) {
            (Some(tb), Some(fb)) => {
                let (is_while, body, exit) = scan_back_edges(g, d, tb, fb, b);
                proof {
                    lemma_scan_branches(g, d, tb, fb, b, n as int);
                }
                if is_while {
                    let body_r = visit(g, t, d, body, visited, Ghost(f));
                    let ghost bs = body_r.structure();
                    let w = HighLevelControlFlow::While { cond: b, body: Box::new(body_r) };
                    let ghost ws = Structure::While { cond: b, body: Box::new(bs) };
                    if visited[exit as usize] {
                        let r = HighLevelControlFlow::Sequence(vec![w]);
                        proof {
                            lemma_structure_seq(r, seq![ws]);
                        }
                        r
                    } else {
                        let ex = visit(g, t, d, exit, visited, Ghost(f));
                        let ghost es = ex.structure();
                        let r = HighLevelControlFlow::Sequence(vec![w, ex]);
                        proof {
                            lemma_structure_seq(r, seq![ws, es]);
                        }
                        r
                    }
                } else {
                    let t_dom = children_contain(t, b, tb);
                    let f_dom = children_contain(t, b, fb);
                    if t_dom && f_dom {
                        let ta = visit(g, t, d, tb, visited, Ghost(f));
                        let ghost ts = ta.structure();
                        let fa = visit(g, t, d, fb, visited, Ghost(f));
                        let ghost fs = fa.structure();
                        let c = HighLevelControlFlow::IfElse {
                            cond: b,
                            then_branch: Box::new(ta),
                            else_branch: Box::new(fa),
                        };
                        let r = HighLevelControlFlow::Sequence(vec![HighLevelControlFlow::Block(b), c]);
                        proof {
                            lemma_structure_seq(
                                r,
                                seq![
                                    Structure::Block(b),
                                    Structure::IfElse {
                                        cond: b,
                                        then_branch: Box::new(ts),
                                        else_branch: Box::new(fs),
                                    },
                                ],
                            );
                        }
                        r
                    } else if t_dom || f_dom {
                        let (inner, other) = if t_dom {
                            (tb, fb)
                        } else {
                            (fb, tb)
                        };
                        let ia = visit(g, t, d, inner, visited, Ghost(f));
                        let ghost is = ia.structure();
                        let c = HighLevelControlFlow::If { cond: b, then_branch: Box::new(ia) };
                        let ghost cs = Structure::If { cond: b, then_branch: Box::new(is) };
                        if visited[other as usize] {
                            let r = HighLevelControlFlow::Sequence(vec![HighLevelControlFlow::Block(b), c]);
                            proof {
                                lemma_structure_seq(r, seq![Structure::Block(b), cs]);
                            }
                            r
                        } else {
                            let oa = visit(g, t, d, other, visited, Ghost(f));
                            let ghost os = oa.structure();
                            let r = HighLevelControlFlow::Sequence(
                                vec![HighLevelControlFlow::Block(b), c, oa],
                            );
                            proof {
                                lemma_structure_seq(r, seq![Structure::Block(b), cs, os]);
                            }
                            r
                        }
                    } else {
                        let gt = HighLevelControlFlow::Goto(tb);
                        let gf = HighLevelControlFlow::Goto(fb);
                        proof {
                            assert(gt.structure() == Structure::Goto(tb));
                            assert(gf.structure() == Structure::Goto(fb));
                        }
                        let c = HighLevelControlFlow::IfElse {
                            cond: b,
                            then_branch: Box::new(gt),
                            else_branch: Box::new(gf),
                        };
                        let r = HighLevelControlFlow::Sequence(vec![HighLevelControlFlow::Block(b), c]);
                        proof {
                            lemma_structure_seq(
                                r,
                                seq![
                                    Structure::Block(b),
                                    Structure::IfElse {
                                        cond: b,
                                        then_branch: Box::new(Structure::Goto(tb)),
                                        else_branch: Box::new(Structure::Goto(fb)),
                                    },
                                ],
                            );
                        }
                        r
                    }
                }
            },
            _ => {
                let r = HighLevelControlFlow::Sequence(
                    vec![
                        HighLevelControlFlow::Block(b),
                        HighLevelControlFlow::Goto(succ[0].target),
                        HighLevelControlFlow::Goto(succ[1].target),
                    ],
                );
                proof {
                    lemma_structure_seq(
                        r,
                        seq![
                            Structure::Block(b),
                            Structure::Goto(succ@[0].target),
                            Structure::Goto(succ@[1].target),
                        ],
                    );
                }
                r
            },
        }
    } else {
        HighLevelControlFlow::Block(b)
    }
}

/// Recovers loops, conditionals and sequences from `cfg`, starting at its
/// entry block, using the dominator tree `dom` and the dominance and back
/// edges that `dom_info` and `cfg` record.
pub fn structural_analysis(
    cfg: &ControlFlowGraph,
    dom: &DominatorTree,
    dom_info: &DominanceInfo,
) -> (r: HighLevelControlFlow)
    requires
        cfg.wf(),
    ensures
        r.structure() == structure_of(cfg, dom, dom_info),
{
    match cfg.entry {
        Some(e) => {
            let n = cfg.blocks.len();
            let mut visited: Vec<bool> = Vec::new();
            let mut i: usize = 0;
            while i < n
                invariant
                    i <= n,
                    visited@ == Seq::new(i as nat, |j: int| false),
                decreases n - i,
            {
                visited.push(false);
                i = i + 1;
                proof {
                    assert(visited@ =~= Seq::new(i as nat, |j: int| false));
                }
            }
            visit(cfg, dom, dom_info, e, &mut visited, Ghost((n + 1) as nat))
        },
        None => {
            let r = HighLevelControlFlow::Sequence(Vec::new());
            proof {
                lemma_structure_seq(r, Seq::empty());
            }
            r
        },
    }
}

} // verus!
