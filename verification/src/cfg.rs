//! Control-flow graph model: basic blocks numbered densely from zero, the
//! edges between them, and the control-transfer instructions that function
//! discovery inspects.

use vstd::prelude::*;

verus! {

/// Identifies a basic block; blocks are numbered densely from zero.
pub type BlockId = u32;

/// The shape of an address that a store writes through.
#[derive(Debug, Clone, Copy, PartialEq, Eq)]
pub enum StoreAddr {
    /// A register.
    Register,
    /// A sum whose left operand is a register.
    RegisterPlus,
    /// Any other address expression.
    Other,
}

/// The shape of a lifted instruction, as far as the analyses read it:
/// control transfers and stores.
#[derive(Debug, Clone, Copy, PartialEq, Eq)]
pub enum FlowInstr {
    /// A call; `target` is the constant target address, or `None` when the
    /// target is computed.
    Call { target: Option<u64> },
    /// An unconditional jump to an address.
    Goto { target: u64 },
    /// A two-way conditional branch.
    If { true_target: u64, false_target: u64 },
    /// A store to memory: the shape of its address, and the stored value
    /// when it is a constant.
    Store { addr: StoreAddr, value: Option<u64> },
    /// Any other instruction.
    Other,
}

/// The kind of a control-flow edge, as the analyses tell them apart.
#[derive(Debug, Clone, Copy, PartialEq, Eq, Structural)]
pub enum EdgeKind {
    /// Falls through or jumps unconditionally.
    Unconditional,
    /// Taken when a branch condition holds.
    True,
    /// Taken when a branch condition fails.
    False,
    /// Leads back to a block that dominates its source.
    Back,
}

/// A control-flow edge.
#[derive(Debug, Clone, Copy, PartialEq, Eq, Structural)]
pub struct CfgEdge {
    pub source: BlockId,
    pub target: BlockId,
    pub kind: EdgeKind,
}

/// A basic block: its address range, its instructions with their
/// addresses, and its outgoing edges and predecessors.
#[derive(Debug, Clone)]
pub struct BasicBlock {
    pub id: BlockId,
    pub start_addr: u64,
    pub end_addr: u64,
    pub instrs: Vec<FlowInstr>,
    pub instr_addrs: Vec<u64>,
    pub successors: Vec<CfgEdge>,
    pub predecessors: Vec<BlockId>,
}

/// A function's control-flow graph.
#[derive(Debug)]
pub struct ControlFlowGraph {
    pub blocks: Vec<BasicBlock>,
    pub entry: Option<BlockId>,
}

/// There is an edge from block `x` to block `y`: one of `x`'s outgoing
/// edges targets `y`.
pub open spec fn has_edge(g: &ControlFlowGraph, x: int, y: int) -> bool {
    &&& 0 <= x < g.blocks@.len()
    &&& exists|k: int|
        0 <= k < g.blocks@[x].successors@.len() && #[trigger] g.blocks@[x].successors@[k].target
            == y
}

/// Step `i` of `p` follows an edge.
pub open spec fn walk_step(g: &ControlFlowGraph, p: Seq<int>, i: int) -> bool {
    has_edge(g, p[i], p[i + 1])
}

/// `p` is a non-empty sequence of blocks, each joined to the next by an
/// edge.
pub open spec fn is_walk(g: &ControlFlowGraph, p: Seq<int>) -> bool {
    &&& p.len() >= 1
    &&& forall|i: int| 0 <= i < p.len() - 1 ==> #[trigger] walk_step(g, p, i)
}

/// `p` is a path from the entry block to block `b`.
pub open spec fn is_entry_path(g: &ControlFlowGraph, p: Seq<int>, b: int) -> bool {
    &&& is_walk(g, p)
    &&& g.entry matches Some(e) && p[0] == e as int
    &&& p.last() == b
}

/// Block `b` can be reached from the entry.
pub open spec fn reachable(g: &ControlFlowGraph, b: int) -> bool {
    exists|p: Seq<int>| #[trigger] is_entry_path(g, p, b)
}

/// Every path from the entry to `b` goes through `a`.
pub open spec fn every_path_passes(g: &ControlFlowGraph, a: int, b: int) -> bool {
    forall|p: Seq<int>| #[trigger] is_entry_path(g, p, b) ==> p.contains(a)
}

/// `a` dominates `b`: they are the same block, or `b` is reachable and
/// every path from the entry to `b` goes through `a`.
pub open spec fn dominates_in(g: &ControlFlowGraph, a: int, b: int) -> bool {
    a == b || (reachable(g, b) && every_path_passes(g, a, b))
}

/// A function of the analysis: its entry address, its control-flow graph,
/// and whether its lifted form is current.
#[derive(Debug)]
pub struct LiftedFunction {
    pub entry_addr: u64,
    pub cfg: ControlFlowGraph,
    pub is_lifted: bool,
}

impl ControlFlowGraph {
    /// Block `i` carries id `i`, and the entry, when set, exists.
    pub open spec fn wf(&self) -> bool {
        let bs = self.blocks@;
        &&& bs.len() <= u32::MAX
        &&& forall|i: int| #![trigger bs[i]] 0 <= i < bs.len() ==> bs[i].id == i
        &&& self.entry matches Some(e) ==> e < bs.len()
        &&& forall|i: int, k: int|
            #![trigger bs[i].successors@[k]]
            0 <= i < bs.len() && 0 <= k < bs[i].successors@.len() ==> {
                &&& bs[i].successors@[k].source == i
                &&& bs[i].successors@[k].target < bs.len()
            }
        &&& forall|i: int, k: int|
            #![trigger bs[i].predecessors@[k]]
            0 <= i < bs.len() && 0 <= k < bs[i].predecessors@.len() ==> bs[i].predecessors@[k]
                < bs.len()
    }

    /// An empty graph with no entry.
    pub fn new() -> (g: ControlFlowGraph)
        ensures
            g.blocks@.len() == 0,
            g.entry is None,
            g.wf(),
    {
        ControlFlowGraph { blocks: Vec::new(), entry: None }
    }

    /// Appends an empty block starting (and ending) at `start_addr` and
    /// returns its id.
    pub fn alloc_block(&mut self, start_addr: u64) -> (id: BlockId)
        requires
            old(self).wf(),
            old(self).blocks@.len() < u32::MAX,
        ensures
            final(self).wf(),
            id == old(self).blocks@.len(),
            final(self).entry == old(self).entry,
            final(self).blocks@ == old(self).blocks@.push(
                BasicBlock {
                    id,
                    start_addr,
                    end_addr: start_addr,
                    instrs: final(self).blocks@[id as int].instrs,
                    instr_addrs: final(self).blocks@[id as int].instr_addrs,
                    successors: final(self).blocks@[id as int].successors,
                    predecessors: final(self).blocks@[id as int].predecessors,
                },
            ),
            final(self).blocks@[id as int].instrs@.len() == 0,
            final(self).blocks@[id as int].instr_addrs@.len() == 0,
            final(self).blocks@[id as int].successors@.len() == 0,
            final(self).blocks@[id as int].predecessors@.len() == 0,
    {
        let id = self.blocks.len() as u32;
        let block = BasicBlock {
            id,
            start_addr,
            end_addr: start_addr,
            instrs: Vec::new(),
            instr_addrs: Vec::new(),
            successors: Vec::new(),
            predecessors: Vec::new(),
        };
        self.blocks.push(block);
        id
    }

    /// Makes `id` the entry block.
    pub fn set_entry(&mut self, id: BlockId)
        requires
            old(self).wf(),
            id < old(self).blocks@.len(),
        ensures
            final(self).wf(),
            final(self).blocks@ == old(self).blocks@,
            final(self).entry == Some(id),
    {
        self.entry = Some(id);
    }

    /// Appends `instr`, found at address `addr`, to block `id`.
    pub fn push_instr(&mut self, id: BlockId, addr: u64, instr: FlowInstr)
        requires
            old(self).wf(),
            id < old(self).blocks@.len(),
        ensures
            final(self).wf(),
            final(self).entry == old(self).entry,
            final(self).blocks@ == old(self).blocks@.update(
                id as int,
                BasicBlock {
                    instrs: final(self).blocks@[id as int].instrs,
                    instr_addrs: final(self).blocks@[id as int].instr_addrs,
                    ..old(self).blocks@[id as int]
                },
            ),
            final(self).blocks@[id as int].instrs@ == old(self).blocks@[id as int].instrs@.push(
                instr,
            ),
            final(self).blocks@[id as int].instr_addrs@ == old(
                self,
            ).blocks@[id as int].instr_addrs@.push(addr),
    {
        self.blocks[id as usize].instrs.push(instr);
        self.blocks[id as usize].instr_addrs.push(addr);
    }

    /// Sets the end address of block `id`.
    pub fn set_end_addr(&mut self, id: BlockId, end_addr: u64)
        requires
            old(self).wf(),
            id < old(self).blocks@.len(),
        ensures
            final(self).wf(),
            final(self).entry == old(self).entry,
            final(self).blocks@ == old(self).blocks@.update(
                id as int,
                BasicBlock { end_addr, ..old(self).blocks@[id as int] },
            ),
    {
        self.blocks[id as usize].end_addr = end_addr;
    }

    /// Adds an edge of kind `kind` from block `from` to block `to`: an
    /// outgoing edge of `from` and a predecessor of `to`.
    pub fn add_edge(&mut self, from: BlockId, to: BlockId, kind: EdgeKind)
        requires
            old(self).wf(),
            from < old(self).blocks@.len(),
            to < old(self).blocks@.len(),
        ensures
            final(self).wf(),
            final(self).entry == old(self).entry,
            final(self).blocks@.len() == old(self).blocks@.len(),
            forall|i: int|
                0 <= i < final(self).blocks@.len() ==> {
                    let b = #[trigger] final(self).blocks@[i];
                    let a = old(self).blocks@[i];
                    &&& b.id == a.id && b.start_addr == a.start_addr && b.end_addr == a.end_addr
                    &&& b.instrs == a.instrs && b.instr_addrs == a.instr_addrs
                    &&& b.successors@ == if i == from {
                        a.successors@.push(CfgEdge { source: from, target: to, kind })
                    } else {
                        a.successors@
                    }
                    &&& b.predecessors@ == if i == to {
                        a.predecessors@.push(from)
                    } else {
                        a.predecessors@
                    }
                },
    {
        self.blocks[from as usize].successors.push(CfgEdge { source: from, target: to, kind });
        self.blocks[to as usize].predecessors.push(from);
    }

    /// The entry block, if one was set.
    pub fn entry(&self) -> (e: Option<BlockId>)
        ensures
            e == self.entry,
    {
        self.entry
    }

    /// The block with id `id`, if it exists.
    pub fn block(&self, id: BlockId) -> (b: Option<&BasicBlock>)
        ensures
            (id as int) < self.blocks@.len() ==> b == Some(&self.blocks@[id as int]),
            (id as int) >= self.blocks@.len() ==> b is None,
    {
        if (id as usize) < self.blocks.len() {
            Some(&self.blocks[id as usize])
        } else {
            None
        }
    }
}

} // verus!
