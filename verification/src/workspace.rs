//! The analysis workspace's function registry: one function per entry
//! address, numbered in registration order.

use vstd::prelude::*;
use indexmap::IndexMap;
use crate::cfg::{ControlFlowGraph, LiftedFunction};
use crate::collections::{assoc_get, lemma_assoc_insert_get, u64_usize_map_get, u64_usize_map_insert, u64_usize_map_items, u64_usize_map_new};

verus! {

/// Identifies a function of the workspace: its registration number.
#[derive(Debug, Clone, Copy, PartialEq, Eq, Hash, Structural)]
pub struct FunctionId(pub usize);

/// The functions of an analysis session and the map from entry address to
/// function.
#[derive(Debug)]
pub struct Workspace {
    pub functions: Vec<LiftedFunction>,
    pub addr_to_func: IndexMap<u64, usize>,
}

impl Workspace {
    /// Each registered address maps to the function with that entry, and
    /// each function is registered under its entry.
    pub open spec fn wf(&self) -> bool {
        let m = u64_usize_map_items(self.addr_to_func);
        &&& forall|a: u64|
            #[trigger] assoc_get(m, a) matches Some(i) ==> i < self.functions@.len() && self.functions@[i as int].entry_addr
                == a
        &&& forall|i: int|
            0 <= i < self.functions@.len() ==> assoc_get(m, #[trigger] self.functions@[i].entry_addr) == Some(
                i as usize,
            )
    }

    /// The function registered at `a`, if any.
    pub open spec fn lookup(&self, a: u64) -> Option<usize> {
        assoc_get(u64_usize_map_items(self.addr_to_func), a)
    }

    /// A workspace with no functions.
    pub fn new() -> (w: Workspace)
        ensures
            w.wf(),
            w.functions@.len() == 0,
    {
        Workspace { functions: Vec::new(), addr_to_func: u64_usize_map_new() }
    }

    /// Registers a function at `entry_addr`, or returns the one registered
    /// there already.
    pub fn add_function(&mut self, entry_addr: u64) -> (id: FunctionId)
        ensures
            old(self).wf() ==> final(self).wf(),
            match old(self).lookup(entry_addr) {
                Some(i) => id.0 == i && final(self).functions@ == old(self).functions@
                    && u64_usize_map_items(final(self).addr_to_func) == u64_usize_map_items(old(self).addr_to_func),
                None => {
                    &&& id.0 == old(self).functions@.len()
                    &&& final(self).functions@.len() == old(self).functions@.len() + 1
                    &&& final(self).functions@.take(old(self).functions@.len() as int) == old(self).functions@
                    &&& final(self).functions@[id.0 as int].entry_addr == entry_addr
                    &&& final(self).functions@[id.0 as int].cfg.blocks@.len() == 0
                    &&& !final(self).functions@[id.0 as int].is_lifted
                },
            },
            final(self).lookup(entry_addr) == Some(id.0),
    {
        match u64_usize_map_get(&self.addr_to_func, entry_addr) {
            Some(i) => FunctionId(i),
            None => {
                let id = self.functions.len();
                let ghost before = u64_usize_map_items(self.addr_to_func);
                let ghost fs = self.functions@;
                self.functions.push(LiftedFunction { entry_addr, cfg: ControlFlowGraph::new(), is_lifted: false });
                u64_usize_map_insert(&mut self.addr_to_func, entry_addr, id);
                proof {
                    assert forall|a: u64| #[trigger] assoc_get(u64_usize_map_items(self.addr_to_func), a) == if a
                        == entry_addr {
                        Some(id)
                    } else {
                        assoc_get(before, a)
                    } by {
                        lemma_assoc_insert_get(before, entry_addr, id, a);
                    };
                    if old(self).wf() {
                        assert forall|i: int| 0 <= i < self.functions@.len() implies assoc_get(
                            u64_usize_map_items(self.addr_to_func),
                            #[trigger] self.functions@[i].entry_addr,
                        ) == Some(i as usize) by {
                            if i < fs.len() {
                                assert(self.functions@[i] == fs[i]);
                                assert(assoc_get(before, fs[i].entry_addr) == Some(i as usize));
                            }
                        };
                    }
                    assert(self.functions@.take(fs.len() as int) =~= fs);
                }
                FunctionId(id)
            },
        }
    }

    /// The function registered at `addr`, if any.
    pub fn function_at(&self, addr: u64) -> (r: Option<FunctionId>)
        ensures
            match r {
                Some(id) => self.lookup(addr) == Some(id.0),
                None => self.lookup(addr) is None,
            },
    {
        match u64_usize_map_get(&self.addr_to_func, addr) {
            Some(i) => Some(FunctionId(i)),
            None => None,
        }
    }

    /// The number of registered functions.
    pub fn function_count(&self) -> (n: usize)
        ensures
            n == self.functions@.len(),
    {
        self.functions.len()
    }
}

} // verus!
