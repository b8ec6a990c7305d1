//! Global bookkeeping for whole-program analysis: which function entry
//! points have been discovered, which await analysis, which succeeded or
//! failed, and which addresses are imports.

use vstd::prelude::*;
use std::collections::VecDeque;
use indexmap::{IndexMap, IndexSet};
use crate::collections::{
    u64_set_insert, u64_set_items, u64_set_len, u64_set_new,
    u64_string_map_contains_key, u64_string_map_get, u64_string_map_items, u64_string_map_len,
    u64_string_map_new,
};

verus! {

/// Global state for a whole-program analysis session.
pub struct ProgramDatabase {
    /// All function addresses discovered so far, pending ones included.
    pub discovered: IndexSet<u64>,
    /// Functions whose CFG was fully lifted and whose SSA was built.
    pub analyzed: IndexSet<u64>,
    /// Functions that failed to lift.
    pub failed: IndexSet<u64>,
    /// Breadth-first work queue of addresses pending analysis.
    pub pending: VecDeque<u64>,
    /// Import address table: virtual address to symbol name.
    pub import_map: IndexMap<u64, String>,
    /// Export table: virtual address to export name.
    pub export_map: IndexMap<u64, String>,
    /// Module cluster assignment of each function address.
    pub module_assignments: IndexMap<u64, String>,
}

/// Summary statistics of a program database.
#[derive(Debug, Clone, Copy)]
pub struct ProgramStats {
    pub discovered: usize,
    pub analyzed: usize,
    pub failed: usize,
    pub pending: usize,
    pub imports: usize,
    pub exports: usize,
}

/// The discovered addresses and the pending queue after offering `addr`,
/// and whether it was new.
pub open spec fn enqueue_spec(discovered: Seq<u64>, pending: Seq<u64>, addr: u64) -> (
    Seq<u64>,
    Seq<u64>,
    bool,
) {
    if discovered.contains(addr) {
        (discovered, pending, false)
    } else {
        (discovered.push(addr), pending.push(addr), true)
    }
}

impl Default for ProgramDatabase {
    fn default() -> (db: Self)
        ensures
            u64_set_items(db.discovered) == Seq::<u64>::empty(),
            u64_set_items(db.analyzed) == Seq::<u64>::empty(),
            u64_set_items(db.failed) == Seq::<u64>::empty(),
            db.pending@ == Seq::<u64>::empty(),
            u64_string_map_items(db.import_map) == Map::<u64, Seq<char>>::empty(),
            u64_string_map_items(db.export_map) == Map::<u64, Seq<char>>::empty(),
            u64_string_map_items(db.module_assignments) == Map::<u64, Seq<char>>::empty(),
    {
        Self::new()
    }
}

impl ProgramDatabase {
    /// An empty database.
    pub fn new() -> (db: Self)
        ensures
            u64_set_items(db.discovered) == Seq::<u64>::empty(),
            u64_set_items(db.analyzed) == Seq::<u64>::empty(),
            u64_set_items(db.failed) == Seq::<u64>::empty(),
            db.pending@ == Seq::<u64>::empty(),
            u64_string_map_items(db.import_map) == Map::<u64, Seq<char>>::empty(),
            u64_string_map_items(db.export_map) == Map::<u64, Seq<char>>::empty(),
            u64_string_map_items(db.module_assignments) == Map::<u64, Seq<char>>::empty(),
    {
        ProgramDatabase {
            discovered: u64_set_new(),
            analyzed: u64_set_new(),
            failed: u64_set_new(),
            pending: VecDeque::new(),
            import_map: u64_string_map_new(),
            export_map: u64_string_map_new(),
            module_assignments: u64_string_map_new(),
        }
    }

    /// Enqueues `addr` for analysis unless it was discovered before;
    /// returns whether it was new.
    pub fn enqueue(&mut self, addr: u64) -> (r: bool)
        ensures
            (u64_set_items(final(self).discovered), final(self).pending@, r) == enqueue_spec(
                u64_set_items(old(self).discovered),
                old(self).pending@,
                addr,
            ),
            u64_set_items(final(self).analyzed) == u64_set_items(old(self).analyzed),
            u64_set_items(final(self).failed) == u64_set_items(old(self).failed),
            final(self).import_map == old(self).import_map,
            final(self).export_map == old(self).export_map,
            final(self).module_assignments == old(self).module_assignments,
    {
        if u64_set_insert(&mut self.discovered, addr) {
            self.pending.push_back(addr);
            true
        } else {
            false
        }
    }

    /// Dequeues the next address to analyze, first in first out.
    pub fn next(&mut self) -> (r: Option<u64>)
        ensures
            old(self).pending@.len() == 0 ==> r is None && final(self).pending@ == old(self).pending@,
            old(self).pending@.len() > 0 ==> r == Some(old(self).pending@[0])
                && final(self).pending@ == old(self).pending@.drop_first(),
            u64_set_items(final(self).discovered) == u64_set_items(old(self).discovered),
            u64_set_items(final(self).analyzed) == u64_set_items(old(self).analyzed),
            u64_set_items(final(self).failed) == u64_set_items(old(self).failed),
            final(self).import_map == old(self).import_map,
            final(self).export_map == old(self).export_map,
            final(self).module_assignments == old(self).module_assignments,
    {
        self.pending.pop_front()
    }

    /// Marks `addr` as successfully analyzed.
    pub fn mark_analyzed(&mut self, addr: u64)
        ensures
            u64_set_items(final(self).analyzed) == (if u64_set_items(old(self).analyzed).contains(
                addr,
            ) {
                u64_set_items(old(self).analyzed)
            } else {
                u64_set_items(old(self).analyzed).push(addr)
            }),
            u64_set_items(final(self).discovered) == u64_set_items(old(self).discovered),
            u64_set_items(final(self).failed) == u64_set_items(old(self).failed),
            final(self).pending@ == old(self).pending@,
            final(self).import_map == old(self).import_map,
            final(self).export_map == old(self).export_map,
            final(self).module_assignments == old(self).module_assignments,
    {
        u64_set_insert(&mut self.analyzed, addr);
    }

    /// Marks `addr` as failed.
    pub fn mark_failed(&mut self, addr: u64)
        ensures
            u64_set_items(final(self).failed) == (if u64_set_items(old(self).failed).contains(addr) {
                u64_set_items(old(self).failed)
            } else {
                u64_set_items(old(self).failed).push(addr)
            }),
            u64_set_items(final(self).discovered) == u64_set_items(old(self).discovered),
            u64_set_items(final(self).analyzed) == u64_set_items(old(self).analyzed),
            final(self).pending@ == old(self).pending@,
            final(self).import_map == old(self).import_map,
            final(self).export_map == old(self).export_map,
            final(self).module_assignments == old(self).module_assignments,
    {
        u64_set_insert(&mut self.failed, addr);
    }

    /// Whether `addr` is a known import, which must not be lifted.
    pub fn is_import(&self, addr: u64) -> (r: bool)
        ensures
            r == u64_string_map_items(self.import_map).contains_key(addr),
    {
        u64_string_map_contains_key(&self.import_map, addr)
    }

    /// The symbol name of the import at `addr`, if it is one.
    pub fn import_name(&self, addr: u64) -> (r: Option<&str>)
        ensures
            match r {
                Some(s) => u64_string_map_items(self.import_map).contains_key(addr) && s@
                    == u64_string_map_items(self.import_map)[addr],
                None => !u64_string_map_items(self.import_map).contains_key(addr),
            },
    {
        u64_string_map_get(&self.import_map, addr)
    }

    /// The number of entries in each part of the database.
    pub fn stats(&self) -> (s: ProgramStats)
        ensures
            s.discovered == u64_set_items(self.discovered).len(),
            s.analyzed == u64_set_items(self.analyzed).len(),
            s.failed == u64_set_items(self.failed).len(),
            s.pending == self.pending@.len(),
            s.imports == u64_string_map_items(self.import_map).len(),
            s.exports == u64_string_map_items(self.export_map).len(),
    {
        ProgramStats {
            discovered: u64_set_len(&self.discovered),
            analyzed: u64_set_len(&self.analyzed),
            failed: u64_set_len(&self.failed),
            pending: self.pending.len(),
            imports: u64_string_map_len(&self.import_map),
            exports: u64_string_map_len(&self.export_map),
        }
    }
}

/// An address is queued for analysis at most once: offering it again after
/// it was accepted is refused and leaves the database unchanged.
pub proof fn law_enqueue_at_most_once(discovered: Seq<u64>, pending: Seq<u64>, addr: u64)
    ensures
        ({
            let (d1, p1, r1) = enqueue_spec(discovered, pending, addr);
            let (d2, p2, r2) = enqueue_spec(d1, p1, addr);
            &&& !r2
            &&& d2 == d1
            &&& p2 == p1
        }),
{
    let (d1, p1, r1) = enqueue_spec(discovered, pending, addr);
    if r1 {
        assert(d1[d1.len() - 1] == addr);
    }
}

} // verus!
