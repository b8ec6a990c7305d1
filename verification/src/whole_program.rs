//! The decisions of whole-program discovery: which entry points seed the
//! queue, which queued addresses the next batch lifts, and what a lift's
//! outcome does to the database. Lifting itself happens outside, batch by
//! batch; each step here takes its outcome and returns the next state.

use vstd::prelude::*;
use crate::collections::{u64_set_items, u64_string_map_items};
use crate::discovery::{in_ranges, is_in_code};
use crate::program_db::{enqueue_spec, ProgramDatabase};

verus! {

/// The most addresses one batch takes off the queue.
pub const BATCH_LIMIT: usize = 1000;

/// The discovered set and the queue after offering each of `addrs` in
/// turn.
pub open spec fn enqueue_all(discovered: Seq<u64>, pending: Seq<u64>, addrs: Seq<u64>) -> (Seq<u64>, Seq<u64>)
    decreases addrs.len(),
{
    if addrs.len() == 0 {
        (discovered, pending)
    } else {
        let (d, p) = enqueue_all(discovered, pending, addrs.drop_last());
        let (d2, p2, _) = enqueue_spec(d, p, addrs.last());
        (d2, p2)
    }
}

/// The seeds worth queueing: not zero and not an import.
pub open spec fn seeds_to_queue(seeds: Seq<u64>, imports: Map<u64, Seq<char>>) -> Seq<u64> {
    seeds.filter(|a: u64| a != 0 && !imports.contains_key(a))
}

/// The addresses of a batch that get lifted: not an import and inside a
/// code range.
pub open spec fn liftable(batch: Seq<u64>, imports: Map<u64, Seq<char>>, ranges: Seq<(u64, u64)>) -> Seq<u64> {
    batch.filter(|a: u64| !imports.contains_key(a) && in_ranges(a, ranges))
}

/// How many queued addresses the next batch takes.
pub open spec fn batch_len(pending: Seq<u64>) -> int {
    if pending.len() < BATCH_LIMIT {
        pending.len() as int
    } else {
        BATCH_LIMIT as int
    }
}

/// Queues every seed that is not zero and not an import, each once, in
/// order.
pub fn seed_discovery(pdb: &mut ProgramDatabase, seeds: &[u64])
    ensures
        (u64_set_items(final(pdb).discovered), final(pdb).pending@) == enqueue_all(
            u64_set_items(old(pdb).discovered),
            old(pdb).pending@,
            seeds_to_queue(seeds@, u64_string_map_items(old(pdb).import_map)),
        ),
        u64_set_items(final(pdb).analyzed) == u64_set_items(old(pdb).analyzed),
        u64_set_items(final(pdb).failed) == u64_set_items(old(pdb).failed),
        final(pdb).import_map == old(pdb).import_map,
        final(pdb).export_map == old(pdb).export_map,
        final(pdb).module_assignments == old(pdb).module_assignments,
{
    let ghost imports = u64_string_map_items(pdb.import_map);
    let mut i: usize = 0;
    while i < seeds.len()
        invariant
            i <= seeds@.len(),
            imports == u64_string_map_items(pdb.import_map),
            (u64_set_items(pdb.discovered), pdb.pending@) == enqueue_all(
                u64_set_items(old(pdb).discovered),
                old(pdb).pending@,
                seeds_to_queue(seeds@.take(i as int), imports),
            ),
            u64_set_items(pdb.analyzed) == u64_set_items(old(pdb).analyzed),
            u64_set_items(pdb.failed) == u64_set_items(old(pdb).failed),
            pdb.import_map == old(pdb).import_map,
            pdb.export_map == old(pdb).export_map,
            pdb.module_assignments == old(pdb).module_assignments,
        decreases seeds@.len() - i,
    {
        let addr = seeds[i];
        proof {
            assert(seeds@.take(i + 1).drop_last() =~= seeds@.take(i as int));
            assert(seeds@.take(i + 1).last() == addr);
            seeds@.take(i as int).lemma_filter_push(addr, |a: u64| a != 0 && !imports.contains_key(a));
            assert(seeds@.take(i + 1) =~= seeds@.take(i as int).push(addr));
        }
        if addr != 0 && !pdb.is_import(addr) {
            pdb.enqueue(addr);
            proof {
                let q = seeds_to_queue(seeds@.take(i + 1), imports);
                assert(q.drop_last() =~= seeds_to_queue(seeds@.take(i as int), imports));
            }
        }
        i = i + 1;
    }
    assert(seeds@.take(seeds@.len() as int) =~= seeds@);
}

/// Takes the next batch off the queue, at most `BATCH_LIMIT` addresses from
/// its front, and returns those of them to lift: not imports and inside
/// one of the code ranges.
pub fn take_batch(pdb: &mut ProgramDatabase, code_ranges: &[(u64, u64)]) -> (r: Vec<u64>)
    ensures
        ({
            let n = batch_len(old(pdb).pending@);
            &&& final(pdb).pending@ == old(pdb).pending@.skip(n)
            &&& r@ == liftable(
                old(pdb).pending@.take(n),
                u64_string_map_items(old(pdb).import_map),
                code_ranges@,
            )
        }),
        u64_set_items(final(pdb).discovered) == u64_set_items(old(pdb).discovered),
        u64_set_items(final(pdb).analyzed) == u64_set_items(old(pdb).analyzed),
        u64_set_items(final(pdb).failed) == u64_set_items(old(pdb).failed),
        final(pdb).import_map == old(pdb).import_map,
        final(pdb).export_map == old(pdb).export_map,
        final(pdb).module_assignments == old(pdb).module_assignments,
{
    let ghost p0 = pdb.pending@;
    let ghost imports = u64_string_map_items(pdb.import_map);
    let n: usize = if pdb.pending.len() < BATCH_LIMIT {
        pdb.pending.len()
    } else {
        BATCH_LIMIT
    };
    let mut out: Vec<u64> = Vec::new();
    let mut k: usize = 0;
    while k < n
        invariant
            n == batch_len(p0),
            n <= p0.len(),
            k <= n,
            pdb.pending@ == p0.skip(k as int),
            imports == u64_string_map_items(pdb.import_map),
            out@ == liftable(p0.take(k as int), imports, code_ranges@),
            u64_set_items(pdb.discovered) == u64_set_items(old(pdb).discovered),
            u64_set_items(pdb.analyzed) == u64_set_items(old(pdb).analyzed),
            u64_set_items(pdb.failed) == u64_set_items(old(pdb).failed),
            pdb.import_map == old(pdb).import_map,
            pdb.export_map == old(pdb).export_map,
            pdb.module_assignments == old(pdb).module_assignments,
        decreases n - k,
    {
        let next = pdb.next();
        let addr = match next {
            Some(a) => a,
            None => {
                assert(false);
                0
            },
        };
        proof {
            assert(addr == p0[k as int]);
            assert(p0.skip(k as int).drop_first() =~= p0.skip(k + 1));
            assert(p0.take(k + 1) =~= p0.take(k as int).push(addr));
            p0.take(k as int).lemma_filter_push(
                addr,
                |a: u64| !imports.contains_key(a) && in_ranges(a, code_ranges@),
            );
        }
        if !pdb.is_import(addr) && is_in_code(addr, code_ranges) {
            out.push(addr);
        }
        k = k + 1;
    }
    out
}

/// Records the outcome of lifting `addr`: on success (`Some` with the new
/// function entry points found in it) it is marked analyzed and each new
/// entry point is queued; on failure it is marked failed. Returns whether
/// it failed.
pub fn record_lift_outcome(pdb: &mut ProgramDatabase, addr: u64, new_functions: Option<&[u64]>) -> (failed: bool)
    ensures
        failed == new_functions is None,
        match new_functions {
            Some(nf) => {
                &&& u64_set_items(final(pdb).analyzed) == (if u64_set_items(old(pdb).analyzed).contains(addr) {
                    u64_set_items(old(pdb).analyzed)
                } else {
                    u64_set_items(old(pdb).analyzed).push(addr)
                })
                &&& u64_set_items(final(pdb).failed) == u64_set_items(old(pdb).failed)
                &&& (u64_set_items(final(pdb).discovered), final(pdb).pending@) == enqueue_all(
                    u64_set_items(old(pdb).discovered),
                    old(pdb).pending@,
                    nf@,
                )
            },
            None => {
                &&& u64_set_items(final(pdb).failed) == (if u64_set_items(old(pdb).failed).contains(addr) {
                    u64_set_items(old(pdb).failed)
                } else {
                    u64_set_items(old(pdb).failed).push(addr)
                })
                &&& u64_set_items(final(pdb).analyzed) == u64_set_items(old(pdb).analyzed)
                &&& u64_set_items(final(pdb).discovered) == u64_set_items(old(pdb).discovered)
                &&& final(pdb).pending@ == old(pdb).pending@
            },
        },
        final(pdb).import_map == old(pdb).import_map,
        final(pdb).export_map == old(pdb).export_map,
        final(pdb).module_assignments == old(pdb).module_assignments,
{
    match new_functions {
        Some(nf) => {
            pdb.mark_analyzed(addr);
            let ghost analyzed = u64_set_items(pdb.analyzed);
            let ghost failed0 = u64_set_items(pdb.failed);
            let mut i: usize = 0;
            while i < nf.len()
                invariant
                    i <= nf@.len(),
                    (u64_set_items(pdb.discovered), pdb.pending@) == enqueue_all(
                        u64_set_items(old(pdb).discovered),
                        old(pdb).pending@,
                        nf@.take(i as int),
                    ),
                    u64_set_items(pdb.analyzed) == analyzed,
                    u64_set_items(pdb.failed) == failed0,
                    pdb.import_map == old(pdb).import_map,
                    pdb.export_map == old(pdb).export_map,
                    pdb.module_assignments == old(pdb).module_assignments,
                decreases nf@.len() - i,
            {
                pdb.enqueue(nf[i]);
                assert(nf@.take(i + 1).drop_last() =~= nf@.take(i as int));
                i = i + 1;
            }
            assert(nf@.take(nf@.len() as int) =~= nf@);
            false
        },
        None => {
            pdb.mark_failed(addr);
            true
        },
    }
}

} // verus!
