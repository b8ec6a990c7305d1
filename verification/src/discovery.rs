//! Function discovery: the call targets that a lifted function reaches.
//!
//! Direct calls to constant addresses, jumps and conditional branches that
//! leave the function's address range (tail calls), and calls into import
//! thunks are collected as cross-references; targets inside code sections
//! that were not seen before become new function entries for the
//! whole-program worklist.

use vstd::prelude::*;
use indexmap::{IndexMap, IndexSet};
use crate::cfg::{BasicBlock, ControlFlowGraph, FlowInstr};
use crate::collections::{
    u64_set_contains, u64_set_insert, u64_set_items, u64_set_new, u64_string_map_contains_key,
    u64_string_map_items,
};

verus! {

/// The result of running all discovery extractors on one function.
#[derive(Debug)]
pub struct DiscoveryResult {
    /// New function entry addresses found (to be enqueued for analysis).
    pub new_functions: Vec<u64>,
    /// All call-type cross-references found (from_addr, to_addr).
    pub call_xrefs: Vec<(u64, u64)>,
    /// All tail-call cross-references (from_addr, to_addr).
    pub tail_call_xrefs: Vec<(u64, u64)>,
    /// All goto cross-references (from_addr, to_addr).
    pub goto_xrefs: Vec<(u64, u64)>,
}

impl Default for DiscoveryResult {
    fn default() -> (r: DiscoveryResult)
        ensures
            r.new_functions@.len() == 0,
            r.call_xrefs@.len() == 0,
            r.tail_call_xrefs@.len() == 0,
            r.goto_xrefs@.len() == 0,
    {
        DiscoveryResult {
            new_functions: Vec::new(),
            call_xrefs: Vec::new(),
            tail_call_xrefs: Vec::new(),
            goto_xrefs: Vec::new(),
        }
    }
}

/// The kind of a whole-program cross-reference.
#[derive(Debug, Clone, Copy, PartialEq, Eq, Structural)]
pub enum GlobalXrefKind {
    Call,
    TailCall,
    Goto,
}

/// A whole-program cross-reference as the symbol database stores it.
#[derive(Debug, Clone, Copy, PartialEq, Eq)]
pub struct SdbGlobalXref {
    pub from_address: u64,
    pub to_address: u64,
    pub kind: GlobalXrefKind,
}

/// The database records for a list of cross-references of one kind.
pub open spec fn xrefs_of_kind(xs: Seq<(u64, u64)>, kind: GlobalXrefKind) -> Seq<SdbGlobalXref> {
    xs.map_values(|x: (u64, u64)| SdbGlobalXref { from_address: x.0, to_address: x.1, kind })
}

/// Appends the records for `xs`, all of kind `kind`, to `out`.
fn push_xrefs(out: &mut Vec<SdbGlobalXref>, xs: &Vec<(u64, u64)>, kind: GlobalXrefKind)
    ensures
        final(out)@ == old(out)@ + xrefs_of_kind(xs@, kind),
{
    let ghost start = out@;
    for i in 0..xs.len()
        invariant
            out@ == start + xrefs_of_kind(xs@.take(i as int), kind),
    {
        let (from, to) = xs[i];
        out.push(SdbGlobalXref { from_address: from, to_address: to, kind });
        proof {
            assert(xs@.take(i + 1) == xs@.take(i as int).push(xs@[i as int]));
            assert(xrefs_of_kind(xs@.take(i + 1), kind) == xrefs_of_kind(
                xs@.take(i as int),
                kind,
            ).push(SdbGlobalXref { from_address: from, to_address: to, kind }));
        }
    }
    proof {
        assert(xs@.take(xs@.len() as int) == xs@);
    }
}

impl DiscoveryResult {
    /// Converts results to database cross-reference entries: the call
    /// references, then the tail calls, then the gotos, each in order.
    pub fn to_sdb_xrefs(&self) -> (out: Vec<SdbGlobalXref>)
        ensures
            out@ == xrefs_of_kind(self.call_xrefs@, GlobalXrefKind::Call) + xrefs_of_kind(
                self.tail_call_xrefs@,
                GlobalXrefKind::TailCall,
            ) + xrefs_of_kind(self.goto_xrefs@, GlobalXrefKind::Goto),
    {
        let mut out = Vec::new();
        push_xrefs(&mut out, &self.call_xrefs, GlobalXrefKind::Call);
        push_xrefs(&mut out, &self.tail_call_xrefs, GlobalXrefKind::TailCall);
        push_xrefs(&mut out, &self.goto_xrefs, GlobalXrefKind::Goto);
        proof {
            assert(Seq::<SdbGlobalXref>::empty() + xrefs_of_kind(
                self.call_xrefs@,
                GlobalXrefKind::Call,
            ) == xrefs_of_kind(self.call_xrefs@, GlobalXrefKind::Call));
        }
        out
    }
}

/// `addr` lies in one of the half-open ranges `[start, end)`.
pub open spec fn in_ranges(addr: u64, ranges: Seq<(u64, u64)>) -> bool {
    exists|i: int| 0 <= i < ranges.len() && ranges[i].0 <= addr && addr < ranges[i].1
}

/// Returns true if `addr` falls within any of the code section ranges.
pub fn is_in_code(addr: u64, ranges: &[(u64, u64)]) -> (r: bool)
    ensures
        r == in_ranges(addr, ranges@),
{
    let mut i: usize = 0;
    while i < ranges.len()
        invariant
            i <= ranges@.len(),
            forall|k: int| 0 <= k < i ==> !(ranges@[k].0 <= addr && addr < ranges@[k].1),
        decreases ranges@.len() - i,
    {
        let (start, end) = ranges[i];
        if addr >= start && addr < end {
            return true;
        }
        i += 1;
    }
    false
}

/// A section mapped into the address space: its address and size.
#[derive(Debug, Clone, Copy)]
pub struct MappedSection {
    pub address: u64,
    pub size: usize,
}

/// The range of a mapped section.
pub open spec fn section_range(s: MappedSection) -> (u64, u64) {
    (s.address, (s.address + s.size) as u64)
}

/// The code ranges of mapped sections, for `is_in_code` and
/// `extract_callees`: each section's address and the address just past it.
pub fn code_ranges_from_sections(sections: &[MappedSection]) -> (r: Vec<(u64, u64)>)
    requires
        forall|k: int| 0 <= k < sections@.len() ==> #[trigger] sections@[k].address + sections@[k].size <= u64::MAX,
    ensures
        r@ == sections@.map_values(|s: MappedSection| section_range(s)),
{
    let mut r: Vec<(u64, u64)> = Vec::new();
    for k in 0..sections.len()
        invariant
            forall|q: int| 0 <= q < sections@.len() ==> #[trigger] sections@[q].address + sections@[q].size <= u64::MAX,
            r@ == sections@.take(k as int).map_values(|s: MappedSection| section_range(s)),
    {
        let s = sections[k];
        assert(s.address + s.size <= u64::MAX);
        r.push((s.address, s.address + s.size as u64));
        proof {
            assert(r@ =~= sections@.take(k + 1).map_values(|s: MappedSection| section_range(s)));
        }
    }
    assert(sections@.take(sections@.len() as int) =~= sections@);
    r
}

/// A call target found in the graph: the address of the instruction, the
/// target address, and whether it is a direct call (otherwise a jump or
/// branch that leaves the function).
pub type Candidate = (u64, u64, bool);

/// `t` lies outside the function's range `[func_start, func_end)`.
pub open spec fn outside(t: u64, func_start: u64, func_end: u64) -> bool {
    t < func_start || t >= func_end
}

/// The candidate for a branch to `t` from `at`, if `t` leaves the function.
pub open spec fn branch_candidate(at: u64, t: u64, func_start: u64, func_end: u64) -> Seq<
    Candidate,
> {
    if outside(t, func_start, func_end) {
        seq![(at, t, false)]
    } else {
        Seq::empty()
    }
}

/// The candidates an instruction at `at` contributes: a direct call to a
/// constant address, or a jump or conditional branch whose targets leave
/// the function (true target first).
pub open spec fn instr_candidates(instr: FlowInstr, at: u64, func_start: u64, func_end: u64) -> Seq<
    Candidate,
> {
    match instr {
        FlowInstr::Call { target: Some(t) } => seq![(at, t, true)],
        FlowInstr::Goto { target } => branch_candidate(at, target, func_start, func_end),
        FlowInstr::If { true_target, false_target } => branch_candidate(
            at,
            true_target,
            func_start,
            func_end,
        ) + branch_candidate(at, false_target, func_start, func_end),
        _ => Seq::empty(),
    }
}

/// The address of instruction `i` of `b`: its recorded address, or the
/// block's start when none was recorded.
pub open spec fn instr_addr(b: BasicBlock, i: int) -> u64 {
    if i < b.instr_addrs@.len() {
        b.instr_addrs@[i]
    } else {
        b.start_addr
    }
}

/// The candidates of the first `k` instructions of `b`, in order.
pub open spec fn block_candidates(b: BasicBlock, k: int, func_start: u64, func_end: u64) -> Seq<
    Candidate,
>
    decreases k,
{
    if k <= 0 {
        Seq::empty()
    } else {
        block_candidates(b, k - 1, func_start, func_end) + instr_candidates(
            b.instrs@[k - 1],
            instr_addr(b, k - 1),
            func_start,
            func_end,
        )
    }
}

/// The candidates of the first `j` blocks, in block order.
pub open spec fn graph_candidates(
    blocks: Seq<BasicBlock>,
    j: int,
    func_start: u64,
    func_end: u64,
) -> Seq<Candidate>
    decreases j,
{
    if j <= 0 {
        Seq::empty()
    } else {
        graph_candidates(blocks, j - 1, func_start, func_end) + block_candidates(
            blocks[j - 1],
            blocks[j - 1].instrs@.len() as int,
            func_start,
            func_end,
        )
    }
}

/// The call cross-reference a candidate yields: direct calls to a nonzero
/// address that is an import thunk or lies in code.
pub open spec fn call_xref(c: Candidate, imports: Set<u64>, ranges: Seq<(u64, u64)>) -> Option<
    (u64, u64),
> {
    if c.2 && c.1 != 0 && (imports.contains(c.1) || in_ranges(c.1, ranges)) {
        Some((c.0, c.1))
    } else {
        None
    }
}

/// The tail-call cross-reference a candidate yields: jumps to a nonzero
/// address in code that is not an import thunk.
pub open spec fn tail_xref(c: Candidate, imports: Set<u64>, ranges: Seq<(u64, u64)>) -> Option<
    (u64, u64),
> {
    if !c.2 && c.1 != 0 && !imports.contains(c.1) && in_ranges(c.1, ranges) {
        Some((c.0, c.1))
    } else {
        None
    }
}

/// The function entry a candidate proposes: a nonzero target in code that
/// is neither an import thunk nor already visited.
pub open spec fn fresh_target(
    c: Candidate,
    imports: Set<u64>,
    visited: Seq<u64>,
    ranges: Seq<(u64, u64)>,
) -> Option<u64> {
    if c.1 != 0 && !imports.contains(c.1) && in_ranges(c.1, ranges) && !visited.contains(c.1) {
        Some(c.1)
    } else {
        None
    }
}

/// `call_xref` as a function of the candidate.
pub open spec fn call_xref_fn(imports: Set<u64>, ranges: Seq<(u64, u64)>) -> spec_fn(
    Candidate,
) -> Option<(u64, u64)> {
    |c: Candidate| call_xref(c, imports, ranges)
}

/// `tail_xref` as a function of the candidate.
pub open spec fn tail_xref_fn(imports: Set<u64>, ranges: Seq<(u64, u64)>) -> spec_fn(
    Candidate,
) -> Option<(u64, u64)> {
    |c: Candidate| tail_xref(c, imports, ranges)
}

/// `fresh_target` as a function of the candidate.
pub open spec fn fresh_target_fn(
    imports: Set<u64>,
    visited: Seq<u64>,
    ranges: Seq<(u64, u64)>,
) -> spec_fn(Candidate) -> Option<u64> {
    |c: Candidate| fresh_target(c, imports, visited, ranges)
}

/// Filtering and mapping a sequence with one more item at its end.
pub proof fn lemma_filter_map_push<A, B>(s: Seq<A>, x: A, f: spec_fn(A) -> Option<B>)
    ensures
        s.push(x).filter_map(f) == (match f(x) {
            Some(b) => s.filter_map(f).push(b),
            None => s.filter_map(f),
        }),
{
    assert(s.push(x).drop_last() == s);
    assert(s.push(x).last() == x);
    match f(x) {
        Some(b) => {
            assert(s.filter_map(f) + seq![b] == s.filter_map(f).push(b));
        },
        None => {},
    }
}

/// The items of `s` at their first occurrence, in order.
pub open spec fn first_occurrences(s: Seq<u64>) -> Seq<u64>
    decreases s.len(),
{
    if s.len() == 0 {
        s
    } else {
        let r = first_occurrences(s.drop_last());
        if r.contains(s.last()) {
            r
        } else {
            r.push(s.last())
        }
    }
}

/// `first_occurrences` keeps exactly the items of its input, once each.
pub proof fn lemma_first_occurrences(s: Seq<u64>)
    ensures
        first_occurrences(s).no_duplicates(),
        forall|x: u64| first_occurrences(s).contains(x) <==> s.contains(x),
    decreases s.len(),
{
    broadcast use vstd::seq_lib::group_seq_properties;

    if s.len() > 0 {
        let r = first_occurrences(s.drop_last());
        lemma_first_occurrences(s.drop_last());
        assert(s == s.drop_last().push(s.last()));
        if !r.contains(s.last()) {
            crate::seq_facts::lemma_push_no_dup(r, s.last());
        }
    }
}

/// The discovery result for the candidates `cs`.
pub open spec fn discovery_matches(
    r: DiscoveryResult,
    cs: Seq<Candidate>,
    imports: Set<u64>,
    visited: Seq<u64>,
    ranges: Seq<(u64, u64)>,
) -> bool {
    &&& r.call_xrefs@ == cs.filter_map(call_xref_fn(imports, ranges))
    &&& r.tail_call_xrefs@ == cs.filter_map(tail_xref_fn(imports, ranges))
    &&& r.goto_xrefs@ == Seq::<(u64, u64)>::empty()
    &&& r.new_functions@ == first_occurrences(cs.filter_map(fresh_target_fn(imports, visited, ranges)))
}

/// Records one candidate, as the extractors do for each target they find.
fn try_add(
    addr: u64,
    result: &mut DiscoveryResult,
    enqueued: &mut IndexSet<u64>,
    is_call: bool,
    is_tail: bool,
    from_addr: u64,
    import_map: &IndexMap<u64, String>,
    visited: &IndexSet<u64>,
    code_ranges: &[(u64, u64)],
    Ghost(cs): Ghost<Seq<Candidate>>,
)
    requires
        is_call || is_tail,
        discovery_matches(
            *old(result),
            cs,
            u64_string_map_items(*import_map).dom(),
            u64_set_items(*visited),
            code_ranges@,
        ),
        u64_set_items(*old(enqueued)) == old(result).new_functions@,
    ensures
        discovery_matches(
            *final(result),
            cs.push((from_addr, addr, is_call)),
            u64_string_map_items(*import_map).dom(),
            u64_set_items(*visited),
            code_ranges@,
        ),
        u64_set_items(*final(enqueued)) == final(result).new_functions@,
{
    let ghost imports = u64_string_map_items(*import_map).dom();
    let ghost vis = u64_set_items(*visited);
    let ghost ranges = code_ranges@;
    let ghost c: Candidate = (from_addr, addr, is_call);
    proof {
        lemma_filter_map_push(cs, c, call_xref_fn(imports, ranges));
        lemma_filter_map_push(cs, c, tail_xref_fn(imports, ranges));
        lemma_filter_map_push(cs, c, fresh_target_fn(imports, vis, ranges));
        let targets = cs.filter_map(fresh_target_fn(imports, vis, ranges));
        assert(targets.push(addr).drop_last() == targets);
    }
    if addr == 0 {
        return;
    }
    if u64_string_map_contains_key(import_map, addr) {
        if is_call {
            result.call_xrefs.push((from_addr, addr));
        }
        return;
    }
    if !is_in_code(addr, code_ranges) {
        return;
    }
    if is_call {
        result.call_xrefs.push((from_addr, addr));
    } else if is_tail {
        result.tail_call_xrefs.push((from_addr, addr));
    } else {
        result.goto_xrefs.push((from_addr, addr));
    }
    if !u64_set_contains(visited, addr) && u64_set_insert(enqueued, addr) {
        result.new_functions.push(addr);
    }
}

/// Extract all reachable call targets from a lifted CFG.
///
/// Walks the blocks in order and their instructions in order. Direct calls
/// to a constant address, and jumps or conditional branches whose target
/// lies outside `[func_start, func_end)`, are candidates. A candidate with
/// target zero is dropped. A call into an import thunk is recorded as a
/// call cross-reference and nothing more; other targets outside the code
/// ranges are dropped. The rest are recorded as call or tail-call
/// cross-references, and each target not in `visited` becomes a new
/// function entry once, at its first occurrence.
pub fn extract_callees(
    cfg: &ControlFlowGraph,
    func_start: u64,
    func_end: u64,
    import_map: &IndexMap<u64, String>,
    visited: &IndexSet<u64>,
    code_ranges: &[(u64, u64)],
) -> (result: DiscoveryResult)
    ensures
        discovery_matches(
            result,
            graph_candidates(cfg.blocks@, cfg.blocks@.len() as int, func_start, func_end),
            u64_string_map_items(*import_map).dom(),
            u64_set_items(*visited),
            code_ranges@,
        ),
{
    let ghost imports = u64_string_map_items(*import_map).dom();
    let ghost vis = u64_set_items(*visited);
    let ghost ranges = code_ranges@;
    let mut result = DiscoveryResult::default();
    let mut enqueued = u64_set_new();
    let ghost mut cs: Seq<Candidate> = Seq::empty();
    proof {
        assert(cs.filter_map(call_xref_fn(imports, ranges)) == Seq::<(u64, u64)>::empty());
        assert(cs.filter_map(tail_xref_fn(imports, ranges)) == Seq::<(u64, u64)>::empty());
        assert(cs.filter_map(fresh_target_fn(imports, vis, ranges)) == Seq::<u64>::empty());
        assert(first_occurrences(Seq::<u64>::empty()) == Seq::<u64>::empty());
        assert(result.call_xrefs@ == Seq::<(u64, u64)>::empty());
        assert(result.tail_call_xrefs@ == Seq::<(u64, u64)>::empty());
        assert(result.goto_xrefs@ == Seq::<(u64, u64)>::empty());
        assert(result.new_functions@ == Seq::<u64>::empty());
    }
    let mut j: usize = 0;
    while j < cfg.blocks.len()
        invariant
            j <= cfg.blocks@.len(),
            cs == graph_candidates(cfg.blocks@, j as int, func_start, func_end),
            discovery_matches(result, cs, imports, vis, ranges),
            u64_set_items(enqueued) == result.new_functions@,
            imports == u64_string_map_items(*import_map).dom(),
            vis == u64_set_items(*visited),
            ranges == code_ranges@,
        decreases cfg.blocks@.len() - j,
    {
        let block = &cfg.blocks[j];
        let ghost cs0 = cs;
        let mut i: usize = 0;
        while i < block.instrs.len()
            invariant
                j < cfg.blocks@.len(),
                *block == cfg.blocks@[j as int],
                i <= block.instrs@.len(),
                cs0 == graph_candidates(cfg.blocks@, j as int, func_start, func_end),
                cs == cs0 + block_candidates(*block, i as int, func_start, func_end),
                discovery_matches(result, cs, imports, vis, ranges),
                u64_set_items(enqueued) == result.new_functions@,
                imports == u64_string_map_items(*import_map).dom(),
                vis == u64_set_items(*visited),
                ranges == code_ranges@,
            decreases block.instrs@.len() - i,
        {
            let instr_addr = if i < block.instr_addrs.len() {
                block.instr_addrs[i]
            } else {
                block.start_addr
            };
            let ghost before = cs;
            match block.instrs[i] {
                FlowInstr::Call { target: Some(addr) } => {
                    try_add(
                        addr,
                        &mut result,
                        &mut enqueued,
                        true,
                        false,
                        instr_addr,
                        import_map,
                        visited,
                        code_ranges,
                        Ghost(cs),
                    );
                    proof {
                        cs = cs.push((instr_addr, addr, true));
                    }
                },
                FlowInstr::Goto { target } => {
                    let addr = target;
                    if addr < func_start || addr >= func_end {
                        try_add(
                            addr,
                            &mut result,
                            &mut enqueued,
                            false,
                            true,
                            instr_addr,
                            import_map,
                            visited,
                            code_ranges,
                            Ghost(cs),
                        );
                        proof {
                            cs = cs.push((instr_addr, addr, false));
                        }
                    }
                },
                FlowInstr::If { true_target, false_target } => {
                    if true_target < func_start || true_target >= func_end {
                        try_add(
                            true_target,
                            &mut result,
                            &mut enqueued,
                            false,
                            true,
                            instr_addr,
                            import_map,
                            visited,
                            code_ranges,
                            Ghost(cs),
                        );
                        proof {
                            cs = cs.push((instr_addr, true_target, false));
                        }
                    }
                    if false_target < func_start || false_target >= func_end {
                        try_add(
                            false_target,
                            &mut result,
                            &mut enqueued,
                            false,
                            true,
                            instr_addr,
                            import_map,
                            visited,
                            code_ranges,
                            Ghost(cs),
                        );
                        proof {
                            cs = cs.push((instr_addr, false_target, false));
                        }
                    }
                },
                _ => {},
            }
            proof {
                let step = instr_candidates(
                    block.instrs@[i as int],
                    instr_addr,
                    func_start,
                    func_end,
                );
                assert(cs == before + step);
                assert(block_candidates(*block, i + 1, func_start, func_end) == block_candidates(
                    *block,
                    i as int,
                    func_start,
                    func_end,
                ) + step);
                assert(cs == cs0 + block_candidates(*block, i + 1, func_start, func_end));
            }
            i += 1;
        }
        proof {
            assert(graph_candidates(cfg.blocks@, j + 1, func_start, func_end) == cs0
                + block_candidates(*block, block.instrs@.len() as int, func_start, func_end));
        }
        j += 1;
    }
    result
}

/// A proposed function entry comes from a candidate that qualifies.
proof fn lemma_fresh_target_member(
    cs: Seq<Candidate>,
    imports: Set<u64>,
    visited: Seq<u64>,
    ranges: Seq<(u64, u64)>,
    a: u64,
)
    requires
        cs.filter_map(fresh_target_fn(imports, visited, ranges)).contains(a),
    ensures
        a != 0,
        !imports.contains(a),
        !visited.contains(a),
        in_ranges(a, ranges),
{
    cs.lemma_filter_map_contains(fresh_target_fn(imports, visited, ranges), a);
    let c = choose|c: Candidate|
        #[trigger] cs.contains(c) && fresh_target_fn(imports, visited, ranges)(c) == Some(a);
    assert(fresh_target(c, imports, visited, ranges) == Some(a));
}

/// Discovery proposes each new function once, and never an import thunk,
/// an address already visited, a zero address or one outside the code
/// ranges.
pub proof fn law_new_functions_are_fresh(
    r: DiscoveryResult,
    cs: Seq<Candidate>,
    imports: Set<u64>,
    visited: Seq<u64>,
    ranges: Seq<(u64, u64)>,
)
    requires
        discovery_matches(r, cs, imports, visited, ranges),
    ensures
        r.new_functions@.no_duplicates(),
        forall|a: u64|
            #[trigger] r.new_functions@.contains(a) ==> a != 0 && !imports.contains(a)
                && !visited.contains(a) && in_ranges(a, ranges),
{
    let targets = cs.filter_map(fresh_target_fn(imports, visited, ranges));
    lemma_first_occurrences(targets);
    assert forall|a: u64| #[trigger] r.new_functions@.contains(a) implies a != 0 && !imports.contains(
        a,
    ) && !visited.contains(a) && in_ranges(a, ranges) by {
        lemma_fresh_target_member(cs, imports, visited, ranges, a);
    };
}

/// An item that `f` maps to `b` puts `b` among the filtered items.
proof fn lemma_filter_map_has<A, B>(s: Seq<A>, f: spec_fn(A) -> Option<B>, i: int, b: B)
    requires
        0 <= i < s.len(),
        f(s[i]) == Some(b),
    ensures
        s.filter_map(f).contains(b),
    decreases s.len(),
{
    let t = s.drop_last();
    assert(s == t.push(s.last()));
    lemma_filter_map_push(t, s.last(), f);
    if i == s.len() - 1 {
        let r = t.filter_map(f).push(b);
        assert(r[r.len() - 1] == b);
    } else {
        lemma_filter_map_has(t, f, i, b);
        let k = choose|k: int| 0 <= k < t.filter_map(f).len() && t.filter_map(f)[k] == b;
        match f(s.last()) {
            Some(x) => assert(t.filter_map(f).push(x)[k] == b),
            None => {},
        }
    }
}

/// Every new function is the target of a call or tail-call
/// cross-reference that discovery records.
pub proof fn law_new_functions_are_referenced(
    r: DiscoveryResult,
    cs: Seq<Candidate>,
    imports: Set<u64>,
    visited: Seq<u64>,
    ranges: Seq<(u64, u64)>,
)
    requires
        discovery_matches(r, cs, imports, visited, ranges),
    ensures
        forall|a: u64|
            #[trigger] r.new_functions@.contains(a) ==> exists|from: u64|
                r.call_xrefs@.contains((from, a)) || r.tail_call_xrefs@.contains((from, a)),
{
    assert forall|a: u64| #[trigger] r.new_functions@.contains(a) implies exists|from: u64|
        r.call_xrefs@.contains((from, a)) || r.tail_call_xrefs@.contains((from, a)) by {
        let targets = cs.filter_map(fresh_target_fn(imports, visited, ranges));
        lemma_first_occurrences(targets);
        cs.lemma_filter_map_contains(fresh_target_fn(imports, visited, ranges), a);
        let c = choose|c: Candidate| #[trigger] cs.contains(c) && fresh_target_fn(imports, visited, ranges)(c) == Some(a);
        let i = choose|i: int| 0 <= i < cs.len() && cs[i] == c;
        if c.2 {
            assert(call_xref_fn(imports, ranges)(cs[i]) == Some((c.0, a)));
            lemma_filter_map_has(cs, call_xref_fn(imports, ranges), i, (c.0, a));
            assert(r.call_xrefs@.contains((c.0, a)));
        } else {
            assert(tail_xref_fn(imports, ranges)(cs[i]) == Some((c.0, a)));
            lemma_filter_map_has(cs, tail_xref_fn(imports, ranges), i, (c.0, a));
            assert(r.tail_call_xrefs@.contains((c.0, a)));
        }
    }
}

/// The largest end address among `blocks`, or zero when there are none.
pub open spec fn max_end_addr(blocks: Seq<BasicBlock>) -> u64
    decreases blocks.len(),
{
    if blocks.len() == 0 {
        0
    } else {
        let rest = max_end_addr(blocks.drop_last());
        if blocks.last().end_addr > rest {
            blocks.last().end_addr
        } else {
            rest
        }
    }
}

/// Returns the approximate end address of a function: the largest end
/// address of its blocks, or zero for a graph without blocks.
pub fn function_end_address(cfg: &ControlFlowGraph) -> (r: u64)
    ensures
        r == max_end_addr(cfg.blocks@),
{
    let mut best: u64 = 0;
    let mut j: usize = 0;
    while j < cfg.blocks.len()
        invariant
            j <= cfg.blocks@.len(),
            best == max_end_addr(cfg.blocks@.take(j as int)),
        decreases cfg.blocks@.len() - j,
    {
        proof {
            assert(cfg.blocks@.take(j + 1).drop_last() == cfg.blocks@.take(j as int));
        }
        if cfg.blocks[j].end_addr > best {
            best = cfg.blocks[j].end_addr;
        }
        j += 1;
    }
    proof {
        assert(cfg.blocks@.take(cfg.blocks@.len() as int) == cfg.blocks@);
    }
    best
}

} // verus!
