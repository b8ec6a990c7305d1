//! Linear sweep: finding function entries by their prologue bytes, which
//! recovers functions that obfuscated control flow hides from direct calls.

use vstd::prelude::*;
use indexmap::IndexSet;
use crate::collections::{u64_set_insert, u64_set_items, u64_set_new};
use crate::discovery::first_occurrences;
use crate::text::{chars_start_with, starts_with, to_chars};

verus! {

/// What a linear sweep reads of a loaded section.
#[derive(Debug)]
pub struct SectionData {
    pub name: String,
    /// The section is flagged as executable code.
    pub executable: bool,
    /// Virtual address of the first byte.
    pub start: u64,
    pub data: Vec<u8>,
}

/// The length of the x86-64 prologue starting at offset `i` of `d`, or zero
/// when none does: `push rbp; mov rbp, rsp`, `sub rsp, imm8`, a push of
/// `rbx` or of `r12`..`r15`, or a store of `rbx`, `rsi` or `rdi` to the
/// stack.
pub open spec fn prologue_len(d: Seq<u8>, i: int) -> int {
    if i + 3 < d.len() && d[i] == 0x55 && d[i + 1] == 0x48 && d[i + 2] == 0x89 && d[i + 3] == 0xE5 {
        4
    } else if i + 3 < d.len() && d[i] == 0x48 && d[i + 1] == 0x83 && d[i + 2] == 0xEC {
        4
    } else if i + 1 < d.len() && d[i] == 0x40 && d[i + 1] == 0x53 {
        2
    } else if i + 1 < d.len() && d[i] == 0x41 && 0x54 <= d[i + 1] && d[i + 1] <= 0x57 {
        2
    } else if i + 4 < d.len() && d[i] == 0x48 && d[i + 1] == 0x89 && (d[i + 2] == 0x5C || d[i + 2]
        == 0x74 || d[i + 2] == 0x7C) && d[i + 3] == 0x24 {
        5
    } else {
        0
    }
}

/// The offsets of the prologues a sweep from offset `i` finds: a match is
/// recorded and skipped whole, otherwise the sweep moves one byte on.
pub open spec fn prologue_offsets(d: Seq<u8>, i: int) -> Seq<int>
    decreases d.len() - i,
{
    if i < 0 || i >= d.len() {
        Seq::empty()
    } else if prologue_len(d, i) > 0 {
        seq![i] + prologue_offsets(d, i + prologue_len(d, i))
    } else {
        prologue_offsets(d, i + 1)
    }
}

/// The section is swept: executable, not empty, and neither a resource
/// nor an exception-data section.
pub open spec fn is_swept(s: SectionData) -> bool {
    s.executable && s.data@.len() > 0 && !starts_with(s.name@, ".rsrc"@) && !starts_with(
        s.name@,
        ".pdata"@,
    )
}

/// The addresses of the prologues found in `s`.
pub open spec fn section_hits(s: SectionData) -> Seq<u64> {
    if is_swept(s) {
        prologue_offsets(s.data@, 0).map_values(|o: int| (s.start + o) as u64)
    } else {
        Seq::empty()
    }
}

/// The addresses found in the first `k` sections, in order.
pub open spec fn sweep_hits(sections: Seq<SectionData>, k: int) -> Seq<u64>
    decreases k,
{
    if k <= 0 {
        Seq::empty()
    } else {
        sweep_hits(sections, k - 1) + section_hits(sections[k - 1])
    }
}

/// The length of the prologue at offset `i`, or zero.
fn match_prologue(d: &Vec<u8>, i: usize) -> (m: usize)
    requires
        i < d@.len(),
    ensures
        m == prologue_len(d@, i as int),
{
    let n = d.len();
    if n > 3 && i < n - 3 && d[i] == 0x55 && d[i + 1] == 0x48 && d[i + 2] == 0x89 && d[i + 3] == 0xE5 {
        return 4;
    }
    if n > 3 && i < n - 3 && d[i] == 0x48 && d[i + 1] == 0x83 && d[i + 2] == 0xEC {
        return 4;
    }
    if i < n - 1 {
        if d[i] == 0x40 && d[i + 1] == 0x53 {
            return 2;
        }
        if d[i] == 0x41 && d[i + 1] >= 0x54 && d[i + 1] <= 0x57 {
            return 2;
        }
    }
    if n > 4 && i < n - 4 && d[i] == 0x48 && d[i + 1] == 0x89 {
        if (d[i + 2] == 0x5C || d[i + 2] == 0x74 || d[i + 2] == 0x7C) && d[i + 3] == 0x24 {
            return 5;
        }
    }
    0
}

/// Scans executable sections for common x86-64 function prologues and
/// returns their addresses, each once, in the order found.
pub fn scan_for_prologues(sections: &[SectionData]) -> (found: IndexSet<u64>)
    requires
        forall|k: int|
            0 <= k < sections@.len() && #[trigger] is_swept(sections@[k]) ==> sections@[k].start
                + sections@[k].data@.len() <= u64::MAX,
    ensures
        u64_set_items(found) == first_occurrences(sweep_hits(sections@, sections@.len() as int)),
{
    let mut found = u64_set_new();
    let ghost mut hits: Seq<u64> = Seq::empty();
    let mut k: usize = 0;
    while k < sections.len()
        invariant
            k <= sections@.len(),
            hits == sweep_hits(sections@, k as int),
            u64_set_items(found) == first_occurrences(hits),
            forall|j: int|
                0 <= j < sections@.len() && #[trigger] is_swept(sections@[j]) ==> sections@[j].start
                    + sections@[j].data@.len() <= u64::MAX,
        decreases sections@.len() - k,
    {
        let section = &sections[k];
        let ghost before = hits;
        let name = to_chars(section.name.as_str());
        if !section.executable || section.data.len() == 0 || chars_start_with(&name, ".rsrc")
            || chars_start_with(&name, ".pdata") {
            proof {
                assert(!is_swept(sections@[k as int]));
                assert(before + section_hits(sections@[k as int]) == before);
            }
        } else {
            let data = &section.data;
            let base = section.start;
            let ghost d = data@;
            let ghost f = |o: int| (base + o) as u64;
            proof {
                assert(is_swept(sections@[k as int]));
                assert(hits + prologue_offsets(d, 0).map_values(f) == before + section_hits(
                    sections@[k as int],
                ));
            }
            let mut i: usize = 0;
            while i < data.len()
                invariant
                    k < sections@.len(),
                    f == (|o: int| (base + o) as u64),
                    d == data@,
                    base == section.start,
                    base + d.len() <= u64::MAX,
                    i <= d.len(),
                    hits + prologue_offsets(d, i as int).map_values(f) == before + section_hits(
                        sections@[k as int],
                    ),
                    section_hits(sections@[k as int]) == prologue_offsets(d, 0).map_values(f),
                    u64_set_items(found) == first_occurrences(hits),
                decreases d.len() - i,
            {
                let m = match_prologue(data, i);
                if m > 0 {
                    let addr = base + i as u64;
                    u64_set_insert(&mut found, addr);
                    proof {
                        let rest = prologue_offsets(d, i + m);
                        assert(prologue_offsets(d, i as int) == seq![i as int] + rest);
                        assert(addr == base + i);
                        assert(f(i as int) == (base + i) as u64);
                        assert(f(i as int) == addr);
                        assert forall|j: int| 0 <= j < (seq![i as int] + rest).len() implies (seq![
                            i as int,
                        ] + rest).map_values(f)[j] == (seq![addr] + rest.map_values(f))[j] by {
                            if j > 0 {
                                assert((seq![i as int] + rest)[j] == rest[j - 1]);
                            }
                        };
                        assert((seq![i as int] + rest).map_values(f) =~= seq![addr] + rest.map_values(f));
                        assert(hits + (seq![addr] + rest.map_values(f)) == hits.push(addr)
                            + rest.map_values(f));
                        assert(hits.push(addr).drop_last() == hits);
                        hits = hits.push(addr);
                    }
                    i += m;
                } else {
                    proof {
                        assert(prologue_offsets(d, i as int) == prologue_offsets(d, i + 1));
                    }
                    i += 1;
                }
            }
            proof {
                assert(prologue_offsets(d, i as int) == Seq::<int>::empty());
                assert(hits + Seq::<u64>::empty() == hits);
            }
        }
        proof {
            assert(sweep_hits(sections@, k + 1) == before + section_hits(sections@[k as int]));
        }
        k += 1;
    }
    found
}

} // verus!
