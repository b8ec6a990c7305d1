//! Semantic diff reports between two analysis snapshots.

use vstd::prelude::*;
use crate::text::{dec, push_dec, str_eq};
use crate::seq_facts::{lemma_map_take_push, lemma_push_no_dup, lemma_push_to_set};

verus! {

/// Functions, types, modules and resources that differ between two
/// snapshots of the semantic database.
#[derive(Debug)]
pub struct DiffReport {
    pub added_functions: Vec<u64>,
    pub removed_functions: Vec<u64>,
    pub modified_functions: Vec<u64>,
    pub added_types: Vec<String>,
    pub removed_types: Vec<String>,
    pub added_modules: Vec<String>,
    pub removed_modules: Vec<String>,
    pub added_resources: Vec<String>,
    pub removed_resources: Vec<String>,
}

/// Renders and compares semantic diff reports.
pub struct SemanticDiff;

pub const MD_TITLE: &'static str = "# Semantic Diff Report\n\n## Functions\n- **Added**: ";
pub const MD_REMOVED: &'static str = "\n- **Removed**: ";
pub const MD_MODIFIED: &'static str = "\n- **Modified**: ";
pub const MD_TYPES: &'static str = "\n\n## Types\n- **Added**: ";
pub const MD_MODULES: &'static str = "\n\n## Modules\n- **Added**: ";
pub const MD_RESOURCES: &'static str = "\n\n## Resources\n- **Added**: ";
pub const MD_END: &'static str = "\n\n";

/// The Markdown summary of `r`: the number of entries in each list.
pub open spec fn markdown_text(r: DiffReport) -> Seq<char> {
    MD_TITLE@ + dec(r.added_functions@.len()) + MD_REMOVED@ + dec(r.removed_functions@.len())
        + MD_MODIFIED@ + dec(r.modified_functions@.len()) + MD_TYPES@ + dec(r.added_types@.len())
        + MD_REMOVED@ + dec(r.removed_types@.len()) + MD_MODULES@ + dec(r.added_modules@.len())
        + MD_REMOVED@ + dec(r.removed_modules@.len()) + MD_RESOURCES@ + dec(
        r.added_resources@.len(),
    ) + MD_REMOVED@ + dec(r.removed_resources@.len()) + MD_END@
}

/// What a diff reads of one function of the semantic database.
#[derive(Debug, Clone, Copy, PartialEq, Eq)]
pub struct FunctionSnapshot {
    pub address: u64,
    /// Number of basic blocks recorded for the function.
    pub cfg_blocks: usize,
    /// Number of outgoing cross-references recorded for the function.
    pub xrefs_out: usize,
}

/// What a diff reads of a semantic database: its functions (one entry per
/// address), and the names of its structure types, of its sections and the
/// values of its string resources.
#[derive(Debug)]
pub struct DatabaseSnapshot {
    pub functions: Vec<FunctionSnapshot>,
    pub types: Vec<String>,
    pub modules: Vec<String>,
    pub resources: Vec<String>,
}

/// The addresses of `fs`, in order.
pub open spec fn addresses(fs: Seq<FunctionSnapshot>) -> Seq<u64> {
    fs.map_values(|f: FunctionSnapshot| f.address)
}

/// The character sequences of `v`, in order.
pub open spec fn names(v: Seq<String>) -> Seq<Seq<char>> {
    v.map_values(|s: String| s@)
}

/// `xs` holds each item of `want` exactly once and nothing else.
pub open spec fn lists_exactly<T>(xs: Seq<T>, want: Set<T>) -> bool {
    xs.no_duplicates() && xs.to_set() == want
}

/// Addresses present in both snapshots whose block count or outgoing
/// cross-reference count differs.
pub open spec fn modified_addresses(old: Seq<FunctionSnapshot>, new: Seq<FunctionSnapshot>) -> Set<
    u64,
> {
    Set::new(
        |a: u64|
            exists|i: int, j: int|
                0 <= i < old.len() && 0 <= j < new.len() && old[i].address == a && new[j].address
                    == a && (old[i].cfg_blocks != new[j].cfg_blocks || old[i].xrefs_out
                    != new[j].xrefs_out),
    )
}

/// The report of the changes from `old` to `new`: each list names every
/// item of its kind once, in no particular order.
pub open spec fn diff_matches(r: DiffReport, old: DatabaseSnapshot, new: DatabaseSnapshot) -> bool {
    let oa = addresses(old.functions@).to_set();
    let na = addresses(new.functions@).to_set();
    &&& lists_exactly(r.added_functions@, na.difference(oa))
    &&& lists_exactly(r.removed_functions@, oa.difference(na))
    &&& lists_exactly(r.modified_functions@, modified_addresses(old.functions@, new.functions@))
    &&& lists_exactly(names(r.added_types@), names(new.types@).to_set().difference(names(old.types@).to_set()))
    &&& lists_exactly(names(r.removed_types@), names(old.types@).to_set().difference(names(new.types@).to_set()))
    &&& lists_exactly(names(r.added_modules@), names(new.modules@).to_set().difference(names(old.modules@).to_set()))
    &&& lists_exactly(names(r.removed_modules@), names(old.modules@).to_set().difference(names(new.modules@).to_set()))
    &&& lists_exactly(names(r.added_resources@), names(new.resources@).to_set().difference(names(old.resources@).to_set()))
    &&& lists_exactly(names(r.removed_resources@), names(old.resources@).to_set().difference(names(new.resources@).to_set()))
}

/// The index of the function at `addr` in `fs`, if there is one.
fn find_function(fs: &Vec<FunctionSnapshot>, addr: u64) -> (r: Option<usize>)
    ensures
        match r {
            Some(i) => i < fs@.len() && fs@[i as int].address == addr,
            None => !addresses(fs@).contains(addr),
        },
{
    let mut i: usize = 0;
    while i < fs.len()
        invariant
            i <= fs@.len(),
            forall|k: int| 0 <= k < i ==> fs@[k].address != addr,
        decreases fs@.len() - i,
    {
        if fs[i].address == addr {
            return Some(i);
        }
        i += 1;
    }
    proof {
        if addresses(fs@).contains(addr) {
            let k = choose|k: int| 0 <= k < addresses(fs@).len() && addresses(fs@)[k] == addr;
            assert(fs@[k].address == addr);
        }
    }
    None
}

/// The addresses of `a` that `b` lacks, in `a`'s order.
fn address_difference(a: &Vec<FunctionSnapshot>, b: &Vec<FunctionSnapshot>) -> (r: Vec<u64>)
    requires
        addresses(a@).no_duplicates(),
    ensures
        lists_exactly(r@, addresses(a@).to_set().difference(addresses(b@).to_set())),
{
    let ghost bs = addresses(b@).to_set();
    let mut r: Vec<u64> = Vec::new();
    let mut i: usize = 0;
    while i < a.len()
        invariant
            i <= a@.len(),
            addresses(a@).no_duplicates(),
            bs == addresses(b@).to_set(),
            r@.no_duplicates(),
            r@.to_set() == addresses(a@.take(i as int)).to_set().difference(bs),
        decreases a@.len() - i,
    {
        let addr = a[i].address;
        let ghost p = addresses(a@.take(i as int));
        proof {
            lemma_map_take_push(a@, |f: FunctionSnapshot| f.address, i as int);
            lemma_push_to_set(p, addr);
            assert(!p.contains(addr)) by {
                if p.contains(addr) {
                    let k = choose|k: int| 0 <= k < p.len() && p[k] == addr;
                    assert(addresses(a@)[k] == addresses(a@)[i as int]);
                }
            };
        }
        let found = find_function(b, addr);
        if found.is_none() {
            proof {
                assert(!r@.contains(addr)) by {
                    if r@.contains(addr) {
                        assert(r@.to_set().contains(addr));
                    }
                };
                lemma_push_no_dup(r@, addr);
                lemma_push_to_set(r@, addr);
                assert(!bs.contains(addr));
            }
            r.push(addr);
        } else {
            proof {
                let j = found->0 as int;
                assert(addresses(b@)[j] == addr);
                assert(addresses(b@).contains(addr));
            }
        }
        proof {
            assert(r@.to_set() =~= addresses(a@.take(i + 1)).to_set().difference(bs));
        }
        i += 1;
    }
    proof {
        assert(a@.take(a@.len() as int) == a@);
    }
    r
}

/// Whether `v` holds a string with the characters of `s`.
pub(crate) fn contains_name(v: &Vec<String>, s: &String) -> (r: bool)
    ensures
        r == names(v@).contains(s@),
{
    let mut i: usize = 0;
    while i < v.len()
        invariant
            i <= v@.len(),
            forall|k: int| 0 <= k < i ==> v@[k]@ != s@,
        decreases v@.len() - i,
    {
        if str_eq(v[i].as_str(), s.as_str()) {
            proof {
                assert(names(v@)[i as int] == s@);
            }
            return true;
        }
        i += 1;
    }
    proof {
        if names(v@).contains(s@) {
            let k = choose|k: int| 0 <= k < names(v@).len() && names(v@)[k] == s@;
            assert(v@[k]@ == s@);
        }
    }
    false
}

/// The strings of `a` that `b` lacks, each once, in order of first
/// occurrence in `a`.
fn name_difference(a: &Vec<String>, b: &Vec<String>) -> (r: Vec<String>)
    ensures
        lists_exactly(names(r@), names(a@).to_set().difference(names(b@).to_set())),
{
    let ghost bs = names(b@).to_set();
    let mut r: Vec<String> = Vec::new();
    let mut i: usize = 0;
    while i < a.len()
        invariant
            i <= a@.len(),
            bs == names(b@).to_set(),
            names(r@).no_duplicates(),
            names(r@).to_set() == names(a@.take(i as int)).to_set().difference(bs),
        decreases a@.len() - i,
    {
        let s = &a[i];
        let ghost p = names(a@.take(i as int));
        proof {
            lemma_map_take_push(a@, |x: String| x@, i as int);
            lemma_push_to_set(p, s@);
        }
        if !contains_name(b, s) && !contains_name(&r, s) {
            let c = s.clone();
            proof {
                lemma_push_no_dup(names(r@), s@);
                lemma_push_to_set(names(r@), s@);
                assert(names(r@.push(c)) =~= names(r@).push(s@));
                assert(!bs.contains(s@));
            }
            r.push(c);
        } else {
            proof {
                if !bs.contains(s@) {
                    assert(names(r@).contains(s@));
                    assert(names(r@).to_set().contains(s@));
                }
            }
        }
        proof {
            assert(names(r@).to_set() =~= names(a@.take(i + 1)).to_set().difference(bs));
        }
        i += 1;
    }
    proof {
        assert(a@.take(a@.len() as int) == a@);
    }
    r
}

/// The function at index `i` of `old` is present in `new` with a different
/// block count or outgoing cross-reference count.
pub open spec fn changed_at(old: Seq<FunctionSnapshot>, new: Seq<FunctionSnapshot>, i: int) -> bool {
    exists|j: int|
        0 <= j < new.len() && new[j].address == old[i].address && (old[i].cfg_blocks
            != new[j].cfg_blocks || old[i].xrefs_out != new[j].xrefs_out)
}

/// The addresses of functions of `old` that changed in `new`, in `old`'s
/// order.
fn modified_functions(old: &Vec<FunctionSnapshot>, new: &Vec<FunctionSnapshot>) -> (r: Vec<u64>)
    requires
        addresses(old@).no_duplicates(),
        addresses(new@).no_duplicates(),
    ensures
        lists_exactly(r@, modified_addresses(old@, new@)),
{
    let mut r: Vec<u64> = Vec::new();
    let mut i: usize = 0;
    while i < old.len()
        invariant
            i <= old@.len(),
            addresses(old@).no_duplicates(),
            addresses(new@).no_duplicates(),
            r@.no_duplicates(),
            forall|x: u64|
                r@.contains(x) <==> exists|k: int|
                    0 <= k < i && old@[k].address == x && changed_at(old@, new@, k),
        decreases old@.len() - i,
    {
        let f = old[i];
        let ghost before = r@;
        match find_function(new, f.address) {
            Some(j) => {
                let g = new[j];
                if f.cfg_blocks != g.cfg_blocks || f.xrefs_out != g.xrefs_out {
                    proof {
                        assert(changed_at(old@, new@, i as int));
                        assert(!before.contains(f.address)) by {
                            if before.contains(f.address) {
                                let k = choose|k: int|
                                    0 <= k < i && old@[k].address == f.address && changed_at(
                                        old@,
                                        new@,
                                        k,
                                    );
                                assert(addresses(old@)[k] == addresses(old@)[i as int]);
                            }
                        };
                        lemma_push_no_dup(before, f.address);
                    }
                    r.push(f.address);
                } else {
                    proof {
                        assert(!changed_at(old@, new@, i as int)) by {
                            if changed_at(old@, new@, i as int) {
                                let jj = choose|jj: int|
                                    0 <= jj < new@.len() && new@[jj].address == old@[i as int].address
                                        && (old@[i as int].cfg_blocks != new@[jj].cfg_blocks
                                        || old@[i as int].xrefs_out != new@[jj].xrefs_out);
                                assert(addresses(new@)[jj] == addresses(new@)[j as int]);
                            }
                        };
                    }
                }
            },
            None => {
                proof {
                    assert(!changed_at(old@, new@, i as int)) by {
                        if changed_at(old@, new@, i as int) {
                            let jj = choose|jj: int|
                                0 <= jj < new@.len() && new@[jj].address == old@[i as int].address
                                    && (old@[i as int].cfg_blocks != new@[jj].cfg_blocks
                                    || old@[i as int].xrefs_out != new@[jj].xrefs_out);
                            assert(addresses(new@)[jj] == f.address);
                        }
                    };
                }
            },
        }
        proof {
            broadcast use vstd::seq_lib::group_seq_properties;

            assert forall|x: u64|
                r@.contains(x) <==> exists|k: int|
                    0 <= k < i + 1 && old@[k].address == x && changed_at(old@, new@, k) by {
                if exists|k: int| 0 <= k < i + 1 && old@[k].address == x && changed_at(old@, new@, k) {
                    let k = choose|k: int|
                        0 <= k < i + 1 && old@[k].address == x && changed_at(old@, new@, k);
                    if k < i {
                        assert(before.contains(x));
                    }
                }
            };
        }
        i += 1;
    }
    proof {
        assert forall|x: u64| r@.to_set().contains(x) <==> modified_addresses(old@, new@).contains(x) by {
            if r@.contains(x) {
                let k = choose|k: int|
                    0 <= k < old@.len() && old@[k].address == x && changed_at(old@, new@, k);
                let j = choose|j: int|
                    0 <= j < new@.len() && new@[j].address == old@[k].address && (old@[k].cfg_blocks
                        != new@[j].cfg_blocks || old@[k].xrefs_out != new@[j].xrefs_out);
                assert(modified_addresses(old@, new@).contains(x));
            }
            if modified_addresses(old@, new@).contains(x) {
                let (k, j) = choose|k: int, j: int|
                    0 <= k < old@.len() && 0 <= j < new@.len() && old@[k].address == x
                        && new@[j].address == x && (old@[k].cfg_blocks != new@[j].cfg_blocks
                        || old@[k].xrefs_out != new@[j].xrefs_out);
                assert(changed_at(old@, new@, k));
            }
        };
        assert(r@.to_set() =~= modified_addresses(old@, new@));
    }
    r
}

/// A list that names exactly the items of the empty set is empty.
proof fn lemma_lists_nothing<T>(xs: Seq<T>)
    requires
        lists_exactly(xs, Set::<T>::empty()),
    ensures
        xs.len() == 0,
{
    if xs.len() > 0 {
        assert(xs.to_set().contains(xs[0]));
    }
}

/// Comparing a snapshot with itself reports no change at all.
pub proof fn law_compare_identical(r: DiffReport, s: DatabaseSnapshot)
    requires
        addresses(s.functions@).no_duplicates(),
        diff_matches(r, s, s),
    ensures
        r.added_functions@.len() == 0,
        r.removed_functions@.len() == 0,
        r.modified_functions@.len() == 0,
        r.added_types@.len() == 0,
        r.removed_types@.len() == 0,
        r.added_modules@.len() == 0,
        r.removed_modules@.len() == 0,
        r.added_resources@.len() == 0,
        r.removed_resources@.len() == 0,
{
    let fs = s.functions@;
    let a = addresses(fs).to_set();
    assert(a.difference(a) =~= Set::<u64>::empty());
    assert(modified_addresses(fs, fs) =~= Set::<u64>::empty()) by {
        assert forall|x: u64| !modified_addresses(fs, fs).contains(x) by {
            if modified_addresses(fs, fs).contains(x) {
                let (i, j) = choose|i: int, j: int|
                    0 <= i < fs.len() && 0 <= j < fs.len() && fs[i].address == x && fs[j].address
                        == x && (fs[i].cfg_blocks != fs[j].cfg_blocks || fs[i].xrefs_out
                        != fs[j].xrefs_out);
                assert(addresses(fs)[i] == addresses(fs)[j]);
            }
        };
    };
    let t = names(s.types@).to_set();
    let m = names(s.modules@).to_set();
    let res = names(s.resources@).to_set();
    assert(t.difference(t) =~= Set::<Seq<char>>::empty());
    assert(m.difference(m) =~= Set::<Seq<char>>::empty());
    assert(res.difference(res) =~= Set::<Seq<char>>::empty());
    lemma_lists_nothing(r.added_functions@);
    lemma_lists_nothing(r.removed_functions@);
    lemma_lists_nothing(r.modified_functions@);
    lemma_lists_nothing(names(r.added_types@));
    lemma_lists_nothing(names(r.removed_types@));
    lemma_lists_nothing(names(r.added_modules@));
    lemma_lists_nothing(names(r.removed_modules@));
    lemma_lists_nothing(names(r.added_resources@));
    lemma_lists_nothing(names(r.removed_resources@));
}

impl SemanticDiff {
    /// Compares two snapshots: functions added, removed, and present in both
    /// with a different block or outgoing cross-reference count; structure
    /// types, sections and string resources added and removed. Each list
    /// names every such item once.
    pub fn compare(old: &DatabaseSnapshot, new: &DatabaseSnapshot) -> (r: DiffReport)
        requires
            addresses(old.functions@).no_duplicates(),
            addresses(new.functions@).no_duplicates(),
        ensures
            diff_matches(r, *old, *new),
    {
        let added_functions = address_difference(&new.functions, &old.functions);
        let removed_functions = address_difference(&old.functions, &new.functions);
        let modified_functions = modified_functions(&old.functions, &new.functions);
        let added_types = name_difference(&new.types, &old.types);
        let removed_types = name_difference(&old.types, &new.types);
        let added_modules = name_difference(&new.modules, &old.modules);
        let removed_modules = name_difference(&old.modules, &new.modules);
        let added_resources = name_difference(&new.resources, &old.resources);
        let removed_resources = name_difference(&old.resources, &new.resources);
        DiffReport {
            added_functions,
            removed_functions,
            modified_functions,
            added_types,
            removed_types,
            added_modules,
            removed_modules,
            added_resources,
            removed_resources,
        }
    }

    /// Renders the counts of a diff report as Markdown.
    pub fn to_markdown(report: &DiffReport) -> (r: String)
        ensures
            r@ == markdown_text(*report),
    {
        let mut md = String::new();
        md.append(MD_TITLE);
        push_dec(&mut md, report.added_functions.len() as u64);
        md.append(MD_REMOVED);
        push_dec(&mut md, report.removed_functions.len() as u64);
        md.append(MD_MODIFIED);
        push_dec(&mut md, report.modified_functions.len() as u64);
        md.append(MD_TYPES);
        push_dec(&mut md, report.added_types.len() as u64);
        md.append(MD_REMOVED);
        push_dec(&mut md, report.removed_types.len() as u64);
        md.append(MD_MODULES);
        push_dec(&mut md, report.added_modules.len() as u64);
        md.append(MD_REMOVED);
        push_dec(&mut md, report.removed_modules.len() as u64);
        md.append(MD_RESOURCES);
        push_dec(&mut md, report.added_resources.len() as u64);
        md.append(MD_REMOVED);
        push_dec(&mut md, report.removed_resources.len() as u64);
        md.append(MD_END);
        assert(md@ =~= markdown_text(*report));
        md
    }
}

} // verus!
