//! Naming recovery: the candidate names of each recorded function, from
//! its symbol (demangled where it is mangled), from the APIs it calls and
//! from the strings it reads.

use vstd::prelude::*;
use indexmap::IndexMap;
use crate::collections::{function_table_items, function_table_name, function_table_records};
use crate::recovered_types::{function_view, FunctionView, SdbFunction, SdbXref, XrefKind};
use crate::collections::assoc_get;
use crate::text::{chars_contain_text, chars_start_with, contains_text, starts_with, to_chars};

verus! {

/// What `cpp_demangle` makes of an Itanium-mangled name: the text that
/// `Symbol::demangle` gives with the default options, or `None` where the
/// name does not parse or does not demangle.
pub uninterp spec fn itanium_demangling(name: Seq<char>) -> Option<Seq<char>>;

/// `cpp_demangle::Symbol::new` on the name, then `Symbol::demangle` on the
/// parsed symbol: the result is what `itanium_demangling` names.
#[verifier::external_body]
fn demangle_itanium(name: &str) -> (r: Option<String>)
    ensures
        match r {
            Some(d) => itanium_demangling(name@) == Some(d@),
            None => itanium_demangling(name@) is None,
        },
{
    match cpp_demangle::Symbol::new(name) {
        Ok(sym) => sym.demangle().ok(),
        Err(_) => None,
    }
}

/// What `msvc_demangler::demangle` makes of an MSVC-decorated name with the
/// flags that leave out access specifiers and member types and keep the
/// name only, or `None` where it fails.
pub uninterp spec fn msvc_name_demangling(name: Seq<char>) -> Option<Seq<char>>;

/// The length of the run of digits that ends just before position `i` of
/// `n`.
pub open spec fn digit_run(n: Seq<char>, i: int) -> nat
    decreases i,
{
    if i <= 0 || i > n.len() {
        0
    } else if is_digit(n[i - 1]) {
        digit_run(n, i - 1) + 1
    } else {
        0
    }
}

/// The length of the run of letters `A` to `P` that ends just before
/// position `i` of `n`.
pub open spec fn letter_run(n: Seq<char>, i: int) -> nat
    decreases i,
{
    if i <= 0 || i > n.len() {
        0
    } else if is_number_letter(n[i - 1]) {
        letter_run(n, i - 1) + 1
    } else {
        0
    }
}

/// An ASCII decimal digit.
pub open spec fn is_digit(c: char) -> bool {
    '0' <= c && c <= '9'
}

/// A letter that the MSVC scheme uses as a hexadecimal digit (`A` to `P`).
pub open spec fn is_number_letter(c: char) -> bool {
    'A' <= c && c <= 'P'
}

/// How many `?` characters the first `i` characters of `n` hold.
pub open spec fn marks_before(n: Seq<char>, i: int) -> nat
    decreases i,
{
    if i <= 0 || i > n.len() {
        0
    } else {
        marks_before(n, i - 1) + if n[i - 1] == '?' { 1nat } else { 0nat }
    }
}

/// A decorated name that the MSVC demangler handles without overflowing:
/// at most 256 characters and 16 `?` marks (which bounds its recursion),
/// no string-constant symbol (`??_C`), no escaped byte pair `?$` with a
/// character before `A` after it (both underflow an escape's decoding),
/// no run of nine digits (a guard number past `i32`) and no run of eight
/// letters `A` to `P` (an encoded number past `i32`).
pub open spec fn msvc_demangle_safe(n: Seq<char>) -> bool {
    &&& escapes_in_range(n)
    &&& n.len() <= 256
    &&& marks_before(n, n.len() as int) <= 16
    &&& !contains_text(n, "??_C"@)
    &&& forall|i: int| 0 <= i <= n.len() ==> #[trigger] digit_run(n, i) < 9
    &&& forall|i: int| 0 <= i <= n.len() ==> #[trigger] letter_run(n, i) < 8
}

/// At position `i`, `n` holds no `?$` whose next two characters (where
/// present) come before `A`.
pub open spec fn escape_ok_at(n: Seq<char>, i: int) -> bool {
    (i + 1 < n.len() && n[i] == '?' && n[i + 1] == '$') ==> ((i + 2 < n.len() ==> (n[i + 2] as u32) >= 65)
        && (i + 3 < n.len() ==> (n[i + 3] as u32) >= 65))
}

/// Each `?$` is followed by characters from `A` on: read as an escaped
/// byte pair of a string constant, neither byte is below `A`.
pub open spec fn escapes_in_range(n: Seq<char>) -> bool {
    forall|i: int| 0 <= i < n.len() ==> #[trigger] escape_ok_at(n, i)
}

fn escapes_ok(n: &Vec<char>) -> (r: bool)
    ensures
        r == escapes_in_range(n@),
{
    let len = n.len();
    let mut i: usize = 0;
    while i < len
        invariant
            len == n@.len(),
            i <= len,
            forall|k: int| 0 <= k < i ==> #[trigger] escape_ok_at(n@, k),
        decreases len - i,
    {
        if len - i > 1 && n[i] == '?' && n[i + 1] == '$' {
            if len - i > 2 && (n[i + 2] as u32) < 65 {
                assert(!escape_ok_at(n@, i as int));
                return false;
            }
            if len - i > 3 && (n[i + 3] as u32) < 65 {
                assert(!escape_ok_at(n@, i as int));
                return false;
            }
        }
        assert(escape_ok_at(n@, i as int));
        i = i + 1;
    }
    true
}

/// Whether `n` is a name that the MSVC demangler handles safely.
fn msvc_name_is_safe(n: &Vec<char>) -> (r: bool)
    ensures
        r == msvc_demangle_safe(n@),
{
    if !escapes_ok(n) {
        return false;
    }
    if n.len() > 256 {
        return false;
    }
    if chars_contain_text(n, "??_C") {
        return false;
    }
    let mut marks: usize = 0;
    let mut digits: usize = 0;
    let mut letters: usize = 0;
    let mut ok = true;
    let mut i: usize = 0;
    while i < n.len()
        invariant
            n@.len() <= 256,
            i <= n@.len(),
            marks == marks_before(n@, i as int),
            marks <= i,
            digits == digit_run(n@, i as int),
            letters == letter_run(n@, i as int),
            digits <= i,
            letters <= i,
            ok == (forall|j: int| 0 <= j <= i ==> #[trigger] digit_run(n@, j) < 9 && letter_run(n@, j) < 8),
        decreases n@.len() - i,
    {
        let c = n[i];
        if c == '?' {
            marks += 1;
        }
        if '0' <= c && c <= '9' {
            digits += 1;
        } else {
            digits = 0;
        }
        if 'A' <= c && c <= 'P' {
            letters += 1;
        } else {
            letters = 0;
        }
        proof {
            assert(digit_run(n@, i + 1) == digits);
            assert(letter_run(n@, i + 1) == letters);
        }
        ok = ok && digits < 9 && letters < 8;
        i += 1;
    }
    proof {
        if ok {
            assert forall|j: int| 0 <= j <= n@.len() implies #[trigger] digit_run(n@, j) < 9 by {
                assert(digit_run(n@, j) < 9 && letter_run(n@, j) < 8);
            }
            assert forall|j: int| 0 <= j <= n@.len() implies #[trigger] letter_run(n@, j) < 8 by {
                assert(digit_run(n@, j) < 9 && letter_run(n@, j) < 8);
            }
        } else {
            let j = choose|j: int| 0 <= j <= i && !(#[trigger] digit_run(n@, j) < 9 && letter_run(n@, j) < 8);
            if digit_run(n@, j) >= 9 {
                assert(!(digit_run(n@, j) < 9));
            } else {
                assert(!(letter_run(n@, j) < 8));
            }
        }
    }
    ok && marks <= 16
}

/// `msvc_demangler::demangle` on the name with `NO_ACCESS_SPECIFIERS`,
/// `NO_MEMBER_TYPE` and `NAME_ONLY`: the result is what
/// `msvc_name_demangling` names. Asked only of names that
/// `msvc_demangle_safe` admits. In msvc-demangler 0.11.0 the arithmetic
/// that can overflow is the guard number of `$TSS` names (`src/lib.rs`
/// line 521, `guard_num * 10 + digit` on `i32`: eight digits stay below
/// `i32::MAX`), the encoded number of `read_number` (line 817,
/// `(ret << 4) + digit` on `i32`: seven letters `A` to `P` stay below it)
/// and the escaped byte pair `?$` of `read_encoded_string` (lines 764 and
/// 765 subtract `b'A'` from the two bytes after it, which
/// `escapes_in_range` keeps from `A` on); its index reads are checked
/// first (lines 877 to 881, 930 to 935, 1372 and 1485), and its recursion
/// consumes input, so the length bound and the bound on `?` marks bound
/// its depth. That no other input panics is
/// not stated by the crate's documentation; it rests on that reading.
#[verifier::external_body]
fn demangle_msvc_name(name: &str) -> (r: Option<String>)
    requires
        msvc_demangle_safe(name@),
    ensures
        match r {
            Some(d) => msvc_name_demangling(name@) == Some(d@),
            None => msvc_name_demangling(name@) is None,
        },
{
    let flags = msvc_demangler::DemangleFlags::NO_ACCESS_SPECIFIERS | msvc_demangler::DemangleFlags::NO_MEMBER_TYPE
        | msvc_demangler::DemangleFlags::NAME_ONLY;
    msvc_demangler::demangle(name, flags).ok()
}

/// What supports a candidate name.
#[derive(Debug, Clone, PartialEq, Eq)]
pub enum NameEvidence {
    /// A symbol of the binary, demangled or as it stands, and where the
    /// name came from.
    DebugSymbol { name: String, source: String },
    /// A pattern of the APIs the function calls.
    ImportSignature(String),
    /// A string the function reads, by its address.
    StringContext(u64),
}

/// A candidate name with its evidence.
#[derive(Debug, Clone, PartialEq, Eq)]
pub struct NameCandidate {
    pub description: String,
    pub evidence: NameEvidence,
}

/// Evidence as the contracts speak of it.
pub enum EvidenceView {
    DebugSymbol { name: Seq<char>, source: Seq<char> },
    ImportSignature(Seq<char>),
    StringContext(u64),
}

/// A candidate by its name and evidence.
pub type CandidateView = (Seq<char>, EvidenceView);

/// The view of a candidate.
pub open spec fn candidate_view(c: NameCandidate) -> CandidateView {
    (
        c.description@,
        match c.evidence {
            NameEvidence::DebugSymbol { name, source } => EvidenceView::DebugSymbol { name: name@, source: source@ },
            NameEvidence::ImportSignature(p) => EvidenceView::ImportSignature(p@),
            NameEvidence::StringContext(a) => EvidenceView::StringContext(a),
        },
    )
}

/// The candidate for a demangled symbol.
pub open spec fn demangled_candidate(d: Seq<char>) -> CandidateView {
    (d, EvidenceView::DebugSymbol { name: d, source: "demangler"@ })
}

/// The candidate from the function's own symbol: an Itanium name
/// (starting `_Z`) or an MSVC name (starting `?`, and one the demangler
/// handles safely) demangled, where that succeeds; any other name as it
/// stands.
pub open spec fn symbol_candidates(name: Option<Seq<char>>) -> Seq<CandidateView> {
    match name {
        None => Seq::empty(),
        Some(n) => if starts_with(n, "_Z"@) {
            match itanium_demangling(n) {
                Some(d) => seq![demangled_candidate(d)],
                None => Seq::empty(),
            }
        } else if starts_with(n, "?"@) {
            if msvc_demangle_safe(n) {
                match msvc_name_demangling(n) {
                    Some(d) => seq![demangled_candidate(d)],
                    None => Seq::empty(),
                }
            } else {
                Seq::empty()
            }
        } else {
            seq![(n, EvidenceView::DebugSymbol { name: n, source: "original"@ })]
        },
    }
}

/// The names of the recorded functions that the first `k` cross-references
/// call, in order.
pub open spec fn called_names(funcs: Seq<(u64, FunctionView)>, xrefs: Seq<SdbXref>, k: int) -> Seq<Seq<char>>
    decreases k,
{
    if k <= 0 {
        Seq::empty()
    } else {
        let prev = called_names(funcs, xrefs, k - 1);
        let x = xrefs[k - 1];
        if x.xref_kind == XrefKind::Call {
            match assoc_get(funcs, x.to_addr) {
                Some(f) => match f.0 {
                    Some(n) => prev.push(n),
                    None => prev,
                },
                None => prev,
            }
        } else {
            prev
        }
    }
}

/// Some name among `names` contains `p`.
pub open spec fn any_contains(names: Seq<Seq<char>>, p: Seq<char>) -> bool {
    exists|i: int| 0 <= i < names.len() && contains_text(#[trigger] names[i], p)
}

/// The candidates from the APIs called: a message-box dialog where a
/// called name contains `MessageBox`, a network client where one contains
/// `socket`.
pub open spec fn api_candidates(names: Seq<Seq<char>>) -> Seq<CandidateView> {
    (if any_contains(names, "MessageBox"@) {
        seq![("ShowMessageDialog"@, EvidenceView::ImportSignature("MessageBox heuristic"@))]
    } else {
        Seq::empty()
    }) + (if any_contains(names, "socket"@) {
        seq![("NetworkClient_Connect"@, EvidenceView::ImportSignature("socket heuristic"@))]
    } else {
        Seq::empty()
    })
}

/// The address of the string that reports a socket failure.
pub const SOCKET_FAILURE_STRING: u64 = 0x8000_1000;

/// The address of the string that announces graphics initialisation.
pub const GRAPHICS_STRING: u64 = 0x8000_2000;

/// The candidates from the strings that the first `k` cross-references
/// read: a socket-failure logger for the socket-failure string, a graphics
/// initialiser for the graphics string.
pub open spec fn string_candidates(xrefs: Seq<SdbXref>, k: int) -> Seq<CandidateView>
    decreases k,
{
    if k <= 0 {
        Seq::empty()
    } else {
        let prev = string_candidates(xrefs, k - 1);
        let x = xrefs[k - 1];
        if x.xref_kind == XrefKind::Read && x.to_addr == SOCKET_FAILURE_STRING {
            prev.push(("LogSocketFailure"@, EvidenceView::StringContext(x.to_addr)))
        } else if x.xref_kind == XrefKind::Read && x.to_addr == GRAPHICS_STRING {
            prev.push(("InitGraphics"@, EvidenceView::StringContext(x.to_addr)))
        } else {
            prev
        }
    }
}

/// All candidates for a function, in order: from its symbol, from the APIs
/// it calls, from the strings it reads.
pub open spec fn function_candidates(funcs: Seq<(u64, FunctionView)>, f: FunctionView) -> Seq<CandidateView> {
    symbol_candidates(f.0) + api_candidates(called_names(funcs, f.1, f.1.len() as int)) + string_candidates(
        f.1,
        f.1.len() as int,
    )
}

/// The candidates of a list, by their views.
pub open spec fn candidates_view(cs: Seq<NameCandidate>) -> Seq<CandidateView> {
    cs.map_values(|c: NameCandidate| candidate_view(c))
}

/// The candidate for a demangled name.
fn demangled(d: String) -> (c: NameCandidate)
    ensures
        candidate_view(c) == demangled_candidate(d@),
{
    let name = d.clone();
    NameCandidate {
        description: d,
        evidence: NameEvidence::DebugSymbol { name, source: "demangler".to_string() },
    }
}

/// The candidates from a function's symbol.
fn symbol_candidates_of(name: &Option<String>) -> (r: Vec<NameCandidate>)
    ensures
        candidates_view(r@) == symbol_candidates(
            match name {
                Some(n) => Some(n@),
                None => None,
            },
        ),
{
    let mut r: Vec<NameCandidate> = Vec::new();
    match name {
        None => {},
        Some(n) => {
            let chars = to_chars(n.as_str());
            if chars_start_with(&chars, "_Z") {
                match demangle_itanium(n.as_str()) {
                    Some(d) => r.push(demangled(d)),
                    None => {},
                }
            } else if chars_start_with(&chars, "?") {
                if msvc_name_is_safe(&chars) {
                    match demangle_msvc_name(n.as_str()) {
                        Some(d) => r.push(demangled(d)),
                        None => {},
                    }
                }
            } else {
                r.push(
                    NameCandidate {
                        description: n.clone(),
                        evidence: NameEvidence::DebugSymbol { name: n.clone(), source: "original".to_string() },
                    },
                );
            }
        },
    }
    proof {
        assert(candidates_view(r@) =~= symbol_candidates(
            match name {
                Some(n) => Some(n@),
                None => None,
            },
        ));
    }
    r
}

/// Collects the candidate names of every recorded function, in the order
/// of the table: demangled (or original) symbols, API-call patterns and
/// string references. Ranking them is left to the caller.
pub fn naming_candidates(functions: &IndexMap<u64, SdbFunction>) -> (r: Vec<(u64, Vec<NameCandidate>)>)
    ensures
        r@.len() == function_table_items(*functions).len(),
        forall|k: int|
            0 <= k < r@.len() ==> {
                let e = function_table_items(*functions)[k];
                &&& (#[trigger] r@[k]).0 == e.0
                &&& candidates_view(r@[k].1@) == function_candidates(function_table_items(*functions), e.1)
            },
{
    let ghost funcs = function_table_items(*functions);
    let records = function_table_records(functions);
    let mut out: Vec<(u64, Vec<NameCandidate>)> = Vec::new();
    for k in 0..records.len()
        invariant
            funcs == function_table_items(*functions),
            records@.map_values(|e: (u64, SdbFunction)| (e.0, function_view(e.1))) == funcs,
            out@.len() == k,
            forall|q: int|
                0 <= q < k ==> {
                    let e = funcs[q];
                    &&& (#[trigger] out@[q]).0 == e.0
                    &&& candidates_view(out@[q].1@) == function_candidates(funcs, e.1)
                },
    {
        let addr = records[k].0;
        let f = &records[k].1;
        let ghost fv = function_view(*f);
        proof {
            assert(funcs[k as int] == (addr, fv));
        }
        let mut candidates = symbol_candidates_of(&f.name);
        let xrefs = &f.xrefs_out;
        let mut calls_message_box = false;
        let mut calls_socket = false;
        let ghost mut names: Seq<Seq<char>> = Seq::empty();
        for i in 0..xrefs.len()
            invariant
                funcs == function_table_items(*functions),
                xrefs@ == fv.1,
                names == called_names(funcs, fv.1, i as int),
                calls_message_box == any_contains(names, "MessageBox"@),
                calls_socket == any_contains(names, "socket"@),
        {
            let x = xrefs[i];
            if x.xref_kind == XrefKind::Call {
                match function_table_name(functions, x.to_addr) {
                    Some(n) => {
                        let chars = to_chars(n.as_str());
                        let m = chars_contain_text(&chars, "MessageBox");
                        let s = chars_contain_text(&chars, "socket");
                        proof {
                            let next = names.push(n@);
                            assert(next[names.len() as int] == n@);
                            assert(any_contains(next, "MessageBox"@) == (any_contains(names, "MessageBox"@) || m)) by {
                                if any_contains(next, "MessageBox"@) && !m {
                                    let j = choose|j: int| 0 <= j < next.len() && contains_text(#[trigger] next[j], "MessageBox"@);
                                    assert(next[j] == names[j]);
                                }
                                if any_contains(names, "MessageBox"@) {
                                    let j = choose|j: int| 0 <= j < names.len() && contains_text(#[trigger] names[j], "MessageBox"@);
                                    assert(next[j] == names[j]);
                                }
                            }
                            assert(any_contains(next, "socket"@) == (any_contains(names, "socket"@) || s)) by {
                                if any_contains(next, "socket"@) && !s {
                                    let j = choose|j: int| 0 <= j < next.len() && contains_text(#[trigger] next[j], "socket"@);
                                    assert(next[j] == names[j]);
                                }
                                if any_contains(names, "socket"@) {
                                    let j = choose|j: int| 0 <= j < names.len() && contains_text(#[trigger] names[j], "socket"@);
                                    assert(next[j] == names[j]);
                                }
                            }
                            names = next;
                        }
                        calls_message_box = calls_message_box || m;
                        calls_socket = calls_socket || s;
                    },
                    None => {},
                }
            }
        }
        let ghost before_api = candidates@;
        if calls_message_box {
            candidates.push(
                NameCandidate {
                    description: "ShowMessageDialog".to_string(),
                    evidence: NameEvidence::ImportSignature("MessageBox heuristic".to_string()),
                },
            );
        }
        if calls_socket {
            candidates.push(
                NameCandidate {
                    description: "NetworkClient_Connect".to_string(),
                    evidence: NameEvidence::ImportSignature("socket heuristic".to_string()),
                },
            );
        }
        proof {
            assert(candidates_view(candidates@) =~= candidates_view(before_api) + api_candidates(names));
        }
        let ghost before_strings = candidates_view(candidates@);
        for i in 0..xrefs.len()
            invariant
                xrefs@ == fv.1,
                candidates_view(candidates@) == before_strings + string_candidates(fv.1, i as int),
        {
            let x = xrefs[i];
            let ghost pre = candidates@;
            proof {
                assert(fv.1[i as int] == x);
                assert(candidates_view(pre) == before_strings + string_candidates(fv.1, i as int));
            }
            if x.xref_kind == XrefKind::Read && x.to_addr == SOCKET_FAILURE_STRING {
                candidates.push(
                    NameCandidate {
                        description: "LogSocketFailure".to_string(),
                        evidence: NameEvidence::StringContext(x.to_addr),
                    },
                );
            } else if x.xref_kind == XrefKind::Read && x.to_addr == GRAPHICS_STRING {
                candidates.push(
                    NameCandidate { description: "InitGraphics".to_string(), evidence: NameEvidence::StringContext(x.to_addr) },
                );
            }
            proof {
                if candidates@.len() > pre.len() {
                    assert(candidates@ == pre.push(candidates@.last()));
                    assert(candidates_view(candidates@) =~= candidates_view(pre).push(candidate_view(candidates@.last())));
                } else {
                    assert(candidates@ == pre);
                }
                assert(candidates_view(candidates@) =~= before_strings + string_candidates(fv.1, i + 1));
            }
        }
        out.push((addr, candidates));
    }
    out
}

} // verus!
