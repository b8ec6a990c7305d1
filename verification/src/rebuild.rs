//! Round-trip rebuild checks: reading a compiler's output for the
//! diagnostics that matter and attributing them to the reconstruction
//! stage that most likely caused them.

use vstd::prelude::*;
use crate::program_emit::{lines_of, split_lines};
use crate::text::{chars_contain_text, contains_text, to_chars};

verus! {

/// The reconstruction stage a compiler diagnostic is attributed to.
#[derive(Debug, Clone, Copy, PartialEq, Eq, Structural)]
pub enum FailedSubsystem {
    /// Unresolved symbols: calls or control flow recovered wrongly.
    ControlFlowRecovery,
    /// Incomplete types: a recovered type is missing its definition.
    TypeInference,
}

/// The line reports an error (GCC, Clang or MSVC style).
pub open spec fn is_error_line(l: Seq<char>) -> bool {
    contains_text(l, "error:"@) || contains_text(l, "error C"@) || contains_text(l, "fatal error"@)
}

/// The stage an error line is attributed to, if any.
pub open spec fn blamed_subsystem(l: Seq<char>) -> Option<FailedSubsystem> {
    if contains_text(l, "undefined reference"@) || contains_text(l, "LNK2019"@) {
        Some(FailedSubsystem::ControlFlowRecovery)
    } else if contains_text(l, "incomplete type"@) || contains_text(l, "C2027"@) {
        Some(FailedSubsystem::TypeInference)
    } else {
        None
    }
}

/// The error lines of `ls`, in order.
pub open spec fn error_lines(ls: Seq<Seq<char>>) -> Seq<Seq<char>>
    decreases ls.len(),
{
    if ls.len() == 0 {
        Seq::empty()
    } else {
        let r = error_lines(ls.drop_last());
        if is_error_line(ls.last()) {
            r.push(ls.last())
        } else {
            r
        }
    }
}

/// The number of lines of `ls` attributed to `sub`.
pub open spec fn blame_count(ls: Seq<Seq<char>>, sub: FailedSubsystem) -> nat
    decreases ls.len(),
{
    if ls.len() == 0 {
        0
    } else {
        blame_count(ls.drop_last(), sub) + if blamed_subsystem(ls.last()) == Some(sub) {
            1nat
        } else {
            0nat
        }
    }
}

/// The lines a build printed: those of its error stream, then those of its
/// output stream.
pub open spec fn build_lines(stderr: Seq<char>, stdout: Seq<char>) -> Seq<Seq<char>> {
    lines_of(stderr) + lines_of(stdout)
}

/// The diagnostics found in a build's output.
#[derive(Debug)]
pub struct BuildDiagnostics {
    /// The error lines, in order.
    pub diagnostics: Vec<String>,
    /// Error lines attributed to control-flow recovery.
    pub control_flow_failures: usize,
    /// Error lines attributed to type inference.
    pub type_inference_failures: usize,
}

/// The character sequences of `v`, in order.
pub open spec fn texts(v: Seq<String>) -> Seq<Seq<char>> {
    v.map_values(|s: String| s@)
}

/// `r` is the scan of the lines `ls`.
pub open spec fn scan_matches(r: BuildDiagnostics, ls: Seq<Seq<char>>) -> bool {
    &&& texts(r.diagnostics@) == error_lines(ls)
    &&& r.control_flow_failures == blame_count(error_lines(ls), FailedSubsystem::ControlFlowRecovery)
    &&& r.type_inference_failures == blame_count(error_lines(ls), FailedSubsystem::TypeInference)
}

/// The stage an error line is attributed to, if any.
fn blame(line: &Vec<char>) -> (r: Option<FailedSubsystem>)
    ensures
        r == blamed_subsystem(line@),
{
    if chars_contain_text(line, "undefined reference") || chars_contain_text(line, "LNK2019") {
        Some(FailedSubsystem::ControlFlowRecovery)
    } else if chars_contain_text(line, "incomplete type") || chars_contain_text(line, "C2027") {
        Some(FailedSubsystem::TypeInference)
    } else {
        None
    }
}

/// A string holding the characters of `v`.
fn chars_to_string(v: &Vec<char>) -> (s: String)
    ensures
        s@ == v@,
{
    let mut s = String::new();
    crate::text::push_chars(&mut s, v);
    s
}

/// No more lines are attributed to a stage than there are lines.
proof fn lemma_blame_count_bound(ls: Seq<Seq<char>>, sub: FailedSubsystem)
    ensures
        blame_count(ls, sub) <= ls.len(),
    decreases ls.len(),
{
    if ls.len() > 0 {
        lemma_blame_count_bound(ls.drop_last(), sub);
    }
}

/// Records `line` if it reports an error.
fn scan_line(r: &mut BuildDiagnostics, line: &Vec<char>, Ghost(ls): Ghost<Seq<Seq<char>>>)
    requires
        scan_matches(*old(r), ls),
    ensures
        scan_matches(*final(r), ls.push(line@)),
{
    proof {
        assert(ls.push(line@).drop_last() == ls);
        assert(ls.push(line@).last() == line@);
    }
    let ghost errs = error_lines(ls);
    if chars_contain_text(line, "error:") || chars_contain_text(line, "error C")
        || chars_contain_text(line, "fatal error") {
        let ghost before = r.diagnostics@;
        r.diagnostics.push(chars_to_string(line));
        let count = r.diagnostics.len();
        proof {
            assert(texts(r.diagnostics@) == texts(before).push(line@));
            assert(errs.push(line@).drop_last() == errs);
            lemma_blame_count_bound(errs, FailedSubsystem::ControlFlowRecovery);
            lemma_blame_count_bound(errs, FailedSubsystem::TypeInference);
            assert(count == errs.len() + 1);
        }
        match blame(line) {
            Some(FailedSubsystem::ControlFlowRecovery) => {
                r.control_flow_failures = r.control_flow_failures + 1;
            },
            Some(FailedSubsystem::TypeInference) => {
                r.type_inference_failures = r.type_inference_failures + 1;
            },
            None => {},
        }
    }
}

/// Scans a build's error and output streams for error lines and counts
/// those attributed to control-flow recovery and to type inference.
pub fn scan_build_output(stderr: &str, stdout: &str) -> (r: BuildDiagnostics)
    ensures
        scan_matches(r, build_lines(stderr@, stdout@)),
{
    let mut r = BuildDiagnostics {
        diagnostics: Vec::new(),
        control_flow_failures: 0,
        type_inference_failures: 0,
    };
    let ghost mut seen: Seq<Seq<char>> = Seq::empty();
    proof {
        assert(texts(r.diagnostics@) == Seq::<Seq<char>>::empty());
    }
    let err_lines = split_lines(&to_chars(stderr));
    let out_lines = split_lines(&to_chars(stdout));
    let ghost el = err_lines@.map_values(|l: Vec<char>| l@);
    let ghost ol = out_lines@.map_values(|l: Vec<char>| l@);
    for i in 0..err_lines.len()
        invariant
            el == err_lines@.map_values(|l: Vec<char>| l@),
            seen == el.take(i as int),
            scan_matches(r, seen),
    {
        scan_line(&mut r, &err_lines[i], Ghost(seen));
        proof {
            assert(el.take(i + 1) == el.take(i as int).push(err_lines@[i as int]@));
            seen = seen.push(err_lines@[i as int]@);
        }
    }
    proof {
        assert(el.take(el.len() as int) == el);
        assert(seen + ol.take(0) == seen);
    }
    let ghost first = seen;
    for i in 0..out_lines.len()
        invariant
            ol == out_lines@.map_values(|l: Vec<char>| l@),
            seen == first + ol.take(i as int),
            scan_matches(r, seen),
    {
        scan_line(&mut r, &out_lines[i], Ghost(seen));
        proof {
            assert(first + ol.take(i + 1) == (first + ol.take(i as int)).push(out_lines@[i as int]@));
            seen = seen.push(out_lines@[i as int]@);
        }
    }
    proof {
        assert(ol.take(ol.len() as int) == ol);
    }
    r
}

} // verus!
