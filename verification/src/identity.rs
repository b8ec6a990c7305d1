//! Function identity heuristics: telling compiler intrinsics and linker
//! stubs from user code by name alone, before any IR exists.

use vstd::prelude::*;
use crate::text::{chars_contain_text, chars_start_with, contains_text, starts_with, to_chars};

verus! {

/// What a function is, as far as its name tells.
#[derive(Debug, Clone, Copy, PartialEq, Eq, Structural)]
pub enum FunctionKind {
    /// A compiler intrinsic or runtime helper.
    Intrinsic,
    /// An import thunk or linker stub.
    ExternalStub,
    /// Anything else.
    UserCode,
}

/// The name marks a compiler intrinsic or runtime atomic.
pub open spec fn is_intrinsic_name(n: Seq<char>) -> bool {
    starts_with(n, "globalAtomic"@) || starts_with(n, "__atomic"@) || starts_with(n, "atomic"@)
        || contains_text(n, "__security_check"@) || contains_text(n, "__chkstk"@) || contains_text(
        n,
        "__readgsqword"@,
    ) || contains_text(n, "llvm."@) || contains_text(n, "NvOptimusEnablement"@) || contains_text(
        n,
        "AmdPowerXpress"@,
    ) || starts_with(n, "default_mspace"@)
}

/// The name marks an import thunk or linker stub.
pub open spec fn is_stub_name(n: Seq<char>) -> bool {
    starts_with(n, "sub_"@) || starts_with(n, "thunk_"@) || contains_text(n, "_thunk"@)
        || contains_text(n, "_stub"@) || starts_with(n, "j_"@)
}

/// The kind of the function called `n`.
pub open spec fn function_kind(n: Seq<char>) -> FunctionKind {
    if is_intrinsic_name(n) {
        FunctionKind::Intrinsic
    } else if is_stub_name(n) {
        FunctionKind::ExternalStub
    } else {
        FunctionKind::UserCode
    }
}

/// Classifies a raw function name: intrinsics and runtime atomics first,
/// then import thunks and linker stubs, and user code otherwise.
pub fn classify_function_name(name: &str) -> (r: FunctionKind)
    ensures
        r == function_kind(name@),
{
    let n = to_chars(name);
    if chars_start_with(&n, "globalAtomic") || chars_start_with(&n, "__atomic") || chars_start_with(
        &n,
        "atomic",
    ) || chars_contain_text(&n, "__security_check") || chars_contain_text(&n, "__chkstk")
        || chars_contain_text(&n, "__readgsqword") || chars_contain_text(&n, "llvm.")
        || chars_contain_text(&n, "NvOptimusEnablement") || chars_contain_text(&n, "AmdPowerXpress")
        || chars_start_with(&n, "default_mspace") {
        return FunctionKind::Intrinsic;
    }
    if chars_start_with(&n, "sub_") || chars_start_with(&n, "thunk_") || chars_contain_text(
        &n,
        "_thunk",
    ) || chars_contain_text(&n, "_stub") || chars_start_with(&n, "j_") {
        return FunctionKind::ExternalStub;
    }
    FunctionKind::UserCode
}

} // verus!
