//! Well-known fact tags, one constructor each.

use vstd::prelude::*;
use super::FactTag;

verus! {

/// The fact tag `cfg`.
pub fn cfg() -> (t: FactTag)
    ensures
        t@ == "cfg"@,
{
    FactTag("cfg")
}
/// The fact tag `dominators`.
pub fn dominators() -> (t: FactTag)
    ensures
        t@ == "dominators"@,
{
    FactTag("dominators")
}
/// The fact tag `ssa_form`.
pub fn ssa_form() -> (t: FactTag)
    ensures
        t@ == "ssa_form"@,
{
    FactTag("ssa_form")
}
/// The fact tag `value_sets`.
pub fn value_sets() -> (t: FactTag)
    ensures
        t@ == "value_sets"@,
{
    FactTag("value_sets")
}
/// The fact tag `pointer_provenance`.
pub fn pointer_provenance() -> (t: FactTag)
    ensures
        t@ == "pointer_provenance"@,
{
    FactTag("pointer_provenance")
}
/// The fact tag `stack_frame`.
pub fn stack_frame() -> (t: FactTag)
    ensures
        t@ == "stack_frame"@,
{
    FactTag("stack_frame")
}
/// The fact tag `primitive_types`.
pub fn primitive_types() -> (t: FactTag)
    ensures
        t@ == "primitive_types"@,
{
    FactTag("primitive_types")
}
/// The fact tag `semantic_ir`.
pub fn semantic_ir() -> (t: FactTag)
    ensures
        t@ == "semantic_ir"@,
{
    FactTag("semantic_ir")
}
/// The fact tag `high_level_cfg`.
pub fn high_level_cfg() -> (t: FactTag)
    ensures
        t@ == "high_level_cfg"@,
{
    FactTag("high_level_cfg")
}
/// The fact tag `mlil`.
pub fn mlil() -> (t: FactTag)
    ensures
        t@ == "mlil"@,
{
    FactTag("mlil")
}
/// The fact tag `type_guesses`.
pub fn type_guesses() -> (t: FactTag)
    ensures
        t@ == "type_guesses"@,
{
    FactTag("type_guesses")
}
/// The fact tag `vtable_layouts`.
pub fn vtable_layouts() -> (t: FactTag)
    ensures
        t@ == "vtable_layouts"@,
{
    FactTag("vtable_layouts")
}
/// The fact tag `calling_conventions`.
pub fn calling_conventions() -> (t: FactTag)
    ensures
        t@ == "calling_conventions"@,
{
    FactTag("calling_conventions")
}

} // verus!
