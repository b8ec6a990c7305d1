//! Field recovery vocabulary: object identities and observed memory
//! accesses.

use vstd::prelude::*;

verus! {

/// A stable object identity cluster derived from analysis.
#[derive(Debug, Clone, Copy, PartialEq, Eq, Hash, Structural)]
pub struct ObjectId(pub u64);

/// The kind of a memory access.
#[derive(Debug, Clone, Copy, PartialEq, Eq, Structural)]
pub enum AccessType {
    Read,
    Write,
    CallIndirect,
}

/// One observed access to `offset` of object `obj`.
#[derive(Debug, Clone, Copy)]
pub struct AccessEvent {
    pub obj: ObjectId,
    pub offset: i32,
    pub access_type: AccessType,
    /// Basic-block start address used as the execution context.
    pub context_id: u64,
}

} // verus!
