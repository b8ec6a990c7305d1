//! Architecture-agnostic lifting types.

use vstd::prelude::*;

verus! {

/// Errors from the lifting process.
#[derive(Debug)]
pub enum LiftError {
    /// Disassembly failed at `addr`.
    Disassembly { addr: u64, reason: String },
    /// The instruction `mnemonic` is not supported.
    Unsupported { mnemonic: String },
    /// Too few bytes at `addr`.
    TooShort { addr: u64 },
}

/// A single disassembled native instruction before lifting.
#[derive(Debug, Clone)]
pub struct NativeInstr {
    /// Virtual address of this instruction.
    pub addr: u64,
    /// Raw bytes.
    pub bytes: Vec<u8>,
    /// Mnemonic string, for display and error reporting.
    pub mnemonic: String,
    /// Operand string, for display.
    pub op_str: String,
}

} // verus!
