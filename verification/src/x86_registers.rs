//! The x86-64 registers the lifter tracks, and the map from Capstone's
//! x86 register numbers to them.

use vstd::prelude::*;
use crate::ssa::OperandSize;

verus! {

/// Register number of `RAX`.
pub const RAX: u32 = 0;

/// Register number of `RBX`.
pub const RBX: u32 = 1;

/// Register number of `RCX`.
pub const RCX: u32 = 2;

/// Register number of `RDX`.
pub const RDX: u32 = 3;

/// Register number of `RSI`.
pub const RSI: u32 = 4;

/// Register number of `RDI`.
pub const RDI: u32 = 5;

/// Register number of `RBP`.
pub const RBP: u32 = 6;

/// Register number of `RSP`.
pub const RSP: u32 = 7;

/// Register number of `R8`.
pub const R8: u32 = 8;

/// Register number of `R9`.
pub const R9: u32 = 9;

/// Register number of `R10`.
pub const R10: u32 = 10;

/// Register number of `R11`.
pub const R11: u32 = 11;

/// Register number of `R12`.
pub const R12: u32 = 12;

/// Register number of `R13`.
pub const R13: u32 = 13;

/// Register number of `R14`.
pub const R14: u32 = 14;

/// Register number of `R15`.
pub const R15: u32 = 15;

/// Register number of `RIP`.
pub const RIP: u32 = 16;

/// Register number of `XMM0`.
pub const XMM0: u32 = 17;

/// Register number of `XMM1`.
pub const XMM1: u32 = 18;

/// Register number of `XMM2`.
pub const XMM2: u32 = 19;

/// Register number of `XMM3`.
pub const XMM3: u32 = 20;

/// Register number of `XMM4`.
pub const XMM4: u32 = 21;

/// Register number of `XMM5`.
pub const XMM5: u32 = 22;

/// Register number of `XMM6`.
pub const XMM6: u32 = 23;

/// Register number of `XMM7`.
pub const XMM7: u32 = 24;

/// Register number of `EFLAGS`.
pub const EFLAGS: u32 = 25;

/// The register and width that Capstone's x86 register number `id`
/// names, for the registers the lifter tracks; `None` for any other.
/// The partial registers of a general-purpose register (its low and high
/// bytes, word and double word) map to the full register at their width:
/// - `X86_REG_AL` (2): `RAX`, Bits8
/// - `X86_REG_AH` (1): `RAX`, Bits8
/// - `X86_REG_AX` (3): `RAX`, Bits16
/// - `X86_REG_EAX` (19): `RAX`, Bits32
/// - `X86_REG_RAX` (35): `RAX`, Bits64
/// - `X86_REG_BL` (5): `RBX`, Bits8
/// - `X86_REG_BH` (4): `RBX`, Bits8
/// - `X86_REG_BX` (8): `RBX`, Bits16
/// - `X86_REG_EBX` (21): `RBX`, Bits32
/// - `X86_REG_RBX` (37): `RBX`, Bits64
/// - `X86_REG_CL` (10): `RCX`, Bits8
/// - `X86_REG_CH` (9): `RCX`, Bits8
/// - `X86_REG_CX` (12): `RCX`, Bits16
/// - `X86_REG_ECX` (22): `RCX`, Bits32
/// - `X86_REG_RCX` (38): `RCX`, Bits64
/// - `X86_REG_DL` (16): `RDX`, Bits8
/// - `X86_REG_DH` (13): `RDX`, Bits8
/// - `X86_REG_DX` (18): `RDX`, Bits16
/// - `X86_REG_EDX` (24): `RDX`, Bits32
/// - `X86_REG_RDX` (40): `RDX`, Bits64
/// - `X86_REG_SIL` (46): `RSI`, Bits8
/// - `X86_REG_SI` (45): `RSI`, Bits16
/// - `X86_REG_ESI` (29): `RSI`, Bits32
/// - `X86_REG_RSI` (43): `RSI`, Bits64
/// - `X86_REG_DIL` (15): `RDI`, Bits8
/// - `X86_REG_DI` (14): `RDI`, Bits16
/// - `X86_REG_EDI` (23): `RDI`, Bits32
/// - `X86_REG_RDI` (39): `RDI`, Bits64
/// - `X86_REG_BPL` (7): `RBP`, Bits8
/// - `X86_REG_BP` (6): `RBP`, Bits16
/// - `X86_REG_EBP` (20): `RBP`, Bits32
/// - `X86_REG_RBP` (36): `RBP`, Bits64
/// - `X86_REG_SPL` (48): `RSP`, Bits8
/// - `X86_REG_SP` (47): `RSP`, Bits16
/// - `X86_REG_ESP` (30): `RSP`, Bits32
/// - `X86_REG_RSP` (44): `RSP`, Bits64
/// - `X86_REG_R8B` (218): `R8`, Bits8
/// - `X86_REG_R8W` (234): `R8`, Bits16
/// - `X86_REG_R8D` (226): `R8`, Bits32
/// - `X86_REG_R8` (106): `R8`, Bits64
/// - `X86_REG_R9B` (219): `R9`, Bits8
/// - `X86_REG_R9W` (235): `R9`, Bits16
/// - `X86_REG_R9D` (227): `R9`, Bits32
/// - `X86_REG_R9` (107): `R9`, Bits64
/// - `X86_REG_R10B` (220): `R10`, Bits8
/// - `X86_REG_R10W` (236): `R10`, Bits16
/// - `X86_REG_R10D` (228): `R10`, Bits32
/// - `X86_REG_R10` (108): `R10`, Bits64
/// - `X86_REG_R11B` (221): `R11`, Bits8
/// - `X86_REG_R11W` (237): `R11`, Bits16
/// - `X86_REG_R11D` (229): `R11`, Bits32
/// - `X86_REG_R11` (109): `R11`, Bits64
/// - `X86_REG_R12B` (222): `R12`, Bits8
/// - `X86_REG_R12W` (238): `R12`, Bits16
/// - `X86_REG_R12D` (230): `R12`, Bits32
/// - `X86_REG_R12` (110): `R12`, Bits64
/// - `X86_REG_R13B` (223): `R13`, Bits8
/// - `X86_REG_R13W` (239): `R13`, Bits16
/// - `X86_REG_R13D` (231): `R13`, Bits32
/// - `X86_REG_R13` (111): `R13`, Bits64
/// - `X86_REG_R14B` (224): `R14`, Bits8
/// - `X86_REG_R14W` (240): `R14`, Bits16
/// - `X86_REG_R14D` (232): `R14`, Bits32
/// - `X86_REG_R14` (112): `R14`, Bits64
/// - `X86_REG_R15B` (225): `R15`, Bits8
/// - `X86_REG_R15W` (241): `R15`, Bits16
/// - `X86_REG_R15D` (233): `R15`, Bits32
/// - `X86_REG_R15` (113): `R15`, Bits64
/// - `X86_REG_RIP` (41): `RIP`, Bits64
/// - `X86_REG_XMM0` (122): `XMM0`, Bits128
/// - `X86_REG_XMM1` (123): `XMM1`, Bits128
/// - `X86_REG_XMM2` (124): `XMM2`, Bits128
/// - `X86_REG_XMM3` (125): `XMM3`, Bits128
/// - `X86_REG_XMM4` (126): `XMM4`, Bits128
/// - `X86_REG_XMM5` (127): `XMM5`, Bits128
/// - `X86_REG_XMM6` (128): `XMM6`, Bits128
/// - `X86_REG_XMM7` (129): `XMM7`, Bits128
/// - `X86_REG_EFLAGS` (25): `EFLAGS`, Bits32
pub open spec fn x86_reg_table(id: u16) -> Option<(u32, OperandSize)> {
    match id {
        2 => Some((RAX, OperandSize::Bits8)),
        1 => Some((RAX, OperandSize::Bits8)),
        3 => Some((RAX, OperandSize::Bits16)),
        19 => Some((RAX, OperandSize::Bits32)),
        35 => Some((RAX, OperandSize::Bits64)),
        5 => Some((RBX, OperandSize::Bits8)),
        4 => Some((RBX, OperandSize::Bits8)),
        8 => Some((RBX, OperandSize::Bits16)),
        21 => Some((RBX, OperandSize::Bits32)),
        37 => Some((RBX, OperandSize::Bits64)),
        10 => Some((RCX, OperandSize::Bits8)),
        9 => Some((RCX, OperandSize::Bits8)),
        12 => Some((RCX, OperandSize::Bits16)),
        22 => Some((RCX, OperandSize::Bits32)),
        38 => Some((RCX, OperandSize::Bits64)),
        16 => Some((RDX, OperandSize::Bits8)),
        13 => Some((RDX, OperandSize::Bits8)),
        18 => Some((RDX, OperandSize::Bits16)),
        24 => Some((RDX, OperandSize::Bits32)),
        40 => Some((RDX, OperandSize::Bits64)),
        46 => Some((RSI, OperandSize::Bits8)),
        45 => Some((RSI, OperandSize::Bits16)),
        29 => Some((RSI, OperandSize::Bits32)),
        43 => Some((RSI, OperandSize::Bits64)),
        15 => Some((RDI, OperandSize::Bits8)),
        14 => Some((RDI, OperandSize::Bits16)),
        23 => Some((RDI, OperandSize::Bits32)),
        39 => Some((RDI, OperandSize::Bits64)),
        7 => Some((RBP, OperandSize::Bits8)),
        6 => Some((RBP, OperandSize::Bits16)),
        20 => Some((RBP, OperandSize::Bits32)),
        36 => Some((RBP, OperandSize::Bits64)),
        48 => Some((RSP, OperandSize::Bits8)),
        47 => Some((RSP, OperandSize::Bits16)),
        30 => Some((RSP, OperandSize::Bits32)),
        44 => Some((RSP, OperandSize::Bits64)),
        218 => Some((R8, OperandSize::Bits8)),
        234 => Some((R8, OperandSize::Bits16)),
        226 => Some((R8, OperandSize::Bits32)),
        106 => Some((R8, OperandSize::Bits64)),
        219 => Some((R9, OperandSize::Bits8)),
        235 => Some((R9, OperandSize::Bits16)),
        227 => Some((R9, OperandSize::Bits32)),
        107 => Some((R9, OperandSize::Bits64)),
        220 => Some((R10, OperandSize::Bits8)),
        236 => Some((R10, OperandSize::Bits16)),
        228 => Some((R10, OperandSize::Bits32)),
        108 => Some((R10, OperandSize::Bits64)),
        221 => Some((R11, OperandSize::Bits8)),
        237 => Some((R11, OperandSize::Bits16)),
        229 => Some((R11, OperandSize::Bits32)),
        109 => Some((R11, OperandSize::Bits64)),
        222 => Some((R12, OperandSize::Bits8)),
        238 => Some((R12, OperandSize::Bits16)),
        230 => Some((R12, OperandSize::Bits32)),
        110 => Some((R12, OperandSize::Bits64)),
        223 => Some((R13, OperandSize::Bits8)),
        239 => Some((R13, OperandSize::Bits16)),
        231 => Some((R13, OperandSize::Bits32)),
        111 => Some((R13, OperandSize::Bits64)),
        224 => Some((R14, OperandSize::Bits8)),
        240 => Some((R14, OperandSize::Bits16)),
        232 => Some((R14, OperandSize::Bits32)),
        112 => Some((R14, OperandSize::Bits64)),
        225 => Some((R15, OperandSize::Bits8)),
        241 => Some((R15, OperandSize::Bits16)),
        233 => Some((R15, OperandSize::Bits32)),
        113 => Some((R15, OperandSize::Bits64)),
        41 => Some((RIP, OperandSize::Bits64)),
        122 => Some((XMM0, OperandSize::Bits128)),
        123 => Some((XMM1, OperandSize::Bits128)),
        124 => Some((XMM2, OperandSize::Bits128)),
        125 => Some((XMM3, OperandSize::Bits128)),
        126 => Some((XMM4, OperandSize::Bits128)),
        127 => Some((XMM5, OperandSize::Bits128)),
        128 => Some((XMM6, OperandSize::Bits128)),
        129 => Some((XMM7, OperandSize::Bits128)),
        25 => Some((EFLAGS, OperandSize::Bits32)),
        _ => None,
    }
}

/// Maps Capstone's x86 register number `reg` to the tracked register and
/// its width.
pub fn capstone_reg_to_id_and_size(reg: u16) -> (r: Option<(u32, OperandSize)>)
    ensures
        r == x86_reg_table(reg),
{
    match reg {
        2 => Some((RAX, OperandSize::Bits8)),
        1 => Some((RAX, OperandSize::Bits8)),
        3 => Some((RAX, OperandSize::Bits16)),
        19 => Some((RAX, OperandSize::Bits32)),
        35 => Some((RAX, OperandSize::Bits64)),
        5 => Some((RBX, OperandSize::Bits8)),
        4 => Some((RBX, OperandSize::Bits8)),
        8 => Some((RBX, OperandSize::Bits16)),
        21 => Some((RBX, OperandSize::Bits32)),
        37 => Some((RBX, OperandSize::Bits64)),
        10 => Some((RCX, OperandSize::Bits8)),
        9 => Some((RCX, OperandSize::Bits8)),
        12 => Some((RCX, OperandSize::Bits16)),
        22 => Some((RCX, OperandSize::Bits32)),
        38 => Some((RCX, OperandSize::Bits64)),
        16 => Some((RDX, OperandSize::Bits8)),
        13 => Some((RDX, OperandSize::Bits8)),
        18 => Some((RDX, OperandSize::Bits16)),
        24 => Some((RDX, OperandSize::Bits32)),
        40 => Some((RDX, OperandSize::Bits64)),
        46 => Some((RSI, OperandSize::Bits8)),
        45 => Some((RSI, OperandSize::Bits16)),
        29 => Some((RSI, OperandSize::Bits32)),
        43 => Some((RSI, OperandSize::Bits64)),
        15 => Some((RDI, OperandSize::Bits8)),
        14 => Some((RDI, OperandSize::Bits16)),
        23 => Some((RDI, OperandSize::Bits32)),
        39 => Some((RDI, OperandSize::Bits64)),
        7 => Some((RBP, OperandSize::Bits8)),
        6 => Some((RBP, OperandSize::Bits16)),
        20 => Some((RBP, OperandSize::Bits32)),
        36 => Some((RBP, OperandSize::Bits64)),
        48 => Some((RSP, OperandSize::Bits8)),
        47 => Some((RSP, OperandSize::Bits16)),
        30 => Some((RSP, OperandSize::Bits32)),
        44 => Some((RSP, OperandSize::Bits64)),
        218 => Some((R8, OperandSize::Bits8)),
        234 => Some((R8, OperandSize::Bits16)),
        226 => Some((R8, OperandSize::Bits32)),
        106 => Some((R8, OperandSize::Bits64)),
        219 => Some((R9, OperandSize::Bits8)),
        235 => Some((R9, OperandSize::Bits16)),
        227 => Some((R9, OperandSize::Bits32)),
        107 => Some((R9, OperandSize::Bits64)),
        220 => Some((R10, OperandSize::Bits8)),
        236 => Some((R10, OperandSize::Bits16)),
        228 => Some((R10, OperandSize::Bits32)),
        108 => Some((R10, OperandSize::Bits64)),
        221 => Some((R11, OperandSize::Bits8)),
        237 => Some((R11, OperandSize::Bits16)),
        229 => Some((R11, OperandSize::Bits32)),
        109 => Some((R11, OperandSize::Bits64)),
        222 => Some((R12, OperandSize::Bits8)),
        238 => Some((R12, OperandSize::Bits16)),
        230 => Some((R12, OperandSize::Bits32)),
        110 => Some((R12, OperandSize::Bits64)),
        223 => Some((R13, OperandSize::Bits8)),
        239 => Some((R13, OperandSize::Bits16)),
        231 => Some((R13, OperandSize::Bits32)),
        111 => Some((R13, OperandSize::Bits64)),
        224 => Some((R14, OperandSize::Bits8)),
        240 => Some((R14, OperandSize::Bits16)),
        232 => Some((R14, OperandSize::Bits32)),
        112 => Some((R14, OperandSize::Bits64)),
        225 => Some((R15, OperandSize::Bits8)),
        241 => Some((R15, OperandSize::Bits16)),
        233 => Some((R15, OperandSize::Bits32)),
        113 => Some((R15, OperandSize::Bits64)),
        41 => Some((RIP, OperandSize::Bits64)),
        122 => Some((XMM0, OperandSize::Bits128)),
        123 => Some((XMM1, OperandSize::Bits128)),
        124 => Some((XMM2, OperandSize::Bits128)),
        125 => Some((XMM3, OperandSize::Bits128)),
        126 => Some((XMM4, OperandSize::Bits128)),
        127 => Some((XMM5, OperandSize::Bits128)),
        128 => Some((XMM6, OperandSize::Bits128)),
        129 => Some((XMM7, OperandSize::Bits128)),
        25 => Some((EFLAGS, OperandSize::Bits32)),
        _ => None,
    }
}

} // verus!
