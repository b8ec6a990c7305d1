use canary::ssa::OperandSize;
use canary::x86_registers::{capstone_reg_to_id_and_size, EFLAGS, R15, RAX, RIP, RSP, XMM7};
use capstone::arch::x86::X86Reg;

#[test]
fn general_registers_map_at_each_width() {
    assert_eq!(capstone_reg_to_id_and_size(X86Reg::X86_REG_AL as u16), Some((RAX, OperandSize::Bits8)));
    assert_eq!(capstone_reg_to_id_and_size(X86Reg::X86_REG_AH as u16), Some((RAX, OperandSize::Bits8)));
    assert_eq!(capstone_reg_to_id_and_size(X86Reg::X86_REG_AX as u16), Some((RAX, OperandSize::Bits16)));
    assert_eq!(capstone_reg_to_id_and_size(X86Reg::X86_REG_EAX as u16), Some((RAX, OperandSize::Bits32)));
    assert_eq!(capstone_reg_to_id_and_size(X86Reg::X86_REG_RAX as u16), Some((RAX, OperandSize::Bits64)));
    assert_eq!(capstone_reg_to_id_and_size(X86Reg::X86_REG_SPL as u16), Some((RSP, OperandSize::Bits8)));
    assert_eq!(capstone_reg_to_id_and_size(X86Reg::X86_REG_R15D as u16), Some((R15, OperandSize::Bits32)));
}

#[test]
fn special_registers_map() {
    assert_eq!(capstone_reg_to_id_and_size(X86Reg::X86_REG_RIP as u16), Some((RIP, OperandSize::Bits64)));
    assert_eq!(capstone_reg_to_id_and_size(X86Reg::X86_REG_XMM7 as u16), Some((XMM7, OperandSize::Bits128)));
    assert_eq!(capstone_reg_to_id_and_size(X86Reg::X86_REG_EFLAGS as u16), Some((EFLAGS, OperandSize::Bits32)));
}

#[test]
fn untracked_registers_map_to_none() {
    assert_eq!(capstone_reg_to_id_and_size(X86Reg::X86_REG_CS as u16), None);
    assert_eq!(capstone_reg_to_id_and_size(X86Reg::X86_REG_XMM8 as u16), None);
    assert_eq!(capstone_reg_to_id_and_size(0), None);
}
