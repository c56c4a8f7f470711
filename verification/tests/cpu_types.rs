use psx::cpu_types::{
    Cop0Instruction, Cop0Reg, Cop0Registers, CopCommonInstruction, Exception, Instruction,
    InstructionFunct, InstructionOp, Registers, RESET_VECTOR,
};

#[test]
fn decodes_every_defined_opcode_and_refuses_the_rest() {
    assert_eq!(InstructionOp::decode(0), Some(InstructionOp::FUNCT));
    assert_eq!(InstructionOp::decode(15), Some(InstructionOp::LUI));
    assert_eq!(InstructionOp::decode(43), Some(InstructionOp::SW));
    assert_eq!(InstructionOp::decode(59), Some(InstructionOp::SWC3));
    assert_eq!(InstructionOp::decode(20), None);
    assert_eq!(InstructionOp::decode(63), None);
    assert_eq!(InstructionOp::from(35), InstructionOp::LW);
    assert_eq!(InstructionFunct::decode(26), Some(InstructionFunct::DIV));
    assert_eq!(InstructionFunct::decode(1), None);
    assert_eq!(CopCommonInstruction::decode(4), Some(CopCommonInstruction::MTCN));
    assert_eq!(CopCommonInstruction::decode(1), None);
    assert_eq!(Cop0Instruction::decode(16), Some(Cop0Instruction::RFE));
    assert_eq!(Cop0Instruction::decode(3), None);
    assert_eq!(Cop0Reg::decode(12), Some(Cop0Reg::SR));
    assert_eq!(Cop0Reg::decode(4), None);
}

#[test]
fn extracts_instruction_fields() {
    // ori $t0, $t0, 0x5678
    let i = Instruction { bits: 0x35085678 };
    assert_eq!(i.get_op_code(), InstructionOp::ORI);
    assert_eq!(i.get_rs(), 8);
    assert_eq!(i.get_base(), 8);
    assert_eq!(i.get_rt(), 8);
    assert_eq!(i.get_immediate(), 0x5678);
    assert_eq!(i.get_offset(), 0x5678);
    // div $t0, $t1
    let d = Instruction { bits: 0x0109001A };
    assert_eq!(d.get_op_code(), InstructionOp::FUNCT);
    assert_eq!(d.get_funct(), InstructionFunct::DIV);
    assert_eq!(d.get_rd(), 0);
    // sll $t2, $t1, 4
    let s = Instruction { bits: 0x00095100 };
    assert_eq!(s.get_rd(), 10);
    assert_eq!(s.get_rt(), 9);
    assert_eq!(s.get_shamt(), 4);
    // jal 0x0BF00040
    let j = Instruction { bits: 0x0FF00040 };
    assert_eq!(j.get_op_code(), InstructionOp::JAL);
    assert_eq!(j.get_target(), 0x3F00040);
    // mtc0 $t4, $12
    let m = Instruction { bits: 0x408C6000 };
    assert!(m.is_cop_common_instruction());
    assert_eq!(m.get_cop_number(), 0);
    assert_eq!(m.get_cop_common_op(), CopCommonInstruction::MTCN);
    // rfe
    let r = Instruction { bits: 0x42000010 };
    assert!(!r.is_cop_common_instruction());
    assert_eq!(r.get_cop0_op(), Cop0Instruction::RFE);
    assert_eq!(Instruction::new().bits, 0);
}

#[test]
fn prints_instruction_in_binary_groups() {
    let i = Instruction { bits: 0x3C081234 };
    assert_eq!(i.to_string(), "0011 1100 0000 1000 0001 0010 0011 0100");
    assert_eq!(Instruction::new().to_string(), "0000 0000 0000 0000 0000 0000 0000 0000");
}

#[test]
fn registers_read_back_writes() {
    let mut r = Registers::new();
    assert_eq!(r.pc, RESET_VECTOR);
    assert_eq!(r.npc, RESET_VECTOR + 4);
    assert_eq!(r.read_register(5), 0);
    r.write_register(5, 0xDEADBEEF);
    r.write_register(6, 7);
    assert_eq!(r.read_register(5), 0xDEADBEEF);
    assert_eq!(r.read_register(6), 7);
    assert_eq!(r.read_register(4), 0);
    // r0 is the constant zero: writes to it are ignored.
    r.write_register(0, 3);
    assert_eq!(r.read_register(0), 0);
    assert!(r.write_register_upper(0, 0x1F80).is_ok());
    assert_eq!(r.read_register(0), 0);
}

#[test]
fn load_upper_clears_lower_half() {
    let mut r = Registers::new();
    r.write_register(9, 0xFFFFFFFF);
    assert!(r.write_register_upper(9, 0x1F80).is_ok());
    assert_eq!(r.read_register(9), 0x1F800000);
}

#[test]
fn exception_codes() {
    assert_eq!(Exception::INT.get_excode(), 0x00);
    assert_eq!(Exception::AdEL.get_excode(), 0x04);
    assert_eq!(Exception::Syscall.get_excode(), 0x08);
    assert_eq!(Exception::Ov.get_excode(), 0x0C);
}

#[test]
fn status_register_mode_bits_round_trip() {
    let mut c = Cop0Registers::new();
    c.write_register(Cop0Reg::SR, 0x10000F00);
    c.sr.set_mode_bits(0xFF);
    assert_eq!(c.sr.get_mode_bits(), 0x3F);
    assert_eq!(c.read_register(Cop0Reg::SR), 0x10000F3F);
    c.sr.set_mode_bits(0x05);
    assert_eq!(c.sr.get_mode_bits(), 0x05);
    assert_eq!(c.read_register(Cop0Reg::SR), 0x10000F05);
}

#[test]
fn isolate_cache_and_boot_vector_flags() {
    let mut c = Cop0Registers::new();
    assert!(!c.sr.get_isc());
    c.write_register(Cop0Reg::SR, 0x00010000);
    assert!(c.sr.get_isc());
    // Bit 16 alone decides, whatever the bits above it.
    c.write_register(Cop0Reg::SR, 0x10010000);
    assert!(c.sr.get_isc());
    c.write_register(Cop0Reg::SR, 0x00400000);
    assert!(!c.sr.get_isc());
    assert!(c.sr.get_bev());
    c.write_register(Cop0Reg::SR, 0xFFBFFFFF);
    assert!(!c.sr.get_bev());
}

#[test]
fn cause_register_fields() {
    let mut c = Cop0Registers::new();
    c.cause.set_interrupt_pending(0xA5);
    assert_eq!(c.cause.get_interrupt_pending(), 0xA5);
    c.cause.set_excode(0x08);
    assert_eq!(c.read_register(Cop0Reg::CAUSE), 0xA520);
    assert_eq!(c.cause.get_interrupt_pending(), 0xA5);
    c.cause.set_excode(0x0C);
    assert_eq!(c.read_register(Cop0Reg::CAUSE), 0xA530);
}

#[test]
fn cop0_registers_read_back_writes() {
    let mut c = Cop0Registers::new();
    c.write_register(Cop0Reg::BPC, 0x1234);
    c.write_register(Cop0Reg::CAUSE, 0x300);
    c.write_register(Cop0Reg::JUMPDEST, 0x99);
    c.write_register(Cop0Reg::BDA, 1);
    c.write_register(Cop0Reg::DCIC, 2);
    assert_eq!(c.read_register(Cop0Reg::BPC), 0x1234);
    assert_eq!(c.read_register(Cop0Reg::CAUSE), 0x300);
    assert_eq!(c.read_register(Cop0Reg::EPC), 0);
    assert_eq!(c.tar, 0x99);
    assert_eq!(c.bda, 1);
    assert_eq!(c.dcic, 2);
    // Only bits 9..8 of CAUSE can be written.
    c.write_register(Cop0Reg::CAUSE, 0xFFFFFFFF);
    assert_eq!(c.read_register(Cop0Reg::CAUSE), 0x300);
    c.cause.set_excode(0x0C);
    c.write_register(Cop0Reg::CAUSE, 0);
    assert_eq!(c.read_register(Cop0Reg::CAUSE), 0x30);
}
