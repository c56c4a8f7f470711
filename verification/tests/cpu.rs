use psx::bios::Bios;
use psx::bus::{Bus, ReadWord};
use psx::cpu::CPU;
use psx::cpu_types::Cop0Reg;
use psx::system::InnerSystem;

/// A machine whose BIOS starts with the given program.
fn machine(program: &[u32]) -> InnerSystem {
    let mut bios = vec![0u8; 0x80000];
    for (i, word) in program.iter().enumerate() {
        bios[4 * i..4 * i + 4].copy_from_slice(&word.to_le_bytes());
    }
    let mut system = InnerSystem::new();
    system.boot(&Bios::from_bytes(bios));
    system
}

fn run(system: &mut InnerSystem, steps: usize) {
    for _ in 0..steps {
        system.next_instruction().expect("step");
    }
}

fn reg(system: &InnerSystem, index: u8) -> u32 {
    system.cpu().registers().read_register(index)
}

#[test]
fn cpu_starts_at_reset_vector() {
    let cpu = CPU::new();
    assert_eq!(cpu.get_cycle(), 0);
    assert_eq!(cpu.registers().pc, 0xBFC00000);
    assert_eq!(cpu.registers().npc, 0xBFC00004);
}

#[test]
fn loads_immediates_and_stores_and_loads_words() {
    let mut system = machine(&[
        0x3C081234, // lui   $t0, 0x1234
        0x35085678, // ori   $t0, $t0, 0x5678
        0x2409FFFF, // addiu $t1, $zero, -1
        0xAC080100, // sw    $t0, 0x100($zero)
        0x8C0A0100, // lw    $t2, 0x100($zero)
        0x8109FFFF, // lb    $t1, -1($t0)  -> address 0x12345677: KUSEG, refused
    ]);
    run(&mut system, 5);
    assert_eq!(reg(&system, 8), 0x12345678);
    assert_eq!(reg(&system, 9), 0xFFFFFFFF);
    assert_eq!(reg(&system, 10), 0x12345678);
    assert_eq!(system.get_cycle(), 5);
    assert_eq!(system.get_instruction(), 0x8C0A0100);
    let mut word = 0u32;
    let mut bus_copy = Bus::new();
    let _ = &mut bus_copy;
    assert_eq!(system.bus().ram[0x100], 0x78);
    let mut bus = Bus::new();
    bus.access_memory::<ReadWord>(0x100, &mut word, false);
    assert_eq!(word, 0);
    assert!(system.next_instruction().is_err());
}

#[test]
fn signed_loads_extend() {
    let mut system = machine(&[
        0x240880FF, // addiu $t0, $zero, 0x80FF  -> 0xFFFF80FF
        0xA4080200, // sh    $t0, 0x200($zero)
        0x84090200, // lh    $t1, 0x200($zero)
        0x940A0200, // lhu   $t2, 0x200($zero)
        0x800B0200, // lb    $t3, 0x200($zero)
        0x900C0201, // lbu   $t4, 0x201($zero)
    ]);
    run(&mut system, 6);
    assert_eq!(reg(&system, 8), 0xFFFF80FF);
    assert_eq!(reg(&system, 9), 0xFFFF80FF);
    assert_eq!(reg(&system, 10), 0x80FF);
    assert_eq!(reg(&system, 11), 0xFFFFFFFF);
    assert_eq!(reg(&system, 12), 0x80);
}

#[test]
fn divides_rounding_toward_zero() {
    let mut system = machine(&[
        0x2408FFF9, // addiu $t0, $zero, -7
        0x24090002, // addiu $t1, $zero, 2
        0x0109001A, // div   $t0, $t1
        0x00005012, // mflo  $t2
        0x00005810, // mfhi  $t3
        0x0109001B, // divu  $t0, $t1
        0x00006012, // mflo  $t4
        0x00006810, // mfhi  $t5
        0x0100001A, // div   $t0, $zero
        0x00007012, // mflo  $t6
        0x00007810, // mfhi  $t7
    ]);
    run(&mut system, 11);
    assert_eq!(reg(&system, 10), 0xFFFFFFFD);
    assert_eq!(reg(&system, 11), 0xFFFFFFFF);
    assert_eq!(reg(&system, 12), 0x7FFFFFFC);
    assert_eq!(reg(&system, 13), 1);
    assert_eq!(reg(&system, 14), 1);
    assert_eq!(reg(&system, 15), 0xFFFFFFF9);
}

#[test]
fn branches_take_effect_after_the_delay_slot() {
    let mut system = machine(&[
        0x24080001, // 0: addiu $t0, $zero, 1
        0x15000002, // 4: bne   $t0, $zero, +2 (to 16)
        0x24090005, // 8: addiu $t1, $zero, 5   (delay slot, executed)
        0x240A0006, // 12: addiu $t2, $zero, 6  (skipped)
        0x240B0007, // 16: addiu $t3, $zero, 7
    ]);
    run(&mut system, 4);
    assert_eq!(reg(&system, 9), 5);
    assert_eq!(reg(&system, 10), 0);
    assert_eq!(reg(&system, 11), 7);
}

#[test]
fn jump_and_link() {
    let mut system = machine(&[
        0x0FF00004, // jal 0xBFC00010
        0x00000000, // nop (delay slot)
        0x00000000,
        0x00000000,
        0x03E00008, // 16: jr $ra
        0x00000000,
    ]);
    run(&mut system, 3);
    assert_eq!(reg(&system, 31), 0xBFC00008);
    assert_eq!(system.cpu().registers().npc, 0xBFC00008);
}

#[test]
fn syscall_enters_the_exception_vector_and_rfe_restores_mode() {
    let mut system = machine(&[
        0x24080003, // addiu $t0, $zero, 3
        0x40886000, // mtc0  $t0, $12 (SR = 3)
        0x0000000C, // syscall
    ]);
    run(&mut system, 3);
    let cpu = system.cpu();
    assert_eq!(cpu.cop0_registers().read_register(Cop0Reg::EPC), 0xBFC00008);
    assert_eq!(cpu.cop0_registers().read_register(Cop0Reg::CAUSE), 0x20);
    assert_eq!(cpu.cop0_registers().read_register(Cop0Reg::SR), 0x0C);
    assert_eq!(cpu.registers().pc, 0x80000080);
    assert_eq!(cpu.registers().npc, 0x80000084);
}

#[test]
fn rfe_pops_the_mode_stack() {
    let mut system = machine(&[
        0x2408003C, // addiu $t0, $zero, 0x3C
        0x40886000, // mtc0  $t0, $12
        0x42000010, // rfe
        0x40096000, // mfc0  $t1, $12
    ]);
    run(&mut system, 4);
    assert_eq!(reg(&system, 9), 0x3F);
}

#[test]
fn steps_that_cannot_be_done_are_refused() {
    // An undefined opcode.
    let mut system = machine(&[0xFC000000]);
    assert!(system.next_instruction().is_err());
    // XORI is not implemented.
    let mut system = machine(&[0x38080001]);
    assert!(system.next_instruction().is_err());
    // A read from the CDROM registers.
    let mut system = machine(&[0x3C081F80, 0x8D091800]);
    run(&mut system, 1);
    assert!(system.next_instruction().is_err());
    // MFC0 of a register without a read handler.
    let mut system = machine(&[0x40087800]);
    assert!(system.next_instruction().is_err());
    // The message names the instruction, its address and the cycle.
    let mut system = machine(&[0x24080001, 0xFC000000]);
    run(&mut system, 1);
    assert_eq!(
        system.next_instruction(),
        Err("cannot execute instruction fc000000 at bfc00004 (cycle 1)".to_string())
    );
}

#[test]
fn addi_overflow_traps() {
    let mut system = machine(&[
        0x3C087FFF, // lui   $t0, 0x7FFF
        0x3508FFFF, // ori   $t0, $t0, 0xFFFF
        0x21090001, // addi  $t1, $t0, 1 -> overflow
    ]);
    run(&mut system, 3);
    let cpu = system.cpu();
    assert_eq!(reg(&system, 9), 0);
    assert_eq!(cpu.cop0_registers().read_register(Cop0Reg::EPC), 0xBFC00008);
    assert_eq!((cpu.cop0_registers().read_register(Cop0Reg::CAUSE) >> 2) & 0x1F, 0x0C);
    assert_eq!(cpu.registers().pc, 0x80000080);
    // Without an overflow, ADDI adds.
    let mut system = machine(&[0x2408FFFF, 0x21090002]);
    run(&mut system, 2);
    assert_eq!(reg(&system, 9), 1);
}

#[test]
fn addu_wraps_around() {
    let mut system = machine(&[
        0x2408FFFF, // addiu $t0, $zero, -1
        0x24090002, // addiu $t1, $zero, 2
        0x01095021, // addu  $t2, $t0, $t1
    ]);
    run(&mut system, 3);
    assert_eq!(reg(&system, 10), 1);
}

#[test]
fn boot_exception_vectors_in_rom() {
    let mut system = machine(&[
        0x3C080040, // lui   $t0, 0x0040 (BEV)
        0x40886000, // mtc0  $t0, $12
        0x0000000C, // syscall
    ]);
    run(&mut system, 3);
    assert_eq!(system.cpu().registers().pc, 0xBFC00180);
    assert_eq!(system.cpu().registers().npc, 0xBFC00184);
}

#[test]
fn r0_stays_zero() {
    let mut system = machine(&[0x24000005, 0x3C001234]);
    run(&mut system, 2);
    assert_eq!(reg(&system, 0), 0);
}

#[test]
fn set_on_less_than() {
    let mut system = machine(&[
        0x2408FFFF, // addiu $t0, $zero, -1
        0x24090001, // addiu $t1, $zero, 1
        0x0109502A, // slt   $t2, $t0, $t1 (signed: 1)
        0x0109582B, // sltu  $t3, $t0, $t1 (unsigned: 0)
        0x290C0000, // slti  $t4, $t0, 0   (1)
        0x2D2DFFFF, // sltiu $t5, $t1, -1  (1)
        0x00087043, // sra   $t6, $t0, 1
        0x00087842, // srl   $t7, $t0, 1
    ]);
    run(&mut system, 8);
    assert_eq!(reg(&system, 10), 1);
    assert_eq!(reg(&system, 11), 0);
    assert_eq!(reg(&system, 12), 1);
    assert_eq!(reg(&system, 13), 1);
    assert_eq!(reg(&system, 14), 0xFFFFFFFF);
    assert_eq!(reg(&system, 15), 0x7FFFFFFF);
}

#[test]
fn add_traps_on_signed_overflow_only() {
    let mut system = machine(&[
        0x3C087FFF, // lui   $t0, 0x7FFF
        0x3508FFFF, // ori   $t0, $t0, 0xFFFF
        0x24090001, // addiu $t1, $zero, 1
        0x01095020, // add   $t2, $t0, $t1 -> overflow
    ]);
    run(&mut system, 4);
    let cpu = system.cpu();
    assert_eq!(reg(&system, 10), 0);
    assert_eq!(cpu.cop0_registers().read_register(Cop0Reg::EPC), 0xBFC0000C);
    assert_eq!((cpu.cop0_registers().read_register(Cop0Reg::CAUSE) >> 2) & 0x1F, 0x0C);
    assert_eq!(cpu.registers().pc, 0x80000080);
    // -1 + -1 carries out of bit 31 but does not overflow as a signed sum.
    let mut system = machine(&[0x2408FFFF, 0x01084020]);
    run(&mut system, 2);
    assert_eq!(reg(&system, 8), 0xFFFFFFFE);
}

#[test]
fn sllv_uses_the_low_five_bits_of_rs() {
    let mut system = machine(&[
        0x24090021, // addiu $t1, $zero, 33
        0x24080001, // addiu $t0, $zero, 1
        0x01285004, // sllv  $t2, $t0, $t1 (shift by 1)
    ]);
    run(&mut system, 3);
    assert_eq!(reg(&system, 10), 2);
    let mut system = machine(&[0x24090020, 0x01295004]);
    run(&mut system, 2);
    assert_eq!(reg(&system, 10), 0x20);
}

#[test]
fn bgtz_and_blez_compare_signed() {
    // A negative register is not greater than zero.
    let mut system = machine(&[
        0x3C088000, // 0: lui   $t0, 0x8000
        0x1D000002, // 4: bgtz  $t0, +2 (not taken)
        0x24090005, // 8: addiu $t1, $zero, 5 (delay slot)
        0x240A0006, // 12: addiu $t2, $zero, 6
        0x240B0007, // 16: addiu $t3, $zero, 7
    ]);
    run(&mut system, 5);
    assert_eq!(reg(&system, 9), 5);
    assert_eq!(reg(&system, 10), 6);
    assert_eq!(reg(&system, 11), 7);
    // ... and is less than or equal to zero.
    let mut system = machine(&[
        0x3C088000, // 0: lui   $t0, 0x8000
        0x19000002, // 4: blez  $t0, +2 (taken)
        0x24090005, // 8: addiu $t1, $zero, 5 (delay slot)
        0x240A0006, // 12: addiu $t2, $zero, 6 (skipped)
        0x240B0007, // 16: addiu $t3, $zero, 7
    ]);
    run(&mut system, 4);
    assert_eq!(reg(&system, 9), 5);
    assert_eq!(reg(&system, 10), 0);
    assert_eq!(reg(&system, 11), 7);
}
