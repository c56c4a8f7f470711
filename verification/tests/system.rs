use psx::bios::{Bios, BIOS_SIZE, HASH};
use psx::rom::{opcode_name, program_from_bytes};
use psx::system::{Event, RunnerAction, SystemControl};

#[test]
fn processing_loop_decisions() {
    let mut c = SystemControl::new();
    assert_eq!(c.next_action(), RunnerAction::Exit);
    c.boot();
    assert_eq!(c.next_action(), RunnerAction::Wait);
    c.next_instruction();
    assert_eq!(c.next_action(), RunnerAction::ExecuteOnce);
    assert_eq!(c.next_action(), RunnerAction::Wait);
    c.start();
    assert_eq!(c.next_action(), RunnerAction::ExecuteAndNotify);
    assert_eq!(c.next_action(), RunnerAction::ExecuteAndNotify);
    c.stop();
    assert_eq!(c.next_action(), RunnerAction::Wait);
    c.next_instruction();
    c.shutdown();
    assert_eq!(c.next_action(), RunnerAction::Exit);
    assert!(c.run_next_instruction);
    assert_ne!(Event::SystemBootComplete, Event::FrameComplete);
}

#[test]
fn bios_hash_is_md5_of_image() {
    let bios = Bios::from_bytes(vec![0u8; BIOS_SIZE]);
    let hex: String = bios.get_hash().iter().map(|b| format!("{:02x}", b)).collect();
    assert_eq!(hex, "59071590099d21dd439896592338bf95");
    assert_ne!(hex, HASH);
    assert_eq!(bios.data().len(), BIOS_SIZE);
}

#[test]
fn program_words_are_big_endian() {
    assert_eq!(program_from_bytes(&[0x3C, 0x08, 0x12, 0x34, 0, 0, 0, 1]), vec![0x3C081234, 1]);
    assert_eq!(opcode_name(0x3C081234 >> 26), "LUI");
    assert_eq!(opcode_name(0), "ALU_Op");
    assert_eq!(opcode_name(17), "NULL");
    assert_eq!(opcode_name(59), "HLE");
}
