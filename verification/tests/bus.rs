use psx::bus::{
    Bus, ReadByte, ReadHalfWord, ReadWord, WriteByte, WriteHalfWord, WriteWord,
};

fn bus_with_bios(words: &[(usize, u32)]) -> Bus {
    let mut bios = vec![0u8; 0x80000];
    for &(offset, word) in words {
        bios[offset..offset + 4].copy_from_slice(&word.to_le_bytes());
    }
    let mut bus = Bus::new();
    bus.load_bios(bios);
    bus.initialize();
    bus
}

#[test]
fn ram_word_write_then_read_little_endian() {
    let mut bus = Bus::new();
    let mut value = 0x12345678u32;
    assert_eq!(bus.access_memory::<WriteWord>(0x00000100, &mut value, false), 0);
    assert_eq!(bus.ram[0x100], 0x78);
    assert_eq!(bus.ram[0x103], 0x12);
    let mut read = 0u32;
    assert_eq!(bus.access_memory::<ReadWord>(0x00000100, &mut read, false), 6);
    assert_eq!(read, 0x12345678);
    let mut half = 0u32;
    bus.access_memory::<ReadHalfWord>(0x80000102, &mut half, false);
    assert_eq!(half, 0x1234);
    let mut byte = 0u32;
    bus.access_memory::<ReadByte>(0xA0000101, &mut byte, false);
    assert_eq!(byte, 0x56);
}

#[test]
fn ram_is_mirrored_every_two_megabytes() {
    let mut bus = Bus::new();
    let mut value = 0xCAFEu32;
    bus.access_memory::<WriteHalfWord>(0x00000010, &mut value, false);
    let mut read = 0u32;
    bus.access_memory::<ReadHalfWord>(0xA0600010, &mut read, false);
    assert_eq!(read, 0xCAFE);
}

#[test]
fn narrow_writes_keep_only_low_bytes() {
    let mut bus = Bus::new();
    let mut value = 0xAABBCCDDu32;
    bus.access_memory::<WriteByte>(0x20, &mut value, false);
    bus.access_memory::<WriteHalfWord>(0x30, &mut value, false);
    let mut read = 0u32;
    bus.access_memory::<ReadWord>(0x20, &mut read, false);
    assert_eq!(read, 0xDD);
    bus.access_memory::<ReadWord>(0x30, &mut read, false);
    assert_eq!(read, 0xCCDD);
}

#[test]
fn isolated_cache_blocks_cached_writes_only() {
    let mut bus = Bus::new();
    let mut value = 0x55u32;
    assert_eq!(bus.access_memory::<WriteWord>(0x80000040, &mut value, true), 0);
    assert_eq!(bus.ram[0x40], 0);
    bus.access_memory::<WriteWord>(0xA0000040, &mut value, true);
    assert_eq!(bus.ram[0x40], 0x55);
}

#[test]
fn bios_reads_and_ignored_writes() {
    let mut bus = bus_with_bios(&[(0, 0x3C081234), (8, 0xDEADBEEF)]);
    assert_eq!(bus.fetch_instruction(0xBFC00000), 0x3C081234);
    let mut read = 0u32;
    bus.access_memory::<ReadWord>(0xBFC00008, &mut read, false);
    assert_eq!(read, 0xDEADBEEF);
    let mut value = 0u32;
    bus.access_memory::<WriteWord>(0xBFC00008, &mut value, false);
    bus.access_memory::<ReadWord>(0xBFC00008, &mut read, false);
    assert_eq!(read, 0xDEADBEEF);
    assert_eq!(bus.fetch_instruction(0x1FC00008), 0xDEADBEEF);
}

#[test]
fn bios_access_times_from_reset_registers() {
    let mut bus = Bus::new();
    assert_eq!(bus.access_times(), ((0, 0, 0), (0, 0, 0)));
    bus.initialize();
    assert_eq!(bus.access_times(), ((6, 12, 24), (6, 12, 24)));
    let mut read = 0u32;
    assert_eq!(bus.access_memory::<ReadByte>(0xBFC00000, &mut read, false), 6);
    assert_eq!(bus.access_memory::<ReadHalfWord>(0xBFC00000, &mut read, false), 12);
    assert_eq!(bus.access_memory::<ReadWord>(0xBFC00000, &mut read, false), 24);
}

#[test]
fn memory_control_writes_masked_and_retime() {
    let mut bus = Bus::new();
    bus.initialize();
    let mut read = 0u32;
    assert_eq!(bus.access_memory::<ReadWord>(0x1F801010, &mut read, false), 2);
    assert_eq!(read, 0x0013243F);
    // A 16-bit BIOS bus: the half-word time drops to the byte time.
    let mut value = 0x0013343Fu32;
    bus.access_memory::<WriteWord>(0x1F801010, &mut value, false);
    assert_eq!(bus.memory_control_registers()[4], 0x0013343F);
    assert_eq!(bus.access_times().0, (6, 6, 12));
    // Bits outside the write mask stay.
    let mut value = 0xFFFFFFFFu32;
    bus.access_memory::<WriteWord>(0x1F801020, &mut value, false);
    assert_eq!(bus.memory_control_registers()[8], 0x0003FFFF);
}

#[test]
fn interrupt_controller_and_dma_through_the_bus() {
    let mut bus = Bus::new();
    let mut value = 0x0Du32;
    bus.access_memory::<WriteWord>(0x1F801074, &mut value, false);
    let mut read = 0u32;
    bus.access_memory::<ReadWord>(0x1F801074, &mut read, false);
    assert_eq!(read, 0x0D);
    assert_eq!(bus.interrupt_controller_registers(), [0, 0x0D, 0, 0]);
    let mut byte = 0u32;
    bus.access_memory::<ReadByte>(0x1F8010F1, &mut byte, false);
    assert_eq!(byte, 0x076543);
    // The upper half-word of the DMA control register.
    let mut half = 0u32;
    bus.access_memory::<ReadHalfWord>(0x1F8010F2, &mut half, false);
    assert_eq!(half, 0x0765);
    // And of an interrupt controller word.
    bus.access_memory::<ReadHalfWord>(0x1F801076, &mut half, false);
    assert_eq!(half, 0);
    let mut upper = 0x0Au32;
    bus.access_memory::<WriteHalfWord>(0x1F801076, &mut upper, false);
    assert_eq!(bus.interrupt_controller_registers(), [0, 0x000A0000, 0, 0]);
    let mut value = 0x0BADu32;
    bus.access_memory::<WriteHalfWord>(0x1F8010F0, &mut value, false);
    bus.access_memory::<ReadWord>(0x1F8010F0, &mut read, false);
    assert_eq!(read, 0x0BAD);
}

#[test]
fn accesses_that_are_refused() {
    // KUSEG above 512 MB.
    assert!(!Bus::is_access_defined(4, false, 0x20000000, false));
    // CDROM, pad, serial port, scratchpad.
    assert!(!Bus::is_access_defined(4, false, 0x1F801800, false));
    assert!(!Bus::is_access_defined(4, false, 0x1F801040, false));
    assert!(!Bus::is_access_defined(1, true, 0x1F800000, false));
    // The last word of RAM cannot be read from its last byte.
    assert!(!Bus::is_access_defined(4, false, 0x001FFFFD, false));
    assert!(Bus::is_access_defined(4, false, 0x001FFFFC, false));
    // DMA registers other than the control register.
    assert!(!Bus::is_access_defined(4, false, 0x1F801080, false));
    // Half-word accesses must be aligned.
    assert!(!Bus::is_access_defined(2, false, 0x1F801071, false));
    assert!(Bus::is_access_defined(2, false, 0x1F801072, false));
    // Cached writes with the cache isolated, and KSEG2, do nothing but are fine.
    assert!(Bus::is_access_defined(4, true, 0x20000000, true) == false);
    assert!(Bus::is_access_defined(4, true, 0x80000000, true));
    assert!(Bus::is_access_defined(4, false, 0xFFFE0130, false));
    // Devices without a model take the access and do nothing.
    assert!(Bus::is_access_defined(2, true, 0x1F801C00, false));
    assert!(Bus::is_instruction_fetchable(0xBFC00000));
    assert!(!Bus::is_instruction_fetchable(0xBFC7FFFE));
    assert!(!Bus::is_instruction_fetchable(0xC0000000));
}

#[test]
fn ram_hash_is_sha256_of_ram() {
    let mut bus = Bus::new();
    assert_eq!(
        bus.get_ram_hash(),
        "5647f05ec18958947d32874eeb788fa396a05d0bab7c1b71f112ceb7e9b31eee"
    );
    let mut value = 0x12345678u32;
    bus.access_memory::<WriteWord>(0x100, &mut value, false);
    assert_eq!(
        bus.get_ram_hash(),
        "d0529f1f21a0fb50c08b30beb35e49a278848692791ea6adfe7816febbda85a5"
    );
}
