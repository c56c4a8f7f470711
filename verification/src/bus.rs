use vstd::prelude::*;

use crate::dma::{DMAView, DMA, DMA_CONTROL_OFFSET};
use crate::digest::{sha256, sha256_of};
use crate::interrupt_controller::InterruptController;
use crate::text::{ascii_chars, hex_bytes, string_from_utf8_lossy, to_hex};
use crate::memory_map::{
    BIOS_BASE, BIOS_MASK, BIOS_SIZE, CDROM_BASE, CDROM_SIZE, D_CACHE_SIZE, DMA_BASE, DMA_MASK,
    DMA_SIZE, EXP1_BASE, EXP1_SIZE, EXP2_BASE, EXP2_SIZE, EXP3_BASE, EXP3_SIZE, GPU_BASE, GPU_SIZE,
    I_CACHE_LINES, I_CACHE_SIZE, INTERRUPT_CONTROLLER_BASE, INTERRUPT_CONTROLLER_MASK,
    INTERRUPT_CONTROLLER_SIZE, MDEC_BASE, MDEC_SIZE, MEMCTRL2_BASE, MEMCTRL2_SIZE, MEMCTRL_BASE,
    MEMCTRL_MASK, MEMCTRL_SIZE, PAD_BASE, PAD_SIZE, PHYSICAL_MEMORY_ADDRESS_MASK, RAM_2MB_MASK,
    RAM_2MB_SIZE, RAM_MIRROR_END, SIO_BASE, SIO_SIZE, SPU_BASE, SPU_SIZE, TIMERS_BASE, TIMERS_SIZE,
};

verus! {

/// A number of CPU cycles.
pub type TickCount = i32;

pub const RAM_READ_TICKS: TickCount = 6;

/// Bits of a memory delay/size register that writes may change.
pub const MEM_DELAY_WRITE_MASK: u32 = 0b1010_1111_0001_1111_1111_1111_1111_1111;

/// Bits of the common delay register that writes may change.
pub const COM_DELAY_WRITE_MASK: u32 = 0b0000_0000_0000_0011_1111_1111_1111_1111;

/// Cycles that a byte, half-word and word access to a device take, less one.
pub struct AccessTimes {
    pub byte: TickCount,
    pub halfword: TickCount,
    pub word: TickCount,
}

/// A memory delay/size register:
///  0-3 write delay, 4-7 read delay, 8-11 use of the COM0..COM3 timings,
///  12 data bus width (0 = 8 bits, 1 = 16 bits), 16-20 memory window size.
pub struct MemDelayReg {
    pub bits: u32,
}

impl MemDelayReg {
    pub open spec fn access_time_spec(self) -> u8 {
        ((self.bits >> 4u32) & 0xF) as u8
    }

    pub open spec fn flag_spec(self, bit: u32) -> bool {
        ((self.bits >> bit) & 0x1) == 1
    }

    pub fn get_access_time(&self) -> (r: u8)
        ensures
            r == self.access_time_spec(),
            r < 16,
    {
        let b = self.bits;
        assert((b >> 4u32) & 0xF < 16) by (bit_vector);
        ((b >> 4) & 0xF) as u8
    }

    pub fn uses_com0_time(&self) -> (r: bool)
        ensures
            r == self.flag_spec(8),
    {
        ((self.bits >> 8) & 0x1) == 1
    }

    pub fn uses_com1_time(&self) -> (r: bool)
        ensures
            r == self.flag_spec(9),
    {
        ((self.bits >> 9) & 0x1) == 1
    }

    pub fn uses_com2_time(&self) -> (r: bool)
        ensures
            r == self.flag_spec(10),
    {
        ((self.bits >> 10) & 0x1) == 1
    }

    pub fn uses_com3_time(&self) -> (r: bool)
        ensures
            r == self.flag_spec(11),
    {
        ((self.bits >> 11) & 0x1) == 1
    }

    pub fn is_data_bus_16bit(&self) -> (r: bool)
        ensures
            r == self.flag_spec(12),
    {
        ((self.bits >> 12) & 0x1) == 1
    }

    pub fn get_memory_window_size(&self) -> (r: u8)
        ensures
            r == ((self.bits >> 16u32) & 0x1F) as u8,
    {
        ((self.bits >> 16) & 0x1F) as u8
    }
}

/// The common delay register: four 4-bit timings COM0..COM3 and two unknown bits.
pub struct ComDelayReg {
    pub bits: u32,
}

impl ComDelayReg {
    pub open spec fn com_spec(self, shift: u32) -> u8 {
        ((self.bits >> shift) & 0xF) as u8
    }

    pub fn get_com0_time(&self) -> (r: u8)
        ensures
            r == self.com_spec(0),
            r < 16,
    {
        let b = self.bits;
        assert((b >> 0u32) & 0xF < 16) by (bit_vector);
        ((b >> 0) & 0xF) as u8
    }

    pub fn get_com1_time(&self) -> (r: u8)
        ensures
            r == self.com_spec(4),
    {
        ((self.bits >> 4) & 0xF) as u8
    }

    pub fn get_com2_time(&self) -> (r: u8)
        ensures
            r == self.com_spec(8),
            r < 16,
    {
        let b = self.bits;
        assert((b >> 8u32) & 0xF < 16) by (bit_vector);
        ((b >> 8) & 0xF) as u8
    }

    pub fn get_com3_time(&self) -> (r: u8)
        ensures
            r == self.com_spec(12),
            r < 16,
    {
        let b = self.bits;
        assert((b >> 12u32) & 0xF < 16) by (bit_vector);
        ((b >> 12) & 0xF) as u8
    }

    pub fn get_comunk_time(&self) -> (r: u8)
        ensures
            r == ((self.bits >> 16u32) & 0x3) as u8,
    {
        ((self.bits >> 16) & 0x3) as u8
    }
}

/// `x - 1`, or zero where that is negative.
pub open spec fn less_one_or_zero(x: int) -> int {
    if x - 1 > 0 {
        x - 1
    } else {
        0
    }
}

/// Access times (byte, half-word, word) of a device with the given delay/size
/// register under the given common delays: the first access takes the
/// read delay plus 2 cycles, plus the recovery (COM0 - 1) and floating
/// (COM2) periods where the device uses them, plus one more if that sum is
/// under 6; each further access of a wider transfer takes the sequential
/// time; the strobe delay (COM3) bounds both from below; each time is given
/// less one cycle, and never below zero.
pub open spec fn memory_timing(mem_delay: MemDelayReg, common_delay: ComDelayReg) -> (TickCount, TickCount, TickCount) {
    let access = mem_delay.access_time_spec() as int;
    let com0 = common_delay.com_spec(0) as int;
    let com2 = common_delay.com_spec(8) as int;
    let com3 = common_delay.com_spec(12) as int;
    let base = (if mem_delay.flag_spec(8) { com0 - 1 } else { 0 }) + (if mem_delay.flag_spec(10) {
        com2
    } else {
        0
    });
    let min = if mem_delay.flag_spec(11) { com3 } else { 0 };
    let first0 = base + (if base < 6 { 1int } else { 0int }) + access + 2;
    let seq0 = base + access + 2;
    let first = if first0 < min + 6 { min + 6 } else { first0 };
    let seq = if seq0 < min + 2 { min + 2 } else { seq0 };
    let byte = first;
    let halfword = if mem_delay.flag_spec(12) { first } else { first + seq };
    let word = if mem_delay.flag_spec(12) { first + seq } else { first + 3 * seq };
    (
        less_one_or_zero(byte) as TickCount,
        less_one_or_zero(halfword) as TickCount,
        less_one_or_zero(word) as TickCount,
    )
}

/// A byte access takes at least 5 cycles; a half-word access takes as long
/// as a byte access on a 16-bit bus and longer on an 8-bit one; a word
/// access takes longer than a half-word access.
pub proof fn lemma_memory_timing_ordered(mem_delay: MemDelayReg, common_delay: ComDelayReg)
    ensures
        5 <= memory_timing(mem_delay, common_delay).0 <= memory_timing(mem_delay, common_delay).1
            < memory_timing(mem_delay, common_delay).2,
        mem_delay.flag_spec(12) ==> memory_timing(mem_delay, common_delay).1 == memory_timing(mem_delay, common_delay).0,
        !mem_delay.flag_spec(12) ==> memory_timing(mem_delay, common_delay).0 < memory_timing(mem_delay, common_delay).1,
        memory_timing(mem_delay, common_delay).2 < 200,
{
    let m = mem_delay.bits;
    let c = common_delay.bits;
    assert((m >> 4u32) & 0xF < 16 && (c >> 0u32) & 0xF < 16 && (c >> 8u32) & 0xF < 16 && (c >> 12u32)
        & 0xF < 16) by (bit_vector);
}

/// The access times depend only on bits 4..8 and 10..12 of the delay/size
/// register and bits 0..3 and 8..15 of the common delay register.
pub proof fn lemma_memory_timing_fields(
    mem_delay1: MemDelayReg,
    mem_delay2: MemDelayReg,
    common_delay1: ComDelayReg,
    common_delay2: ComDelayReg,
)
    requires
        mem_delay1.bits & 0x1DF0 == mem_delay2.bits & 0x1DF0,
        common_delay1.bits & 0xFF0F == common_delay2.bits & 0xFF0F,
    ensures
        memory_timing(mem_delay1, common_delay1) == memory_timing(mem_delay2, common_delay2),
{
    let m1 = mem_delay1.bits;
    let m2 = mem_delay2.bits;
    let c1 = common_delay1.bits;
    let c2 = common_delay2.bits;
    assert((m1 >> 4u32) & 0xF == (m2 >> 4u32) & 0xF && (m1 >> 8u32) & 0x1 == (m2 >> 8u32) & 0x1
        && (m1 >> 10u32) & 0x1 == (m2 >> 10u32) & 0x1 && (m1 >> 11u32) & 0x1 == (m2 >> 11u32) & 0x1
        && (m1 >> 12u32) & 0x1 == (m2 >> 12u32) & 0x1) by (bit_vector)
        requires
            m1 & 0x1DF0 == m2 & 0x1DF0,
    ;
    assert((c1 >> 0u32) & 0xF == (c2 >> 0u32) & 0xF && (c1 >> 8u32) & 0xF == (c2 >> 8u32) & 0xF
        && (c1 >> 12u32) & 0xF == (c2 >> 12u32) & 0xF) by (bit_vector)
        requires
            c1 & 0xFF0F == c2 & 0xFF0F,
    ;
}

/// The memory control registers:
///  0 expansion 1 base, 1 expansion 2 base, 2 expansion 1 delay/size,
///  3 expansion 3 delay/size, 4 BIOS ROM delay/size, 5 SPU delay/size,
///  6 CDROM delay/size, 7 expansion 2 delay/size, 8 common delay.
pub struct MemCtrlRegisters {
    pub regs: [u32; 9],
}

impl MemCtrlRegisters {
    /// The register values after a reset.
    pub open spec fn new_spec() -> Seq<u32> {
        seq![
            0x1F000000u32,
            0x1F802000u32,
            0x0013243Fu32,
            0x00003022u32,
            0x0013243Fu32,
            0x200931E1u32,
            0x00020843u32,
            0x00070777u32,
            0x00031125u32,
        ]
    }

    /// The values the registers hold after a reset.
    pub fn new() -> (r: Self)
        ensures
            r.regs@ == seq![
                0x1F000000u32,
                0x1F802000u32,
                0x0013243Fu32,
                0x00003022u32,
                0x0013243Fu32,
                0x200931E1u32,
                0x00020843u32,
                0x00070777u32,
                0x00031125u32,
            ],
    {
        let r = Self {
            regs: [
                0x1F000000,
                0x1F802000,
                0x0013243F,
                0x00003022,
                0x0013243F,
                0x200931E1,
                0x00020843,
                0x00070777,
                0x00031125,
            ],
        };
        assert(r.regs@ =~= seq![
            0x1F000000u32,
            0x1F802000u32,
            0x0013243Fu32,
            0x00003022u32,
            0x0013243Fu32,
            0x200931E1u32,
            0x00020843u32,
            0x00070777u32,
            0x00031125u32,
        ]);
        r
    }

    pub fn get_exp1_base(&self) -> (r: u32)
        ensures
            r == self.regs@[0],
    {
        self.regs[0]
    }

    pub fn get_exp2_base(&self) -> (r: u32)
        ensures
            r == self.regs@[1],
    {
        self.regs[1]
    }

    pub fn get_exp1_delay_size(&self) -> (r: MemDelayReg)
        ensures
            r.bits == self.regs@[2],
    {
        MemDelayReg { bits: self.regs[2] }
    }

    pub fn get_exp3_delay_size(&self) -> (r: MemDelayReg)
        ensures
            r.bits == self.regs@[3],
    {
        MemDelayReg { bits: self.regs[3] }
    }

    pub fn get_bios_delay_size(&self) -> (r: MemDelayReg)
        ensures
            r.bits == self.regs@[4],
    {
        MemDelayReg { bits: self.regs[4] }
    }

    pub fn get_spu_delay_size(&self) -> (r: MemDelayReg)
        ensures
            r.bits == self.regs@[5],
    {
        MemDelayReg { bits: self.regs[5] }
    }

    pub fn get_cdrom_delay_size(&self) -> (r: MemDelayReg)
        ensures
            r.bits == self.regs@[6],
    {
        MemDelayReg { bits: self.regs[6] }
    }

    pub fn get_exp2_delay_size(&self) -> (r: MemDelayReg)
        ensures
            r.bits == self.regs@[7],
    {
        MemDelayReg { bits: self.regs[7] }
    }

    pub fn get_common_delay(&self) -> (r: ComDelayReg)
        ensures
            r.bits == self.regs@[8],
    {
        ComDelayReg { bits: self.regs[8] }
    }
}

/// The state of the bus and the devices behind it.
#[verifier::ext_equal]
pub struct BusModel {
    pub bios: Seq<u8>,
    pub ram: Seq<u8>,
    /// The nine memory control registers.
    pub mem_ctrl: Seq<u32>,
    /// BIOS ROM access times (byte, half-word, word).
    pub bios_access_time: (TickCount, TickCount, TickCount),
    /// CDROM access times (byte, half-word, word).
    pub cdrom_access_time: (TickCount, TickCount, TickCount),
    /// The four words of the interrupt controller.
    pub interrupt_controller: Seq<u32>,
    pub dma: DMAView,
    /// The instruction cache: its line tags and its data.
    pub icache_tags: Seq<u32>,
    pub icache_data: Seq<u8>,
    /// The data cache (the scratchpad).
    pub dcache: Seq<u8>,
}

/// The memory areas have their sizes.
pub open spec fn bus_model_wf(m: BusModel) -> bool {
    &&& m.bios.len() == BIOS_SIZE
    &&& m.ram.len() == RAM_2MB_SIZE
    &&& m.mem_ctrl.len() == 9
    &&& m.interrupt_controller.len() == 4
}

/// The access times that the memory control registers prescribe.
pub open spec fn with_timings(m: BusModel) -> BusModel {
    BusModel {
        bios_access_time: memory_timing(
            MemDelayReg { bits: m.mem_ctrl[4] },
            ComDelayReg { bits: m.mem_ctrl[8] },
        ),
        cdrom_access_time: memory_timing(
            MemDelayReg { bits: m.mem_ctrl[6] },
            ComDelayReg { bits: m.mem_ctrl[8] },
        ),
        ..m
    }
}

/// The access times agree with the memory control registers.
pub open spec fn timings_consistent(m: BusModel) -> bool {
    with_timings(m) == m
}

/// The little-endian value of `width` bytes (1, 2 or 4) at `offset`.
pub open spec fn load_le(mem: Seq<u8>, offset: int, width: nat) -> u32 {
    if width == 1 {
        mem[offset] as u32
    } else if width == 2 {
        ((mem[offset + 1] as u32) << 8u32) | (mem[offset] as u32)
    } else {
        ((mem[offset + 3] as u32) << 24u32) | ((mem[offset + 2] as u32) << 16u32) | ((mem[offset
            + 1] as u32) << 8u32) | (mem[offset] as u32)
    }
}

/// `mem` with the low `width` bytes (1, 2 or 4) of `value` stored
/// little-endian at `offset`.
pub open spec fn store_le(mem: Seq<u8>, offset: int, width: nat, value: u32) -> Seq<u8> {
    let m1 = mem.update(offset, (value & 0xFF) as u8);
    if width == 1 {
        m1
    } else {
        let m2 = m1.update(offset + 1, ((value >> 8u32) & 0xFF) as u8);
        if width == 2 {
            m2
        } else {
            m2.update(offset + 2, ((value >> 16u32) & 0xFF) as u8).update(
                offset + 3,
                ((value >> 24u32) & 0xFF) as u8,
            )
        }
    }
}

/// The low `width` bytes of a word.
pub open spec fn truncate_to_width(value: u32, width: nat) -> u32 {
    if width == 1 {
        value & 0xFF
    } else if width == 2 {
        value & 0xFFFF
    } else {
        value
    }
}

/// Which device a physical address reaches.
#[derive(Debug, Clone, Copy, PartialEq, Eq, Structural)]
pub enum MemoryRegion {
    Ram,
    Bios,
    Exp1,
    MemCtrl,
    MemCtrl2,
    InterruptController,
    Dma,
    Timers,
    Gpu,
    Spu,
    Exp2,
    /// Gaps, and devices without a handler (pad, serial port, CDROM, MDEC,
    /// expansion 3): an access there is an error.
    Unmapped,
}

/// The device that a physical address reaches, as the bus decodes it.
pub open spec fn region_of(address: u32) -> MemoryRegion {
    if address < RAM_MIRROR_END {
        MemoryRegion::Ram
    } else if address >= BIOS_BASE && address < BIOS_BASE + BIOS_SIZE {
        MemoryRegion::Bios
    } else if address < EXP1_BASE {
        MemoryRegion::Unmapped
    } else if address < EXP1_BASE + EXP1_SIZE {
        MemoryRegion::Exp1
    } else if address < MEMCTRL_BASE {
        MemoryRegion::Unmapped
    } else if address < MEMCTRL_BASE + MEMCTRL_SIZE {
        MemoryRegion::MemCtrl
    } else if address < SIO_BASE + SIO_SIZE {
        MemoryRegion::Unmapped
    } else if address < MEMCTRL2_BASE + MEMCTRL2_SIZE {
        MemoryRegion::MemCtrl2
    } else if address < INTERRUPT_CONTROLLER_BASE + INTERRUPT_CONTROLLER_SIZE {
        MemoryRegion::InterruptController
    } else if address < DMA_BASE + DMA_SIZE {
        MemoryRegion::Dma
    } else if address < TIMERS_BASE + TIMERS_SIZE {
        MemoryRegion::Timers
    } else if address < CDROM_BASE + CDROM_SIZE {
        MemoryRegion::Unmapped
    } else if address < GPU_BASE + GPU_SIZE {
        MemoryRegion::Gpu
    } else if address < SPU_BASE {
        MemoryRegion::Unmapped
    } else if address < SPU_BASE + SPU_SIZE {
        MemoryRegion::Spu
    } else if address < EXP2_BASE {
        MemoryRegion::Unmapped
    } else if address < EXP2_BASE + EXP2_SIZE {
        MemoryRegion::Exp2
    } else {
        MemoryRegion::Unmapped
    }
}

/// What an access gives back: the value register, the bus and the cycles taken.
#[verifier::ext_equal]
pub struct AccessOutcome {
    pub value: u32,
    pub bus: BusModel,
    pub ticks: TickCount,
}

/// An access that changes nothing and takes no time.
pub open spec fn no_effect(value: u32, m: BusModel) -> AccessOutcome {
    AccessOutcome { value, bus: m, ticks: 0 }
}

pub open spec fn ram_access_defined(width: nat, address: u32) -> bool {
    (address & RAM_2MB_MASK) + width <= RAM_2MB_SIZE
}

/// RAM (mirrored every 2 MB): little-endian, 6 cycles a read, writes free.
pub open spec fn ram_access(width: nat, write: bool, address: u32, value: u32, m: BusModel) -> AccessOutcome {
    let offset = (address & RAM_2MB_MASK) as int;
    if write {
        AccessOutcome {
            value,
            bus: BusModel { ram: store_le(m.ram, offset, width, value), ..m },
            ticks: 0,
        }
    } else {
        AccessOutcome { value: load_le(m.ram, offset, width), bus: m, ticks: RAM_READ_TICKS }
    }
}

pub open spec fn bios_access_defined(width: nat, write: bool, address: u32) -> bool {
    write || (address >= BIOS_BASE && ((address - BIOS_BASE) as u32 & BIOS_MASK) + width
        <= BIOS_SIZE)
}

/// BIOS ROM: little-endian reads timed by the BIOS delay register; writes ignored.
pub open spec fn bios_access(width: nat, write: bool, address: u32, value: u32, m: BusModel) -> AccessOutcome {
    if write {
        no_effect(value, m)
    } else {
        let offset = ((address - BIOS_BASE) as u32 & BIOS_MASK) as int;
        AccessOutcome {
            value: load_le(m.bios, offset, width),
            bus: m,
            ticks: if width == 1 {
                m.bios_access_time.0
            } else if width == 2 {
                m.bios_access_time.1
            } else {
                m.bios_access_time.2
            },
        }
    }
}

/// The memory control register that an address selects.
pub open spec fn mem_ctrl_index(address: u32) -> u32 {
    (address & MEMCTRL_MASK) >> 2u32
}

pub open spec fn mem_ctrl_access_defined(address: u32) -> bool {
    mem_ctrl_index(address) < 9
}

/// The value a memory control register holds after a write of `value`:
/// only the bits of its write mask change.
pub open spec fn mem_ctrl_written(index: u32, old_value: u32, value: u32) -> u32 {
    let mask = if index == 8 {
        COM_DELAY_WRITE_MASK
    } else {
        MEM_DELAY_WRITE_MASK
    };
    (old_value & !mask) | (value & mask)
}

/// Memory control: a read gives the whole register; a write that changes
/// the register also recomputes the access times.
pub open spec fn mem_ctrl_access(write: bool, address: u32, value: u32, m: BusModel) -> AccessOutcome {
    let index = mem_ctrl_index(address);
    if write {
        let new_value = mem_ctrl_written(index, m.mem_ctrl[index as int], value);
        if new_value != m.mem_ctrl[index as int] {
            AccessOutcome {
                value,
                bus: with_timings(
                    BusModel { mem_ctrl: m.mem_ctrl.update(index as int, new_value), ..m },
                ),
                ticks: 0,
            }
        } else {
            no_effect(value, m)
        }
    } else {
        AccessOutcome { value: m.mem_ctrl[index as int], bus: m, ticks: 2 }
    }
}

/// Half-word accesses must be aligned to a half-word, and word accesses
/// to a word.
pub open spec fn interrupt_controller_access_defined(width: nat, address: u32) -> bool {
    if width == 1 {
        true
    } else if width == 2 {
        address & 0x1 == 0
    } else {
        address & 0x3 == 0
    }
}

/// Interrupt controller: sub-word reads shift the containing word down to
/// the addressed byte or half-word; sub-word writes store the value shifted
/// up to it as the whole word.
pub open spec fn interrupt_controller_access(width: nat, write: bool, address: u32, value: u32, m: BusModel) -> AccessOutcome {
    let offset = address & INTERRUPT_CONTROLLER_MASK;
    let ic = m.interrupt_controller;
    if width == 1 {
        let word_index = ((offset & !0x3u32) / 4) as int;
        let shift = (offset & 0x3) * 8;
        if write {
            AccessOutcome {
                value,
                bus: BusModel { interrupt_controller: ic.update(word_index, value << shift), ..m },
                ticks: 0,
            }
        } else {
            AccessOutcome { value: ic[word_index] >> shift, bus: m, ticks: 2 }
        }
    } else if width == 2 {
        let word_index = ((offset & !0x2u32) / 4) as int;
        let shift = (offset & 0x2) * 8;
        if write {
            AccessOutcome {
                value,
                bus: BusModel { interrupt_controller: ic.update(word_index, value << shift), ..m },
                ticks: 0,
            }
        } else {
            AccessOutcome { value: ic[word_index] >> shift, bus: m, ticks: 2 }
        }
    } else {
        let word_index = (offset / 4) as int;
        if write {
            AccessOutcome {
                value,
                bus: BusModel { interrupt_controller: ic.update(word_index, value), ..m },
                ticks: 0,
            }
        } else {
            AccessOutcome { value: ic[word_index], bus: m, ticks: 2 }
        }
    }
}

/// Only the control register has a handler; half-word accesses reach
/// either of its halves.
pub open spec fn dma_access_defined(width: nat, address: u32) -> bool {
    let offset = address & DMA_MASK;
    if width == 1 {
        offset & !0x3u32 == DMA_CONTROL_OFFSET
    } else if width == 2 {
        address & 0x1 == 0 && offset & !0x2u32 == DMA_CONTROL_OFFSET
    } else {
        offset == DMA_CONTROL_OFFSET
    }
}

/// DMA: as the interrupt controller, on the control register.
pub open spec fn dma_access(width: nat, write: bool, address: u32, value: u32, m: BusModel) -> AccessOutcome {
    let offset = address & DMA_MASK;
    let shift = if width == 1 {
        (offset & 0x3) * 8
    } else {
        (offset & 0x2) * 8
    };
    if write {
        let control = if width == 1 || width == 2 {
            value << shift
        } else {
            value
        };
        AccessOutcome {
            value,
            bus: BusModel { dma: DMAView { control, interrupt: m.dma.interrupt }, ..m },
            ticks: 0,
        }
    } else {
        let read = if width == 1 || width == 2 {
            m.dma.control >> shift
        } else {
            m.dma.control
        };
        AccessOutcome { value: read, bus: m, ticks: 2 }
    }
}

/// Whether an access to a physical address is handled (rather than an error).
pub open spec fn physical_access_defined(width: nat, write: bool, address: u32) -> bool {
    match region_of(address) {
        MemoryRegion::Ram => ram_access_defined(width, address),
        MemoryRegion::Bios => bios_access_defined(width, write, address),
        MemoryRegion::MemCtrl => mem_ctrl_access_defined(address),
        MemoryRegion::InterruptController => interrupt_controller_access_defined(width, address),
        MemoryRegion::Dma => dma_access_defined(width, address),
        MemoryRegion::Unmapped => false,
        _ => true,
    }
}

/// An access to a physical address; devices without a model take no time
/// and change nothing.
pub open spec fn physical_access(width: nat, write: bool, address: u32, value: u32, m: BusModel) -> AccessOutcome {
    match region_of(address) {
        MemoryRegion::Ram => ram_access(width, write, address, value, m),
        MemoryRegion::Bios => bios_access(width, write, address, value, m),
        MemoryRegion::MemCtrl => mem_ctrl_access(write, address, value, m),
        MemoryRegion::InterruptController => interrupt_controller_access(
            width,
            write,
            address,
            value,
            m,
        ),
        MemoryRegion::Dma => dma_access(width, write, address, value, m),
        _ => no_effect(value, m),
    }
}

/// The segment of a virtual address: its top three bits.
pub open spec fn segment_of(address: u32) -> u32 {
    address >> 29u32
}

/// Whether a CPU access is handled: KUSEG (first 512 MB), KSEG0 and KSEG1
/// reach physical memory, KSEG2 (cache control) is ignored, and the rest of
/// KUSEG is an error.
pub open spec fn memory_access_defined(width: nat, write: bool, address: u32, cache_is_isolated: bool) -> bool {
    let tag = segment_of(address);
    if tag == 0 || tag == 4 {
        (cache_is_isolated && write) || physical_access_defined(
            width,
            write,
            address & PHYSICAL_MEMORY_ADDRESS_MASK,
        )
    } else if tag == 5 {
        physical_access_defined(width, write, address & PHYSICAL_MEMORY_ADDRESS_MASK)
    } else {
        tag == 6 || tag == 7
    }
}

/// A CPU access. With the cache isolated, no write reaches memory through the
/// cached segments; the uncached segment KSEG1 is reached regardless.
pub open spec fn memory_access(width: nat, write: bool, address: u32, value: u32, cache_is_isolated: bool, m: BusModel) -> AccessOutcome {
    let tag = segment_of(address);
    if (tag == 0 || tag == 4) && !(cache_is_isolated && write) || tag == 5 {
        physical_access(width, write, address & PHYSICAL_MEMORY_ADDRESS_MASK, value, m)
    } else {
        no_effect(value, m)
    }
}

/// Whether an instruction can be fetched from an address: from RAM or the
/// BIOS ROM through KUSEG, KSEG0 or KSEG1.
pub open spec fn instruction_fetch_defined(address: u32) -> bool {
    let tag = segment_of(address);
    let phys = address & PHYSICAL_MEMORY_ADDRESS_MASK;
    &&& tag == 0 || tag == 4 || tag == 5
    &&& (phys < RAM_MIRROR_END && ram_access_defined(4, phys)) || (phys >= BIOS_BASE && phys
        < BIOS_BASE + BIOS_SIZE && bios_access_defined(4, false, phys))
}

/// The instruction word at an address.
pub open spec fn instruction_fetch(m: BusModel, address: u32) -> u32 {
    let phys = address & PHYSICAL_MEMORY_ADDRESS_MASK;
    if phys < RAM_MIRROR_END {
        ram_access(4, false, phys, 0, m).value
    } else {
        bios_access(4, false, phys, 0, m).value
    }
}

/// Offsets within a device's register block.
proof fn lemma_register_offsets(x: u32)
    by (bit_vector)
    ensures
        x & 0x3 <= 3,
        x & 0x2 <= 2,
        (x & 0xF) & !0x3u32 < 16,
        ((x & 0xF) & !0x3u32) % 4 == 0,
        x & 0x1 == 0 ==> ((x & 0xF) & !0x2u32 < 16 && ((x & 0xF) & !0x2u32) % 4 == 0),
        (x & 0x2) * 8 <= 16,
        ((x & 0xF) & 0x2) * 8 <= 16,
        x & 0x3 == 0 ==> (x & 0xF) % 4 == 0,
        x & 0xF < 16,
        x & 0x1FFFFF <= 0x1FFFFF,
        x & 0x7FFFF <= 0x7FFFF,
{
}

/// The bus: main RAM, the BIOS ROM, and the devices mapped into the address space.
pub struct Bus {
    pub bios: Vec<u8>,
    pub ram: Vec<u8>,
    mem_ctrl_registers: MemCtrlRegisters,
    bios_access_time: AccessTimes,
    cdrom_access_time: AccessTimes,
    icache_tags: [u32; I_CACHE_LINES],
    icache_data: [u8; I_CACHE_SIZE],
    dcache: [u8; D_CACHE_SIZE],
    interrupt_controller: InterruptController,
    dma: DMA,
}

impl View for Bus {
    type V = BusModel;

    closed spec fn view(&self) -> BusModel {
        BusModel {
            bios: self.bios@,
            ram: self.ram@,
            mem_ctrl: self.mem_ctrl_registers.regs@,
            bios_access_time: (
                self.bios_access_time.byte,
                self.bios_access_time.halfword,
                self.bios_access_time.word,
            ),
            cdrom_access_time: (
                self.cdrom_access_time.byte,
                self.cdrom_access_time.halfword,
                self.cdrom_access_time.word,
            ),
            interrupt_controller: self.interrupt_controller@,
            dma: self.dma@,
            icache_tags: self.icache_tags@,
            icache_data: self.icache_data@,
            dcache: self.dcache@,
        }
    }
}

/// Marks for the six kinds of CPU access.
pub struct ReadByte;

pub struct ReadHalfWord;

pub struct ReadWord;

pub struct WriteByte;

pub struct WriteHalfWord;

pub struct WriteWord;

/// One kind of CPU access (a width and a direction) and how each device
/// handles it.
pub trait MemoryAccess {
    /// Bytes moved: 1, 2 or 4.
    spec fn width() -> nat;

    /// Whether the access writes.
    spec fn writes() -> bool;

    fn do_dma_access(address: u32, value: &mut u32, bus: &mut Bus) -> (ticks: TickCount)
        requires
            old(bus).wf(),
            dma_access_defined(Self::width(), address),
        ensures
            final(bus).wf(),
            dma_access(Self::width(), Self::writes(), address, *old(value), old(bus)@) == (
            AccessOutcome { value: *final(value), bus: final(bus)@, ticks }),
    ;

    fn do_interrupt_controller_access(address: u32, value: &mut u32, bus: &mut Bus) -> (ticks: TickCount)
        requires
            old(bus).wf(),
            interrupt_controller_access_defined(Self::width(), address),
        ensures
            final(bus).wf(),
            interrupt_controller_access(Self::width(), Self::writes(), address, *old(value), old(bus)@)
                == (AccessOutcome { value: *final(value), bus: final(bus)@, ticks }),
    ;

    fn do_ram_access(address: u32, value: &mut u32, bus: &mut Bus) -> (ticks: TickCount)
        requires
            old(bus).wf(),
            ram_access_defined(Self::width(), address),
        ensures
            final(bus).wf(),
            ram_access(Self::width(), Self::writes(), address, *old(value), old(bus)@) == (
            AccessOutcome { value: *final(value), bus: final(bus)@, ticks }),
    ;

    fn do_memory_control_access(address: u32, value: &mut u32, bus: &mut Bus) -> (ticks: TickCount)
        requires
            old(bus).wf(),
            mem_ctrl_access_defined(address),
        ensures
            final(bus).wf(),
            mem_ctrl_access(Self::writes(), address, *old(value), old(bus)@) == (AccessOutcome {
                value: *final(value),
                bus: final(bus)@,
                ticks,
            }),
    ;

    fn do_bios_access(address: u32, value: &mut u32, bus: &mut Bus) -> (ticks: TickCount)
        requires
            old(bus).wf(),
            bios_access_defined(Self::width(), Self::writes(), address),
        ensures
            final(bus).wf(),
            bios_access(Self::width(), Self::writes(), address, *old(value), old(bus)@) == (
            AccessOutcome { value: *final(value), bus: final(bus)@, ticks }),
    ;

    fn is_write() -> (r: bool)
        ensures
            r == Self::writes(),
    ;
}


impl Bus {
    /// RAM and BIOS ROM have their sizes.
    pub open spec fn wf(&self) -> bool {
        bus_model_wf(self@)
    }
}

impl MemoryAccess for ReadByte {
    open spec fn width() -> nat {
        1
    }

    open spec fn writes() -> bool {
        false
    }

    fn do_dma_access(address: u32, value: &mut u32, bus: &mut Bus) -> (ticks: TickCount) {
        proof {
            lemma_register_offsets(address & DMA_MASK);
        }
        let offset = address & DMA_MASK;
        // The word that holds the byte, shifted down to it.
        let word_offset = offset & !0x3;
        let word = bus.dma.read_register(word_offset);
        *value = word >> ((offset & 0x3) * 8);
        2
    }

    fn do_interrupt_controller_access(address: u32, value: &mut u32, bus: &mut Bus) -> (ticks: TickCount) {
        proof {
            lemma_register_offsets(address);
            lemma_register_offsets(address & INTERRUPT_CONTROLLER_MASK);
        }
        let offset = address & INTERRUPT_CONTROLLER_MASK;
        let word_offset = offset & !0x3;
        let word = bus.interrupt_controller.read_register(word_offset);
        *value = word >> ((offset & 0x3) * 8);
        2
    }

    fn do_ram_access(address: u32, value: &mut u32, bus: &mut Bus) -> (ticks: TickCount) {
        let offset = address & RAM_2MB_MASK;
        *value = bus.ram[offset as usize] as u32;
        RAM_READ_TICKS
    }

    fn do_memory_control_access(address: u32, value: &mut u32, bus: &mut Bus) -> (ticks: TickCount) {
        let offset = address & MEMCTRL_MASK;
        // Each register is 4 bytes.
        let index = offset >> 2;
        *value = bus.mem_ctrl_registers.regs[index as usize];
        2
    }

    fn do_bios_access(address: u32, value: &mut u32, bus: &mut Bus) -> (ticks: TickCount) {
        let offset = ((address - BIOS_BASE) & BIOS_MASK) as usize;
        *value = bus.bios[offset] as u32;
        bus.bios_access_time.byte
    }

    fn is_write() -> (r: bool) {
        false
    }
}

impl MemoryAccess for ReadHalfWord {
    open spec fn width() -> nat {
        2
    }

    open spec fn writes() -> bool {
        false
    }

    fn do_dma_access(address: u32, value: &mut u32, bus: &mut Bus) -> (ticks: TickCount) {
        proof {
            lemma_register_offsets(address & DMA_MASK);
        }
        let offset = address & DMA_MASK;
        // The word that holds the half-word, shifted down to it.
        let word_offset = offset & !0x2;
        let word = bus.dma.read_register(word_offset);
        *value = word >> ((offset & 0x2) * 8);
        2
    }

    fn do_interrupt_controller_access(address: u32, value: &mut u32, bus: &mut Bus) -> (ticks: TickCount) {
        proof {
            lemma_register_offsets(address);
        }
        let offset = address & INTERRUPT_CONTROLLER_MASK;
        let word_offset = offset & !0x2;
        let word = bus.interrupt_controller.read_register(word_offset);
        *value = word >> ((offset & 0x2) * 8);
        2
    }

    fn do_ram_access(address: u32, value: &mut u32, bus: &mut Bus) -> (ticks: TickCount) {
        let offset = address & RAM_2MB_MASK;
        // Little endian.
        *value = ((bus.ram[(offset + 1) as usize] as u32) << 8) | (bus.ram[offset as usize] as u32);
        RAM_READ_TICKS
    }

    fn do_memory_control_access(address: u32, value: &mut u32, bus: &mut Bus) -> (ticks: TickCount) {
        let offset = address & MEMCTRL_MASK;
        let index = offset >> 2;
        *value = bus.mem_ctrl_registers.regs[index as usize];
        2
    }

    fn do_bios_access(address: u32, value: &mut u32, bus: &mut Bus) -> (ticks: TickCount) {
        let offset = ((address - BIOS_BASE) & BIOS_MASK) as usize;
        *value = ((bus.bios[offset + 1] as u32) << 8) | (bus.bios[offset] as u32);
        bus.bios_access_time.halfword
    }

    fn is_write() -> (r: bool) {
        false
    }
}

impl MemoryAccess for ReadWord {
    open spec fn width() -> nat {
        4
    }

    open spec fn writes() -> bool {
        false
    }

    fn do_dma_access(address: u32, value: &mut u32, bus: &mut Bus) -> (ticks: TickCount) {
        let offset = address & DMA_MASK;
        *value = bus.dma.read_register(offset);
        2
    }

    fn do_interrupt_controller_access(address: u32, value: &mut u32, bus: &mut Bus) -> (ticks: TickCount) {
        proof {
            lemma_register_offsets(address);
        }
        let offset = address & INTERRUPT_CONTROLLER_MASK;
        *value = bus.interrupt_controller.read_register(offset);
        2
    }

    fn do_ram_access(address: u32, value: &mut u32, bus: &mut Bus) -> (ticks: TickCount) {
        let offset = address & RAM_2MB_MASK;
        // Little endian.
        *value = ((bus.ram[(offset + 3) as usize] as u32) << 24) | ((bus.ram[(offset + 2) as usize]
            as u32) << 16) | ((bus.ram[(offset + 1) as usize] as u32) << 8) | (bus.ram[offset as usize]
            as u32);
        RAM_READ_TICKS
    }

    fn do_memory_control_access(address: u32, value: &mut u32, bus: &mut Bus) -> (ticks: TickCount) {
        let offset = address & MEMCTRL_MASK;
        let index = offset >> 2;
        *value = bus.mem_ctrl_registers.regs[index as usize];
        2
    }

    fn do_bios_access(address: u32, value: &mut u32, bus: &mut Bus) -> (ticks: TickCount) {
        let offset = ((address - BIOS_BASE) & BIOS_MASK) as usize;
        *value = ((bus.bios[offset + 3] as u32) << 24) | ((bus.bios[offset + 2] as u32) << 16) | ((
        bus.bios[offset + 1] as u32) << 8) | (bus.bios[offset] as u32);
        bus.bios_access_time.word
    }

    fn is_write() -> (r: bool) {
        false
    }
}

impl MemoryAccess for WriteByte {
    open spec fn width() -> nat {
        1
    }

    open spec fn writes() -> bool {
        true
    }

    fn do_dma_access(address: u32, value: &mut u32, bus: &mut Bus) -> (ticks: TickCount) {
        proof {
            lemma_register_offsets(address & DMA_MASK);
        }
        let offset = address & DMA_MASK;
        // The byte is shifted up to its place and written as the whole word.
        let word_offset = offset & !0x3;
        let word = *value << ((offset & 0x3) * 8);
        bus.dma.write_register(word_offset, word);
        0
    }

    fn do_interrupt_controller_access(address: u32, value: &mut u32, bus: &mut Bus) -> (ticks: TickCount) {
        proof {
            lemma_register_offsets(address);
            lemma_register_offsets(address & INTERRUPT_CONTROLLER_MASK);
        }
        let offset = address & INTERRUPT_CONTROLLER_MASK;
        let word_offset = offset & !0x3;
        let word = *value << ((offset & 0x3) * 8);
        // The whole word is written.
        bus.interrupt_controller.write_register(word_offset, word);
        0
    }

    fn do_ram_access(address: u32, value: &mut u32, bus: &mut Bus) -> (ticks: TickCount) {
        let address = address & RAM_2MB_MASK;
        // Little endian.
        bus.ram[address as usize] = (*value & 0xFF) as u8;

        0
    }

    fn do_memory_control_access(address: u32, value: &mut u32, bus: &mut Bus) -> (ticks: TickCount) {
        bus.write_memory_control(address, *value);
        0
    }

    fn do_bios_access(address: u32, value: &mut u32, bus: &mut Bus) -> (ticks: TickCount) {
        // The ROM cannot be written.
        0
    }

    fn is_write() -> (r: bool) {
        true
    }
}

impl MemoryAccess for WriteHalfWord {
    open spec fn width() -> nat {
        2
    }

    open spec fn writes() -> bool {
        true
    }

    fn do_dma_access(address: u32, value: &mut u32, bus: &mut Bus) -> (ticks: TickCount) {
        proof {
            lemma_register_offsets(address & DMA_MASK);
        }
        let offset = address & DMA_MASK;
        let word_offset = offset & !0x2;
        let word = *value << ((offset & 0x2) * 8);
        bus.dma.write_register(word_offset, word);
        0
    }

    fn do_interrupt_controller_access(address: u32, value: &mut u32, bus: &mut Bus) -> (ticks: TickCount) {
        proof {
            lemma_register_offsets(address);
        }
        let offset = address & INTERRUPT_CONTROLLER_MASK;
        let word_offset = offset & !0x2;
        let word = *value << ((offset & 0x2) * 8);
        bus.interrupt_controller.write_register(word_offset, word);
        0
    }

    fn do_ram_access(address: u32, value: &mut u32, bus: &mut Bus) -> (ticks: TickCount) {
        let address = address & RAM_2MB_MASK;
        // Little endian.
        bus.ram[address as usize] = (*value & 0xFF) as u8;
        bus.ram[(address + 1) as usize] = ((*value >> 8) & 0xFF) as u8;

        0
    }

    fn do_memory_control_access(address: u32, value: &mut u32, bus: &mut Bus) -> (ticks: TickCount) {
        bus.write_memory_control(address, *value);
        0
    }

    fn do_bios_access(address: u32, value: &mut u32, bus: &mut Bus) -> (ticks: TickCount) {
        // The ROM cannot be written.
        0
    }

    fn is_write() -> (r: bool) {
        true
    }
}

impl MemoryAccess for WriteWord {
    open spec fn width() -> nat {
        4
    }

    open spec fn writes() -> bool {
        true
    }

    fn do_dma_access(address: u32, value: &mut u32, bus: &mut Bus) -> (ticks: TickCount) {
        let offset = address & DMA_MASK;
        bus.dma.write_register(offset, *value);
        0
    }

    fn do_interrupt_controller_access(address: u32, value: &mut u32, bus: &mut Bus) -> (ticks: TickCount) {
        proof {
            lemma_register_offsets(address);
        }
        let offset = address & INTERRUPT_CONTROLLER_MASK;
        bus.interrupt_controller.write_register(offset, *value);
        0
    }

    fn do_ram_access(address: u32, value: &mut u32, bus: &mut Bus) -> (ticks: TickCount) {
        let address = address & RAM_2MB_MASK;
        // Little endian.
        bus.ram[address as usize] = (*value & 0xFF) as u8;
        bus.ram[(address + 1) as usize] = ((*value >> 8) & 0xFF) as u8;
        bus.ram[(address + 2) as usize] = ((*value >> 16) & 0xFF) as u8;
        bus.ram[(address + 3) as usize] = ((*value >> 24) & 0xFF) as u8;

        0
    }

    fn do_memory_control_access(address: u32, value: &mut u32, bus: &mut Bus) -> (ticks: TickCount) {
        bus.write_memory_control(address, *value);
        0
    }

    fn do_bios_access(address: u32, value: &mut u32, bus: &mut Bus) -> (ticks: TickCount) {
        // The ROM cannot be written.
        0
    }

    fn is_write() -> (r: bool) {
        true
    }
}

impl Bus {
    /// A write to a memory control register: the bits of its write mask take
    /// the new value, and the access times are recomputed if it changed.
    fn write_memory_control(&mut self, address: u32, value: u32)
        requires
            old(self).wf(),
            mem_ctrl_access_defined(address),
        ensures
            final(self).wf(),
            final(self)@ == mem_ctrl_access(true, address, value, old(self)@).bus,
    {
        let address = address & MEMCTRL_MASK;
        let index = address >> 2;
        let write_mask = if index == 8 {
            COM_DELAY_WRITE_MASK
        } else {
            MEM_DELAY_WRITE_MASK
        };
        let new_value = (self.mem_ctrl_registers.regs[index as usize] & !write_mask) | (value
            & write_mask);
        if self.mem_ctrl_registers.regs[index as usize] != new_value {
            self.mem_ctrl_registers.regs[index as usize] = new_value;
            self.recalculate_memory_timings();
        }
    }

    fn recalculate_memory_timings(&mut self)
        requires
            old(self).wf(),
        ensures
            final(self).wf(),
            final(self)@ == with_timings(old(self)@),
    {
        let (byte, halfword, word) = self.calculate_memory_timing(
            self.mem_ctrl_registers.get_bios_delay_size(),
            self.mem_ctrl_registers.get_common_delay(),
        );
        self.bios_access_time = AccessTimes { byte, halfword, word };
        let (byte, halfword, word) = self.calculate_memory_timing(
            self.mem_ctrl_registers.get_cdrom_delay_size(),
            self.mem_ctrl_registers.get_common_delay(),
        );
        self.cdrom_access_time = AccessTimes { byte, halfword, word };
        // SPU timings are not modelled.
        proof {
            assert(self@ =~= with_timings(old(self)@));
        }
    }

    fn calculate_memory_timing(&self, mem_delay: MemDelayReg, common_delay: ComDelayReg) -> (r: (
        TickCount,
        TickCount,
        TickCount,
    ))
        ensures
            r == memory_timing(mem_delay, common_delay),
    {
        let mut first: TickCount = 0;
        let mut seq: TickCount = 0;
        let mut min: TickCount = 0;
        if mem_delay.uses_com0_time() {
            first = first + (common_delay.get_com0_time() as TickCount) - 1;
            seq = seq + (common_delay.get_com0_time() as TickCount) - 1;
        }
        if mem_delay.uses_com2_time() {
            first = first + common_delay.get_com2_time() as TickCount;
            seq = seq + common_delay.get_com2_time() as TickCount;
        }
        if mem_delay.uses_com3_time() {
            min = common_delay.get_com3_time() as TickCount;
        }
        if first < 6 {
            first = first + 1;
        }
        first = first + (mem_delay.get_access_time() as TickCount) + 2;
        seq = seq + (mem_delay.get_access_time() as TickCount) + 2;

        if first < (min + 6) {
            first = min + 6;
        }
        if seq < (min + 2) {
            seq = min + 2;
        }

        let byte_access_time: TickCount = first;
        let halfword_access_time: TickCount = if mem_delay.is_data_bus_16bit() {
            first
        } else {
            first + seq
        };
        let word_access_time: TickCount = if mem_delay.is_data_bus_16bit() {
            first + seq
        } else {
            first + 3 * seq
        };
        (
            if byte_access_time - 1 > 0 { byte_access_time - 1 } else { 0 },
            if halfword_access_time - 1 > 0 { halfword_access_time - 1 } else { 0 },
            if word_access_time - 1 > 0 { word_access_time - 1 } else { 0 },
        )
    }
}


impl Bus {
    /// RAM and BIOS ROM cleared, memory control registers at their reset
    /// values, access times zero until `initialize`.
    pub fn new() -> (r: Self)
        ensures
            r.wf(),
            r@.bios == Seq::new(BIOS_SIZE as nat, |i: int| 0u8),
            r@.ram == Seq::new(RAM_2MB_SIZE as nat, |i: int| 0u8),
            r@.mem_ctrl == MemCtrlRegisters::new_spec(),
            r@.bios_access_time == (0i32, 0i32, 0i32),
            r@.cdrom_access_time == (0i32, 0i32, 0i32),
            r@.interrupt_controller == Seq::new(4, |i: int| 0u32),
            r@.dma == (DMAView { control: 0x07654321, interrupt: 0 }),
            r@.icache_tags == Seq::new(I_CACHE_LINES as nat, |i: int| 0u32),
            r@.icache_data == Seq::new(I_CACHE_SIZE as nat, |i: int| 0u8),
            r@.dcache == Seq::new(D_CACHE_SIZE as nat, |i: int| 0u8),
    {
        let bios = zeroed_bytes(BIOS_SIZE as usize);
        let ram = zeroed_bytes(RAM_2MB_SIZE as usize);
        Self {
            bios,
            ram,
            mem_ctrl_registers: MemCtrlRegisters::new(),
            bios_access_time: AccessTimes { byte: 0, halfword: 0, word: 0 },
            cdrom_access_time: AccessTimes { byte: 0, halfword: 0, word: 0 },
            icache_tags: [0;I_CACHE_LINES],
            icache_data: [0;I_CACHE_SIZE],
            dcache: [0;D_CACHE_SIZE],
            interrupt_controller: InterruptController::new(),
            dma: DMA::new(),
        }
    }

    /// Computes the access times from the memory control registers.
    pub fn initialize(&mut self)
        requires
            old(self).wf(),
        ensures
            final(self).wf(),
            final(self)@ == with_timings(old(self)@),
            timings_consistent(final(self)@),
    {
        self.recalculate_memory_timings();
    }

    /// The instruction word at a virtual address (KUSEG, KSEG0 or KSEG1; RAM or BIOS).
    pub fn fetch_instruction(&mut self, address: u32) -> (r: u32)
        requires
            old(self).wf(),
            instruction_fetch_defined(address),
        ensures
            final(self)@ == old(self)@,
            r == instruction_fetch(old(self)@, address),
    {
        // The instruction cache is not modelled: memory is read directly.
        self.do_instruction_read(address)
    }

    fn do_instruction_read(&mut self, address: u32) -> (r: u32)
        requires
            old(self).wf(),
            instruction_fetch_defined(address),
        ensures
            final(self)@ == old(self)@,
            r == instruction_fetch(old(self)@, address),
    {
        let address = address & PHYSICAL_MEMORY_ADDRESS_MASK;
        let mut value: u32 = 0;
        if address < RAM_MIRROR_END {
            ReadWord::do_ram_access(address, &mut value, self);
        } else {
            ReadWord::do_bios_access(address, &mut value, self);
        }
        value
    }

    /// Whether an instruction can be fetched from an address.
    pub fn is_instruction_fetchable(address: u32) -> (r: bool)
        ensures
            r == instruction_fetch_defined(address),
    {
        let tag = address >> 29;
        let phys = address & PHYSICAL_MEMORY_ADDRESS_MASK;
        proof {
            lemma_register_offsets(phys);
            lemma_register_offsets((phys - BIOS_BASE) as u32);
        }
        (tag == 0 || tag == 4 || tag == 5) && ((phys < RAM_MIRROR_END && (phys & RAM_2MB_MASK) + 4
            <= RAM_2MB_SIZE) || (phys >= BIOS_BASE && phys < BIOS_BASE + BIOS_SIZE && ((phys
            - BIOS_BASE) & BIOS_MASK) + 4 <= BIOS_SIZE))
    }

    /// A CPU access of kind `T` to a virtual address: reads leave the value
    /// read in `value`, writes take it from there.
    pub fn access_memory<T: MemoryAccess>(
        &mut self,
        address: u32,
        value: &mut u32,
        cache_is_isolated: bool,
    ) -> (ticks: TickCount)
        requires
            old(self).wf(),
            memory_access_defined(T::width(), T::writes(), address, cache_is_isolated),
        ensures
            final(self).wf(),
            memory_access(T::width(), T::writes(), address, *old(value), cache_is_isolated, old(self)@)
                == (AccessOutcome { value: *final(value), bus: final(self)@, ticks }),
    {
        let tag = address >> 29;
        if tag == 0 || tag == 4 {
            // KUSEG and KSEG0 (cached).
            if cache_is_isolated && T::is_write() {
                // With the cache isolated, no writes to memory occur.
                return 0;
            }
            self.do_memory_access::<T>(address, value)
        } else if tag == 5 {
            // KSEG1 (uncached).
            self.do_memory_access::<T>(address, value)
        } else {
            // KSEG2: cache control, not modelled.
            0
        }
    }

    fn do_memory_access<T: MemoryAccess>(&mut self, address: u32, value: &mut u32) -> (ticks: TickCount)
        requires
            old(self).wf(),
            physical_access_defined(T::width(), T::writes(), address & PHYSICAL_MEMORY_ADDRESS_MASK),
        ensures
            final(self).wf(),
            physical_access(
                T::width(),
                T::writes(),
                address & PHYSICAL_MEMORY_ADDRESS_MASK,
                *old(value),
                old(self)@,
            ) == (AccessOutcome { value: *final(value), bus: final(self)@, ticks }),
    {
        let address = address & PHYSICAL_MEMORY_ADDRESS_MASK;
        if address < RAM_MIRROR_END {
            T::do_ram_access(address, value, self)
        } else if address >= BIOS_BASE && address < (BIOS_BASE + BIOS_SIZE) {
            T::do_bios_access(address, value, self)
        } else if address < EXP1_BASE + EXP1_SIZE {
            // Expansion region 1: nothing attached.
            0
        } else if address < MEMCTRL_BASE + MEMCTRL_SIZE {
            T::do_memory_control_access(address, value, self)
        } else if address < MEMCTRL2_BASE + MEMCTRL2_SIZE {
            0
        } else if address < INTERRUPT_CONTROLLER_BASE + INTERRUPT_CONTROLLER_SIZE {
            T::do_interrupt_controller_access(address, value, self)
        } else if address < DMA_BASE + DMA_SIZE {
            T::do_dma_access(address, value, self)
        } else if address < TIMERS_BASE + TIMERS_SIZE {
            0
        } else if address < GPU_BASE + GPU_SIZE {
            0
        } else if address < SPU_BASE + SPU_SIZE {
            0
        } else {
            // Expansion region 2.
            0
        }
    }

    /// Whether a CPU access of the given width and direction to a virtual
    /// address is handled (rather than an error).
    pub fn is_access_defined(width: u32, write: bool, address: u32, cache_is_isolated: bool) -> (r: bool)
        requires
            width == 1 || width == 2 || width == 4,
        ensures
            r == memory_access_defined(width as nat, write, address, cache_is_isolated),
    {
        let tag = address >> 29;
        if (tag == 0 || tag == 4) && cache_is_isolated && write {
            return true;
        }
        if tag == 6 || tag == 7 {
            return true;
        }
        if tag != 0 && tag != 4 && tag != 5 {
            return false;
        }
        let address = address & PHYSICAL_MEMORY_ADDRESS_MASK;
        proof {
            lemma_register_offsets(address);
            lemma_register_offsets((address - BIOS_BASE) as u32);
        }
        if address < RAM_MIRROR_END {
            (address & RAM_2MB_MASK) + width <= RAM_2MB_SIZE
        } else if address >= BIOS_BASE && address < BIOS_BASE + BIOS_SIZE {
            write || ((address - BIOS_BASE) & BIOS_MASK) + width <= BIOS_SIZE
        } else if address < EXP1_BASE {
            false
        } else if address < EXP1_BASE + EXP1_SIZE {
            true
        } else if address < MEMCTRL_BASE {
            false
        } else if address < MEMCTRL_BASE + MEMCTRL_SIZE {
            ((address & MEMCTRL_MASK) >> 2) < 9
        } else if address < SIO_BASE + SIO_SIZE {
            false
        } else if address < MEMCTRL2_BASE + MEMCTRL2_SIZE {
            true
        } else if address < INTERRUPT_CONTROLLER_BASE + INTERRUPT_CONTROLLER_SIZE {
            if width == 1 {
                true
            } else if width == 2 {
                address & 0x1 == 0
            } else {
                address & 0x3 == 0
            }
        } else if address < DMA_BASE + DMA_SIZE {
            let offset = address & DMA_MASK;
            if width == 1 {
                offset & !0x3 == DMA_CONTROL_OFFSET
            } else if width == 2 {
                address & 0x1 == 0 && offset & !0x2 == DMA_CONTROL_OFFSET
            } else {
                offset == DMA_CONTROL_OFFSET
            }
        } else if address < TIMERS_BASE + TIMERS_SIZE {
            true
        } else if address < CDROM_BASE + CDROM_SIZE {
            false
        } else if address < GPU_BASE + GPU_SIZE {
            true
        } else if address < SPU_BASE {
            false
        } else if address < SPU_BASE + SPU_SIZE {
            true
        } else if address < EXP2_BASE {
            false
        } else {
            address < EXP2_BASE + EXP2_SIZE
        }
    }

    /// Puts a BIOS ROM image in place.
    pub fn load_bios(&mut self, bios: Vec<u8>)
        requires
            old(self).wf(),
            bios@.len() == BIOS_SIZE,
        ensures
            final(self).wf(),
            final(self)@ == (BusModel { bios: bios@, ..old(self)@ }),
    {
        self.bios = bios;
    }

    /// The SHA-256 digest of RAM, in lowercase hexadecimal.
    pub fn get_ram_hash(&self) -> (r: String)
        ensures
            r@ == ascii_chars(hex_bytes(sha256_of(self@.ram))),
    {
        let digest = sha256(self.ram.as_slice());
        let hex = to_hex(digest.as_slice());
        string_from_utf8_lossy(hex.as_slice())
    }

    /// The nine memory control registers.
    pub fn memory_control_registers(&self) -> (r: [u32; 9])
        ensures
            r@ == self@.mem_ctrl,
    {
        self.mem_ctrl_registers.regs
    }

    /// The BIOS ROM and CDROM access times (byte, half-word, word).
    pub fn access_times(&self) -> (r: ((TickCount, TickCount, TickCount), (TickCount, TickCount, TickCount)))
        ensures
            r.0 == self@.bios_access_time,
            r.1 == self@.cdrom_access_time,
    {
        (
            (self.bios_access_time.byte, self.bios_access_time.halfword, self.bios_access_time.word),
            (self.cdrom_access_time.byte, self.cdrom_access_time.halfword, self.cdrom_access_time.word),
        )
    }

    /// The interrupt controller's four words.
    pub fn interrupt_controller_registers(&self) -> (r: [u32; 4])
        ensures
            r@ == self@.interrupt_controller,
    {
        self.interrupt_controller.registers()
    }
}

/// `n` zero bytes.
fn zeroed_bytes(n: usize) -> (r: Vec<u8>)
    ensures
        r@ == Seq::new(n as nat, |i: int| 0u8),
{
    let mut v: Vec<u8> = Vec::with_capacity(n);
    let mut i: usize = 0;
    while i < n
        invariant
            i <= n,
            v@ == Seq::new(i as nat, |k: int| 0u8),
        decreases n - i,
    {
        v.push(0);
        i = i + 1;
        proof {
            assert(v@ =~= Seq::new(i as nat, |k: int| 0u8));
        }
    }
    v
}


/// Splitting a word into little-endian bytes and putting them back together
/// gives the word, cut to the bytes kept.
proof fn lemma_le_bytes_round_trip(v: u32)
    ensures
        (((v & 0xFF) as u8) as u32) == v & 0xFF,
        ((((v >> 8u32) & 0xFF) as u8 as u32) << 8u32) | (((v & 0xFF) as u8) as u32) == v & 0xFFFF,
        ((((v >> 24u32) & 0xFF) as u8 as u32) << 24u32) | ((((v >> 16u32) & 0xFF) as u8 as u32)
            << 16u32) | ((((v >> 8u32) & 0xFF) as u8 as u32) << 8u32) | (((v & 0xFF) as u8) as u32)
            == v,
{
    assert((((v & 0xFF) as u8) as u32) == v & 0xFF && ((((v >> 8u32) & 0xFF) as u8 as u32) << 8u32)
        | (((v & 0xFF) as u8) as u32) == v & 0xFFFF && ((((v >> 24u32) & 0xFF) as u8 as u32)
        << 24u32) | ((((v >> 16u32) & 0xFF) as u8 as u32) << 16u32) | ((((v >> 8u32) & 0xFF) as u8
        as u32) << 8u32) | (((v & 0xFF) as u8) as u32) == v) by (bit_vector);
}

/// Storing a value little-endian and loading the same bytes back gives the
/// value cut to the width; bytes outside the stored ones keep their values.
pub proof fn lemma_store_then_load(mem: Seq<u8>, offset: int, width: nat, value: u32)
    requires
        width == 1 || width == 2 || width == 4,
        0 <= offset,
        offset + width <= mem.len(),
    ensures
        load_le(store_le(mem, offset, width, value), offset, width) == truncate_to_width(value, width),
        forall|other: int|
            0 <= other < mem.len() && (other < offset || offset + width <= other) ==> #[trigger] store_le(
                mem,
                offset,
                width,
                value,
            )[other] == mem[other],
        store_le(mem, offset, width, value).len() == mem.len(),
{
    lemma_le_bytes_round_trip(value);
}

/// A read through the bus gives back what a write of the same width to the
/// same RAM address put there (cut to the width), whichever mirror or
/// segment the read goes through.
pub proof fn lemma_ram_read_after_write(
    width: nat,
    write_address: u32,
    read_address: u32,
    value: u32,
    read_value: u32,
    cache_is_isolated: bool,
    m: BusModel,
)
    requires
        bus_model_wf(m),
        width == 1 || width == 2 || width == 4,
        memory_access_defined(width, true, write_address, cache_is_isolated),
        segment_of(write_address) == 5 || (segment_of(write_address) == 0 && !cache_is_isolated)
            || (segment_of(write_address) == 4 && !cache_is_isolated),
        segment_of(read_address) == 0 || segment_of(read_address) == 4 || segment_of(read_address)
            == 5,
        write_address & PHYSICAL_MEMORY_ADDRESS_MASK < RAM_MIRROR_END,
        read_address & PHYSICAL_MEMORY_ADDRESS_MASK < RAM_MIRROR_END,
        (write_address & PHYSICAL_MEMORY_ADDRESS_MASK) & RAM_2MB_MASK == (read_address
            & PHYSICAL_MEMORY_ADDRESS_MASK) & RAM_2MB_MASK,
    ensures
        memory_access(
            width,
            false,
            read_address,
            read_value,
            cache_is_isolated,
            memory_access(width, true, write_address, value, cache_is_isolated, m).bus,
        ).value == truncate_to_width(value, width),
{
    let off = ((write_address & PHYSICAL_MEMORY_ADDRESS_MASK) & RAM_2MB_MASK) as int;
    lemma_store_then_load(m.ram, off, width, value);
}

/// A read changes nothing on the bus.
pub proof fn lemma_read_changes_nothing(width: nat, address: u32, value: u32, cache_is_isolated: bool, m: BusModel)
    ensures
        memory_access(width, false, address, value, cache_is_isolated, m).bus == m,
{
}

/// An access that does not reach RAM leaves RAM and the BIOS ROM as they were.
pub proof fn lemma_ram_untouched_elsewhere(width: nat, write: bool, address: u32, value: u32, cache_is_isolated: bool, m: BusModel)
    requires
        region_of(address & PHYSICAL_MEMORY_ADDRESS_MASK) != MemoryRegion::Ram,
    ensures
        memory_access(width, write, address, value, cache_is_isolated, m).bus.ram == m.ram,
        memory_access(width, write, address, value, cache_is_isolated, m).bus.bios == m.bios,
{
}

/// With the cache isolated, writes through KUSEG and KSEG0 change nothing.
pub proof fn lemma_isolated_cache_blocks_writes(width: nat, address: u32, value: u32, m: BusModel)
    requires
        segment_of(address) == 0 || segment_of(address) == 4,
    ensures
        memory_access(width, true, address, value, true, m).bus == m,
        memory_access(width, true, address, value, true, m).ticks == 0,
{
}

/// Once the access times agree with the memory control registers, every
/// access keeps them in agreement, and keeps the memory areas' sizes.
pub proof fn lemma_access_keeps_timings(width: nat, write: bool, address: u32, value: u32, cache_is_isolated: bool, m: BusModel)
    requires
        bus_model_wf(m),
        timings_consistent(m),
        width == 1 || width == 2 || width == 4,
        memory_access_defined(width, write, address, cache_is_isolated),
    ensures
        timings_consistent(memory_access(width, write, address, value, cache_is_isolated, m).bus),
        bus_model_wf(memory_access(width, write, address, value, cache_is_isolated, m).bus),
{
    let r = memory_access(width, write, address, value, cache_is_isolated, m).bus;
    let phys = address & PHYSICAL_MEMORY_ADDRESS_MASK;
    lemma_register_offsets(phys);
    if region_of(phys) == MemoryRegion::Ram && write && ram_access_defined(width, phys) {
        lemma_store_then_load(m.ram, (phys & RAM_2MB_MASK) as int, width, value);
    }
    if region_of(phys) == MemoryRegion::MemCtrl && write {
        assert(with_timings(with_timings(r)) =~= with_timings(r));
    }
    assert(with_timings(r) =~= r);
}

} // verus!
verus! {

/// Memory is little-endian: the byte at the lowest address is the least
/// significant.
pub proof fn lemma_little_endian(mem: Seq<u8>, offset: int)
    requires
        0 <= offset,
        offset + 1 <= mem.len(),
    ensures
        load_le(mem, offset, 1) == mem[offset],
        offset + 2 <= mem.len() ==> load_le(mem, offset, 2) == mem[offset] + 256 * mem[offset + 1],
        offset + 4 <= mem.len() ==> load_le(mem, offset, 4) == mem[offset] + 256 * mem[offset + 1] + 65536 * mem[offset + 2]
            + 16777216 * mem[offset + 3],
{
    let b0 = mem[offset];
    let b1 = mem[offset + 1];
    let b2 = mem[offset + 2];
    let b3 = mem[offset + 3];
    assert(((b1 as u32) << 8u32) | (b0 as u32) == b0 + 256 * b1 && ((b3 as u32) << 24u32) | ((
    b2 as u32) << 16u32) | ((b1 as u32) << 8u32) | (b0 as u32) == b0 + 256 * b1 + 65536 * b2
        + 16777216 * b3) by (bit_vector);
}

/// Instructions are fetched through any of KUSEG, KSEG0 and KSEG1 from the
/// same physical word: the first 8 MB hold the 2 MB of RAM four times over,
/// and the BIOS ROM sits at 0x1FC00000.
pub proof fn lemma_instruction_fetch_mirrors(m: BusModel, address: u32)
    requires
        instruction_fetch_defined(address),
    ensures
        address % 0x2000_0000 < 0x80_0000 ==> instruction_fetch(m, address) == load_le(
            m.ram,
            ((address % 0x2000_0000) % 0x20_0000) as int,
            4,
        ),
        address % 0x2000_0000 >= 0x80_0000 ==> 0x1FC0_0000 <= address % 0x2000_0000 < 0x1FC8_0000
            && instruction_fetch(m, address) == load_le(m.bios, address % 0x2000_0000 - 0x1FC0_0000, 4),
{
    let p = address & PHYSICAL_MEMORY_ADDRESS_MASK;
    assert(p == address % 0x2000_0000 && p & 0x1F_FFFF == p % 0x20_0000 && (0x1FC0_0000 <= p
        < 0x1FC8_0000 ==> ((p - 0x1FC0_0000) as u32) & 0x7_FFFF == p - 0x1FC0_0000)) by (bit_vector)
        requires
            p == address & 0x1FFF_FFFFu32,
    ;
}

/// The devices by physical address: RAM (with its mirrors) below 8 MB, the
/// BIOS ROM at 0x1FC00000 (512 KB), the memory control registers at
/// 0x1F801000, the interrupt controller at 0x1F801070 and the DMA
/// registers at 0x1F801080.
pub proof fn lemma_regions(p: u32)
    ensures
        region_of(p) == MemoryRegion::Ram <==> p < 0x80_0000,
        region_of(p) == MemoryRegion::Bios <==> 0x1FC0_0000 <= p < 0x1FC8_0000,
        region_of(p) == MemoryRegion::MemCtrl <==> 0x1F80_1000 <= p < 0x1F80_1040,
        region_of(p) == MemoryRegion::InterruptController <==> 0x1F80_1070 <= p < 0x1F80_1080,
        region_of(p) == MemoryRegion::Dma <==> 0x1F80_1080 <= p < 0x1F80_1100,
{
}

/// A device register gives back what was written to it: a read of the same
/// width at the same address, after a write of a value that fits the
/// width, reads that value (interrupt controller and DMA control register).
pub proof fn lemma_device_read_after_write(width: nat, address: u32, value: u32, read_value: u32, m: BusModel)
    requires
        bus_model_wf(m),
        width == 1 || width == 2 || width == 4,
        width == 1 ==> value < 0x100,
        width == 2 ==> value < 0x1_0000,
    ensures
        interrupt_controller_access_defined(width, address) ==> interrupt_controller_access(
            width,
            false,
            address,
            read_value,
            interrupt_controller_access(width, true, address, value, m).bus,
        ).value == value,
        dma_access_defined(width, address) ==> dma_access(
            width,
            false,
            address,
            read_value,
            dma_access(width, true, address, value, m).bus,
        ).value == value,
{
    lemma_register_offsets(address);
    lemma_register_offsets(address & DMA_MASK);
    lemma_register_offsets(address & INTERRUPT_CONTROLLER_MASK);
    let s1: u32 = (((address & 0xF) & 0x3) * 8) as u32;
    let s2: u32 = (((address & 0xF) & 0x2) * 8) as u32;
    let d1: u32 = (((address & 0x7F) & 0x3) * 8) as u32;
    let d2: u32 = (((address & 0x7F) & 0x2) * 8) as u32;
    assert((value < 0x100 ==> (value << s1) >> s1 == value && (value << d1) >> d1 == value) && (
    value < 0x1_0000 ==> (value << s2) >> s2 == value && (value << d2) >> d2 == value))
        by (bit_vector)
        requires
            s1 == ((address & 0xF) & 0x3) * 8,
            s2 == ((address & 0xF) & 0x2) * 8,
            d1 == ((address & 0x7F) & 0x3) * 8,
            d2 == ((address & 0x7F) & 0x2) * 8,
    ;
}

} // verus!
