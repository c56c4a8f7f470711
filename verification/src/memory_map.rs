use vstd::prelude::*;

verus! {

// Physical memory map of the console (the KUSEG, KSEG0 and KSEG1 segments
// mirror it; the segment is given by the top three bits of an address).

pub const PHYSICAL_MEMORY_ADDRESS_MASK: u32 = 0x1FFFFFFF;

pub const RAM_2MB_SIZE: u32 = 0x200000;
pub const RAM_2MB_MASK: u32 = 0x1FFFFF;
/// The 2 MB of RAM are mirrored up to this address.
pub const RAM_MIRROR_END: u32 = 0x800000;
pub const EXP1_BASE: u32 = 0x1F000000;
pub const EXP1_SIZE: u32 = 0x800000;
pub const EXP1_MASK: u32 = 0x7FFFFF;
pub const MEMCTRL_BASE: u32 = 0x1F801000;
pub const MEMCTRL_SIZE: u32 = 0x40;
pub const MEMCTRL_MASK: u32 = 0x3F;
pub const PAD_BASE: u32 = 0x1F801040;
pub const PAD_SIZE: u32 = 0x10;
pub const PAD_MASK: u32 = 0xF;
pub const SIO_BASE: u32 = 0x1F801050;
pub const SIO_SIZE: u32 = 0x10;
pub const SIO_MASK: u32 = 0xF;
pub const MEMCTRL2_BASE: u32 = 0x1F801060;
pub const MEMCTRL2_SIZE: u32 = 0x10;
pub const MEMCTRL2_MASK: u32 = 0xF;
pub const INTERRUPT_CONTROLLER_BASE: u32 = 0x1F801070;
pub const INTERRUPT_CONTROLLER_SIZE: u32 = 0x10;
pub const INTERRUPT_CONTROLLER_MASK: u32 = 0xF;
pub const DMA_BASE: u32 = 0x1F801080;
pub const DMA_SIZE: u32 = 0x80;
pub const DMA_MASK: u32 = 0x7F;
pub const TIMERS_BASE: u32 = 0x1F801100;
pub const TIMERS_SIZE: u32 = 0x40;
pub const TIMERS_MASK: u32 = 0x3F;
pub const CDROM_BASE: u32 = 0x1F801800;
pub const CDROM_SIZE: u32 = 0x10;
pub const CDROM_MASK: u32 = 0xF;
pub const GPU_BASE: u32 = 0x1F801810;
pub const GPU_SIZE: u32 = 0x10;
pub const GPU_MASK: u32 = 0xF;
pub const MDEC_BASE: u32 = 0x1F801820;
pub const MDEC_SIZE: u32 = 0x10;
pub const MDEC_MASK: u32 = 0xF;
pub const SPU_BASE: u32 = 0x1F801C00;
pub const SPU_SIZE: u32 = 0x400;
pub const SPU_MASK: u32 = 0x3FF;
pub const EXP2_BASE: u32 = 0x1F802000;
pub const EXP2_SIZE: u32 = 0x2000;
pub const EXP2_MASK: u32 = 0x1FFF;
pub const EXP3_BASE: u32 = 0x1FA00000;
pub const EXP3_SIZE: u32 = 0x1;
pub const EXP3_MASK: u32 = 0x0;
pub const BIOS_BASE: u32 = 0x1FC00000;
pub const BIOS_SIZE: u32 = 0x80000;
pub const BIOS_MASK: u32 = 0x7FFFF;

// Data cache (scratchpad).
pub const D_CACHE_LOCATION: usize = 0x1F800000;
pub const D_CACHE_LOCATION_MASK: usize = 0xFFFFFC00;
pub const D_CACHE_OFFSET_MASK: usize = 0x000003FF;
pub const D_CACHE_SIZE: usize = 0x400;

// Instruction cache.
pub const I_CACHE_SIZE: usize = 0x1000;
pub const I_CACHE_SLOTS: usize = 0x400;
pub const I_CACHE_LINE_SIZE: usize = 16;
pub const I_CACHE_LINES: usize = 0x100;
pub const I_CACHE_SLOTS_PER_LINE: usize = 4;
pub const I_CACHE_TAG_ADDRESS_MASK: usize = 0xFFFFFFF0;
pub const I_CACHE_INVALID_BITS: usize = 0x0F;

} // verus!
