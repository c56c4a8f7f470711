use vstd::prelude::*;

verus! {

/// The DMA interrupt register (DICR).
pub struct DMAInterruptRegister {
    bits: u32,
}

impl View for DMAInterruptRegister {
    type V = u32;

    closed spec fn view(&self) -> u32 {
        self.bits
    }
}

impl DMAInterruptRegister {
    /// Bit 23: the master IRQ enable.
    pub fn is_master_irq_enabled(&self) -> (r: bool)
        ensures
            r == (((self@ >> 23u32) & 1) == 1),
    {
        ((self.bits >> 23) & 1) == 1
    }

    /// Bits 16..21: the IRQ enable of each channel.
    pub fn get_channel_irq(&self) -> (r: u8)
        ensures
            r == ((self@ >> 16u32) & 0x3F),
    {
        let b = self.bits;
        assert((b >> 16u32) & 0x3F < 0x40) by (bit_vector);
        ((b >> 16) & 0x3F) as u8
    }

    /// Bits 24..29: the IRQ flag of each channel.
    pub fn get_channel_irq_flags(&self) -> (r: u8)
        ensures
            r == ((self@ >> 24u32) & 0x3F),
    {
        let b = self.bits;
        assert((b >> 24u32) & 0x3F < 0x40) by (bit_vector);
        ((b >> 24) & 0x3F) as u8
    }

    /// Bit 15: the forced IRQ, active whatever the master enable says.
    pub fn is_force_irq_enabled(&self) -> (r: bool)
        ensures
            r == (((self@ >> 15u32) & 1) == 1),
    {
        ((self.bits >> 15) & 1) == 1
    }
}

/// The DMA interrupt line for an interrupt register value: the forced IRQ,
/// or the master enable with a channel both enabled and flagged.
pub open spec fn dma_irq(bits: u32) -> bool {
    ((bits >> 15u32) & 1) == 1 || (((bits >> 23u32) & 1) == 1 && ((bits >> 16u32) & (bits >> 24u32) & 0x3F) != 0)
}

/// The offset, within the DMA register block, of the control register (DPCR).
pub const DMA_CONTROL_OFFSET: u32 = 0x70;

/// The DMA controller: its control register and its interrupt register.
pub struct DMA {
    control: u32,
    interrupt: DMAInterruptRegister,
}

/// The state of the DMA controller: the control register, then the interrupt register.
pub struct DMAView {
    pub control: u32,
    pub interrupt: u32,
}

impl View for DMA {
    type V = DMAView;

    closed spec fn view(&self) -> DMAView {
        DMAView { control: self.control, interrupt: self.interrupt@ }
    }
}

impl DMA {
    /// Control register at its reset value 0x07654321, interrupts clear.
    pub fn new() -> (r: Self)
        ensures
            r@.control == 0x07654321,
            r@.interrupt == 0,
    {
        Self { control: 0x07654321, interrupt: DMAInterruptRegister { bits: 0 } }
    }

    /// Writes the control register, the one register with a handler.
    pub fn write_register(&mut self, offset: u32, control: u32)
        requires
            offset == DMA_CONTROL_OFFSET,
        ensures
            final(self)@.control == control,
            final(self)@.interrupt == old(self)@.interrupt,
    {
        self.control = control;
    }

    /// Reads the control register, the one register with a handler.
    pub fn read_register(&self, offset: u32) -> (r: u32)
        requires
            offset == DMA_CONTROL_OFFSET,
        ensures
            r == self@.control,
    {
        self.control
    }

    /// The DMA interrupt line: the forced IRQ, or the master enable with a
    /// channel both enabled and flagged.
    pub fn irq(&self) -> (r: bool)
        ensures
            r == dma_irq(self@.interrupt),
    {
        let enabled = self.interrupt.get_channel_irq();
        let flags = self.interrupt.get_channel_irq_flags();
        let channel_irq = enabled & flags;
        let b = self.interrupt.bits;
        assert((((b >> 16u32) & 0x3F) as u8 & ((b >> 24u32) & 0x3F) as u8) != 0
            <==> ((b >> 16u32) & (b >> 24u32) & 0x3F) != 0) by (bit_vector);
        (self.interrupt.is_master_irq_enabled() && (channel_irq != 0))
            || self.interrupt.is_force_irq_enabled()
    }
}

} // verus!
verus! {

/// Channel `c` of an interrupt register value is both enabled (bit
/// 16 + c) and flagged (bit 24 + c).
pub open spec fn channel_raises(bits: u32, c: u32) -> bool {
    ((bits >> (16 + c) as u32) & 1) == 1 && ((bits >> (24 + c) as u32) & 1) == 1
}

/// The DMA interrupt line is raised by the forced IRQ (bit 15), or, with the
/// master enable (bit 23) on, by any channel c (0 to 5) that is both
/// enabled and flagged; by nothing else.
pub proof fn lemma_dma_irq_sources(bits: u32)
    ensures
        ((bits >> 15u32) & 1) == 1 ==> dma_irq(bits),
        dma_irq(bits) <==> (((bits >> 15u32) & 1) == 1 || (((bits >> 23u32) & 1) == 1 && exists|c: u32|
            c < 6 && #[trigger] channel_raises(bits, c))),
{
    let en = (bits >> 16u32) & (bits >> 24u32) & 0x3F;
    assert forall|c: u32| c < 6 implies #[trigger] channel_raises(bits, c) == ((en >> c) & 1 == 1) && ((
    en >> c) & 1 == 1 ==> en != 0) by {
        assert((((bits >> (16 + c) as u32) & 1) == 1 && ((bits >> (24 + c) as u32) & 1) == 1) == ((((
        bits >> 16u32) & (bits >> 24u32) & 0x3F) >> c) & 1 == 1) && ((((bits >> 16u32) & (bits
            >> 24u32) & 0x3F) >> c) & 1 == 1 ==> ((bits >> 16u32) & (bits >> 24u32) & 0x3F) != 0))
            by (bit_vector)
            requires
                c < 6,
        ;
    }
    if en != 0 {
        assert(((en >> 0u32) & 1 == 1) || ((en >> 1u32) & 1 == 1) || ((en >> 2u32) & 1 == 1) || ((en
            >> 3u32) & 1 == 1) || ((en >> 4u32) & 1 == 1) || ((en >> 5u32) & 1 == 1)) by (bit_vector)
            requires
                en != 0,
                en == (bits >> 16u32) & (bits >> 24u32) & 0x3F,
        ;
        if (en >> 0u32) & 1 == 1 {
            assert(channel_raises(bits, 0));
        } else if (en >> 1u32) & 1 == 1 {
            assert(channel_raises(bits, 1));
        } else if (en >> 2u32) & 1 == 1 {
            assert(channel_raises(bits, 2));
        } else if (en >> 3u32) & 1 == 1 {
            assert(channel_raises(bits, 3));
        } else if (en >> 4u32) & 1 == 1 {
            assert(channel_raises(bits, 4));
        } else {
            assert(channel_raises(bits, 5));
        }
    }
}

} // verus!
