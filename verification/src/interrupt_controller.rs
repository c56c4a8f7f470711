use vstd::prelude::*;

verus! {

/// The interrupt controller's register block: four words (I_STAT, I_MASK and
/// two unused words), each holding the last word written to it.
pub struct InterruptController {
    registers: [u32; 4],
}

impl View for InterruptController {
    type V = Seq<u32>;

    closed spec fn view(&self) -> Seq<u32> {
        self.registers@
    }
}

impl InterruptController {
    /// Every register zero.
    pub fn new() -> (r: Self)
        ensures
            r@ == Seq::new(4, |i: int| 0u32),
    {
        let r = Self { registers: [0;4] };
        assert(r@ =~= Seq::new(4, |i: int| 0u32));
        r
    }

    /// The word at a word-aligned offset in the block.
    pub fn read_register(&self, offset: u32) -> (r: u32)
        requires
            offset < 16,
            offset % 4 == 0,
        ensures
            r == self@[(offset / 4) as int],
    {
        self.registers[(offset / 4) as usize]
    }

    /// Stores a word at a word-aligned offset in the block.
    pub fn write_register(&mut self, offset: u32, value: u32)
        requires
            offset < 16,
            offset % 4 == 0,
        ensures
            final(self)@ == old(self)@.update((offset / 4) as int, value),
    {
        self.registers[(offset / 4) as usize] = value;
    }

    /// The four register words, for display.
    pub fn registers(&self) -> (r: [u32; 4])
        ensures
            r@ == self@,
    {
        self.registers
    }
}

} // verus!
