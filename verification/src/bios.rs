use vstd::prelude::*;

use crate::digest::{md5, md5_of};

verus! {

/// Where the BIOS ROM starts in memory.
pub const BIOS_BASE: u32 = 0x1FC00000;

/// Size of the BIOS ROM: 512 KB.
pub const BIOS_SIZE: usize = 524288;

pub const BIOS_MASK: u32 = 0x7FFFF;

/// MD5 of the SCPH-1001 (NTSC-U) BIOS.
pub const HASH: &'static str = "924e392ed05558ffdb115408c263dccf";

/// A BIOS ROM image.
pub struct Bios {
    bytes: Vec<u8>,
}

impl View for Bios {
    type V = Seq<u8>;

    closed spec fn view(&self) -> Seq<u8> {
        self.bytes@
    }
}

impl Bios {
    /// A ROM image of exactly `BIOS_SIZE` bytes.
    pub fn from_bytes(bytes: Vec<u8>) -> (r: Self)
        requires
            bytes@.len() == BIOS_SIZE,
        ensures
            r@ == bytes@,
    {
        Self { bytes }
    }

    /// The MD5 digest of the image.
    pub fn get_hash(&self) -> (r: [u8; 16])
        ensures
            r@ == md5_of(self@),
    {
        md5(self.bytes.as_slice())
    }

    /// A copy of the image.
    pub fn data(&self) -> (r: Vec<u8>)
        ensures
            r@ == self@,
    {
        let r = self.bytes.clone();
        assert(r@ =~= self@);
        r
    }
}

} // verus!
