use vstd::prelude::*;

verus! {

/// A disc image container format, for users to implement: opening a file
/// and reading raw 2352-byte sectors by logical block address.
pub trait Container {
    fn open(filepath: &str) -> Result<Box<Self>, String>;

    fn read(&mut self, lba: usize, buffer: &mut [u8; 2352]) -> Result<(), String>;
}

} // verus!
