//! The multiboot2 header that lets a compliant bootloader load the kernel.

use vstd::prelude::*;

verus! {

/// The magic value required for multiboot2 compliance.
pub const MULTIBOOT2_MAGIC: u32 = 0xe85250d6;

/// The main structure to use for multi-boot kernels.
pub struct Multiboot {
    /// Magic value required for multiboot compliance
    pub magic: u32,
    /// Architecture for multiboot
    pub arch: u32,
    /// Length of this header
    pub length: u32,
    /// Checksum of this header
    pub checksum: u32,
}

impl Multiboot {
    /// The header fields summed modulo 2^32; a valid header sums to zero.
    pub open spec fn field_sum(self) -> int {
        (self.magic + self.arch + self.length + self.checksum) % 0x1_0000_0000
    }

    /// Construct a new instance of a multiboot header for a multiboot kernel.
    pub fn new() -> (o: Self)
        ensures
            o.magic == MULTIBOOT2_MAGIC,
            o.arch == 0,
            o.length == 0x10,
            o.checksum == 0x1_0000_0000 - MULTIBOOT2_MAGIC - 0 - 0x10,
            o.field_sum() == 0,
    {
        let mut o = Self { magic: MULTIBOOT2_MAGIC, arch: 0, length: 0x10, checksum: 0 };
        o.checksum = 0xFFFFFFFF - o.magic - o.arch - o.length + 1;
        o
    }
}

} // verus!
