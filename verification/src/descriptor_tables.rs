//! The 32-bit x86 global and interrupt descriptor tables.

use vstd::prelude::*;

verus! {

/// The number of descriptors the global descriptor table has room for.
pub const GDT_ENTRIES: usize = 8;

/// This structure defines the 32 bit global descriptor table
pub struct GlobalDescriptorTable {
    /// The entries of the global descriptor table. The first entry must be null.
    entries: [u64; 8],
    /// The size of the global descriptor table in entries.
    len: usize,
}

impl GlobalDescriptorTable {
    /// The descriptors in use, the null descriptor first.
    pub closed spec fn view(&self) -> Seq<u64> {
        self.entries@.subrange(0, self.len as int)
    }

    /// The table holds the null descriptor and at most the room it has.
    pub closed spec fn wf(&self) -> bool {
        1 <= self.len <= GDT_ENTRIES && self.entries@[0] == 0
    }

    /// Create a blank instance of the global descriptor table: just the null descriptor.
    pub fn new() -> (r: Self)
        ensures
            r.wf(),
            r@ == seq![0u64],
    {
        let r = Self { entries: [0u64; 8], len: 1 };
        assert(r@ =~= seq![0u64]);
        r
    }

    /// Returns the number of entries occupied.
    pub fn len(&self) -> (r: usize)
        requires
            self.wf(),
        ensures
            r == self@.len(),
    {
        self.len
    }

    /// Returns the limit for the gdt: its size in bytes minus one.
    pub fn limit(&self) -> (r: u16)
        requires
            self.wf(),
        ensures
            r == self@.len() * 8 - 1,
    {
        self.len as u16 * 8 - 1
    }

    /// Add an entry to the global descriptor table.
    pub fn const_add_entry(&mut self, g: u64)
        requires
            old(self).wf(),
            old(self)@.len() < GDT_ENTRIES,
        ensures
            final(self).wf(),
            final(self)@ == old(self)@.push(g),
            final(self)@[0] == 0,
            final(self)@.len() <= GDT_ENTRIES,
    {
        self.entries[self.len] = g;
        self.len += 1;
        assert(self@ =~= old(self)@.push(g));
    }
}

/// A well formed table holds the null descriptor first, and between one and eight entries.
pub proof fn lemma_gdt_starts_null(g: GlobalDescriptorTable)
    requires
        g.wf(),
    ensures
        1 <= g@.len() <= GDT_ENTRIES,
        g@[0] == 0,
{
}

/// A descriptor as it lies in memory: the `lower` word first, then the `upper` word.
pub open spec fn descriptor(upper: u32, lower: u32) -> u64 {
    (upper as int * 0x1_0000_0000 + lower as int) as u64
}

/// The flat 4 GiB ring 0 code segment descriptor (execute/read), as lower and upper words.
pub const KERNEL_CODE_SEGMENT: u64 = 0x00cf_9a00_0000_ffff;

/// The flat 4 GiB ring 0 data segment descriptor (read/write), as lower and upper words.
pub const KERNEL_DATA_SEGMENT: u64 = 0x00cf_9200_0000_ffff;

/// The table the boot code loads: the null descriptor, then the kernel code segment and the
/// kernel data segment, so that their selectors are 0x08 and 0x10.
pub fn make_gdt_table() -> (r: GlobalDescriptorTable)
    ensures
        r.wf(),
        r@ == seq![
            0u64,
            descriptor(0b00000000110011111001101000000000, 0xffff),
            descriptor(0b00000000110011111001001000000000, 0xffff),
        ],
        r@.len() * 8 - 1 == 23,
{
    let mut gdtb = GlobalDescriptorTable::new();
    gdtb.const_add_entry(KERNEL_CODE_SEGMENT);
    gdtb.const_add_entry(KERNEL_DATA_SEGMENT);
    gdtb
}

/// The flags word of an interrupt gate: present, ring 0, 32-bit interrupt gate.
pub const IDT_GATE_FLAGS: u32 = 0b1_00_01110_000_00000;

/// The code segment selector (in the upper half of the first word) the gates use.
pub const IDT_CODE_SELECTOR: u32 = 0x8 << 16;

/// The first word of a gate for a handler at `faddr`: the low half of the address and the
/// code segment.
pub open spec fn gate_low(faddr: u32) -> u32 {
    (faddr & 0xFFFF) | IDT_CODE_SELECTOR
}

/// The second word of a gate for a handler at `faddr`: the high half of the address and the
/// gate flags.
pub open spec fn gate_high(faddr: u32) -> u32 {
    (faddr & 0xFFFF0000) | IDT_GATE_FLAGS
}

/// The interrupt descriptor table for x86
pub struct InterruptDescriptorTable {
    /// The actual table
    entries: [[u32; 2]; 256],
}

impl InterruptDescriptorTable {
    /// The gates, two words each.
    pub closed spec fn view(&self) -> Seq<[u32; 2]> {
        self.entries@
    }

    /// Produces an empty table
    pub fn new() -> (r: Self)
        ensures
            r@.len() == 256,
            forall|i: int| 0 <= i < 256 ==> r@[i]@ == seq![0u32, 0u32],
    {
        let r = Self { entries: [[0u32; 2]; 256] };
        assert forall|i: int| 0 <= i < 256 implies r@[i]@ == seq![0u32, 0u32] by {
            assert(r@[i]@ =~= seq![0u32, 0u32]);
        }
        r
    }

    /// Set the interrupt handler at address `faddr` for interrupt `index`, for a handler that
    /// takes an error code
    pub fn set_handler(&mut self, index: u8, faddr: u32)
        ensures
            final(self)@.len() == 256,
            final(self)@ == old(self)@.update(index as int, [gate_low(faddr), gate_high(faddr)]),
    {
        self.set_gate(index, faddr)
    }

    /// Set the interrupt handler at address `faddr` for interrupt `index`, for a handler that
    /// takes no error code
    pub fn set_handler_without_arg(&mut self, index: u8, faddr: u32)
        ensures
            final(self)@.len() == 256,
            final(self)@ == old(self)@.update(index as int, [gate_low(faddr), gate_high(faddr)]),
    {
        self.set_gate(index, faddr)
    }

    fn set_gate(&mut self, index: u8, faddr: u32)
        ensures
            final(self)@.len() == 256,
            final(self)@ == old(self)@.update(index as int, [gate_low(faddr), gate_high(faddr)]),
    {
        let flow = faddr & 0xFFFF;
        let fhigh = faddr & 0xFFFF0000;
        let flags = IDT_GATE_FLAGS;
        let ss = IDT_CODE_SELECTOR;
        self.entries[index as usize] = [flow | ss, fhigh | flags];
        assert(self@ =~= old(self)@.update(index as int, [gate_low(faddr), gate_high(faddr)]));
    }

    /// The two words stored for interrupt `index`.
    pub fn gate(&self, index: u8) -> (r: [u32; 2])
        ensures
            r == self@[index as int],
    {
        self.entries[index as usize]
    }
}

/// The handler address can be read back from the two words of its gate.
pub proof fn lemma_gate_holds_address(faddr: u32)
    ensures
        (gate_low(faddr) & 0xFFFF) | (gate_high(faddr) & 0xFFFF0000) == faddr,
{
    assert(((((faddr & 0xFFFF) | (0x8u32 << 16u32)) & 0xFFFF) | (((faddr & 0xFFFF0000) | 0b1_00_01110_000_00000u32) & 0xFFFF0000)) == faddr) by (bit_vector);
}

} // verus!
