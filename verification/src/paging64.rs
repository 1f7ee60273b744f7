//! Page tables for 64-bit x86 (four levels of 512-entry tables).

use vstd::prelude::*;
use crate::entry_flags::PageTableEntryFlags;

verus! {

/// The mask that clears the flag bits of a table entry, leaving the address.
pub const ENTRY_ADDRESS_MASK: u64 = !0xFFFu64;

/// An entry refers to something present.
pub open spec fn entry_present(d: u64) -> bool {
    d & 1 != 0
}

/// The address an entry refers to.
pub open spec fn entry_address(d: u64) -> u64 {
    d & !0xFFFu64
}

/// What reading an entry gives: its address when present.
pub open spec fn read_entry(d: u64) -> Option<u64> {
    if entry_present(d) { Some(entry_address(d)) } else { None }
}

/// A page table is a part of the paging system. It contains entries that the memory management
/// unit uses to resolve virtual memory addresses to physical memory addresses.
#[derive(Clone, Copy)]
pub struct PageTable {
    /// The array of entries for a page table.
    pub entries: [u64; 512],
}

impl PageTable {
    /// Create a blank page table, all entries set to 0
    pub fn new() -> (r: Self)
        ensures
            forall|i: int| 0 <= i < 512 ==> r.entries@[i] == 0,
    {
        Self { entries: [0u64; 512] }
    }

    /// Sets the entry as present with the specified address, returns the actual address used
    pub fn set_entry(&mut self, index: usize, addr: usize, flags: PageTableEntryFlags) -> (r: u64)
        requires
            index < 512,
        ensures
            r == addr as u64,
            final(self).entries@ == old(self).entries@.update(index as int, (addr as u64) | (flags.0 as u64)),
    {
        self.entries[index] = addr as u64 | flags.0 as u64;
        addr as u64
    }

    /// Returns an address if the entry is marked present
    pub fn get_entry(&self, index: usize) -> (r: Option<u64>)
        requires
            index < 512,
        ensures
            r == read_entry(self.entries@[index as int]),
    {
        let d = self.entries[index];
        if (d & 1) != 0 {
            Some(d & !0xFFF)
        } else {
            None
        }
    }
}

/// An entry written with a page aligned address and the present and writable flags reads back
/// as that address.
pub proof fn lemma_present_entry_reads_back(addr: u64)
    requires
        addr & 0xFFF == 0,
    ensures
        read_entry(addr | 3) == Some(addr),
{
    assert((addr | 3) & 1 != 0) by (bit_vector);
    assert((addr | 3) & !0xFFFu64 == addr) by (bit_vector)
        requires
            addr & 0xFFF == 0,
    ;
}

/// The data for a page table modifier
pub struct PageTableModifierData {
    /// The virtual memory address for the affected page
    pub virt: usize,
    /// The virtual memory address of the entry
    pub entry: usize,
}

/// A struct used for modifying mappings of page table: the table viewed through a window, and
/// the entry that decides which physical table the window shows.
pub struct PageTableModifier {
    /// The page table as it exists in mapped virtual memory
    pub table: PageTable,
    /// The entry used to change the table mapping
    pub entry: usize,
    /// The virtual address where the entry lives
    pub entry_address: usize,
}

impl PageTableModifier {
    /// Get the physical address for this page table
    pub fn get_physical_address(&self) -> (r: Option<usize>)
        ensures
            r == (if self.entry & 1 != 0 { Some(self.entry & !0xFFFusize) } else { None }),
    {
        let d = self.entry;
        if (d & 1) != 0 {
            Some(d & !0xFFF)
        } else {
            None
        }
    }

    /// Set the physical address for this page table
    pub fn set_physical_address(&mut self, addr: usize)
        ensures
            final(self).entry == addr | 3,
            final(self).table == old(self).table,
            final(self).entry_address == old(self).entry_address,
    {
        let flags = PageTableEntryFlags::present_writable();
        self.entry = addr | flags.0 as usize;
    }

    /// Get the virtual address for this page table
    pub fn get_virtual_address(&self) -> (r: usize)
        ensures
            r == self.entry_address,
    {
        self.entry_address
    }
}

/// Setting the physical address of a modifier to a page aligned address reads back that
/// address.
pub proof fn lemma_modifier_reads_back(addr: usize)
    requires
        addr & 0xFFF == 0,
    ensures
        (addr | 3) & 1 != 0,
        (addr | 3) & !0xFFFusize == addr,
{
    assert((addr | 3) & 1 != 0) by (bit_vector);
    assert((addr | 3) & !0xFFFusize == addr) by (bit_vector)
        requires
            addr & 0xFFF == 0,
    ;
}

/// A page of memory.
pub struct Page {
    /// The page contents
    pub data: [u8; 4096],
}

impl Page {
    /// Create a pattern of alternating bits
    pub fn alternating_bits() -> (r: Self)
        ensures
            forall|i: int| 0 <= i < 4096 ==> r.data@[i] == 0xaa,
    {
        Self { data: [0xaa; 4096] }
    }
}

impl Default for Page {
    /// A page of zeros
    fn default() -> (r: Self)
        ensures
            forall|i: int| 0 <= i < 4096 ==> r.data@[i] == 0,
    {
        Self { data: [0; 4096] }
    }
}

} // verus!
