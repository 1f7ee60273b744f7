//! Regions of memory that devices read and write: pci memory, mapped for the kernel from the
//! non-ram address space, and dma memory, described by its virtual and physical addresses.

use vstd::prelude::*;
use crate::bitmap::PAGE_SIZE;
use crate::bump::{bump_pad, BumpAllocator};
use crate::paging_manager::{
    lookup, manager_ok, mapped_to, page_at, page_count, range_fits, root_of, shares_earlier, table_limit,
    PagingTableManager, TableStore,
};
use crate::AllocError;

verus! {

/// Physical memory taken apart from the allocation that owns it: its address.
pub struct DestructuredPhysicalMemory {
    /// Start address
    addr: usize,
}

impl DestructuredPhysicalMemory {
    /// The address, as a value.
    pub closed spec fn addr_spec(&self) -> usize {
        self.addr
    }

    /// The memory at an address.
    pub fn new(addr: usize) -> (r: Self)
        ensures
            r.addr_spec() == addr,
    {
        Self { addr }
    }

    /// Returns the physical address
    pub fn address(&self) -> (r: usize)
        ensures
            r == self.addr_spec(),
    {
        self.addr
    }
}

/// A region of pci memory: its virtual addresses are mapped to its physical ones.
pub struct PciMemory {
    /// The starting address for virtual memory address space
    virt: usize,
    /// The starting address for physical memory address space
    phys: usize,
    /// The size in bytes
    size: usize,
}

/// Where the next non-ram allocation of `size` bytes, aligned to its size, starts.
pub open spec fn nonram_start(extra: BumpAllocator, size: usize) -> int {
    extra.0.end + 1 + bump_pad((extra.0.end + 1) as usize, size)
}

impl PciMemory {
    /// The starting virtual address, as a value.
    pub closed spec fn virt_spec(&self) -> usize {
        self.virt
    }

    /// The starting physical address, as a value.
    pub closed spec fn phys_spec(&self) -> usize {
        self.phys
    }

    /// The size in bytes, as a value.
    pub closed spec fn size_spec(&self) -> usize {
        self.size
    }

    /// Construct a new instance. virt should be mapped to phys over a length of size.
    pub(crate) fn build_with(virt: usize, phys: usize, size: usize) -> (r: Self)
        ensures
            r.virt_spec() == virt,
            r.phys_spec() == phys,
            r.size_spec() == size,
    {
        Self { virt, phys, size }
    }

    /// Allocate pci memory of `size` bytes: physical addresses from the non-ram allocator,
    /// aligned to the size, virtual addresses from the kernel's virtual memory allocator,
    /// aligned to a page, and every page of the virtual range mapped read/write to the
    /// physical range. Fails when a page of the virtual range is already mapped.
    pub fn new(
        size: usize,
        extra: &mut BumpAllocator,
        vmem: &mut BumpAllocator,
        paging: &mut PagingTableManager,
        store: &mut TableStore,
    ) -> (r: Result<Self, AllocError>)
        requires
            size > 0,
            size + PAGE_SIZE <= isize::MAX,
            old(extra).0.can_allocate_nonram(size, size),
            old(vmem).0.can_allocate(size, PAGE_SIZE),
            manager_ok(*old(paging), *old(store)),
            range_fits(old(vmem).0.start_of_next(PAGE_SIZE) as usize, size),
            range_fits(nonram_start(*old(extra), size) as usize, size),
            old(store).count() + 3 * page_count(size) + 3 < table_limit(),
        ensures
            final(extra).0.end == old(extra).0.end + bump_pad((old(extra).0.end + 1) as usize, size)
                + size,
            final(vmem).0.end == old(vmem).0.end_after(size, PAGE_SIZE),
            *final(paging) == *old(paging),
            manager_ok(*final(paging), *final(store)),
            ({
                let va = old(vmem).0.start_of_next(PAGE_SIZE) as usize;
                let pa = nonram_start(*old(extra), size) as usize;
                &&& r matches Ok(p) ==> {
                    &&& p.virt_spec() == va
                    &&& p.phys_spec() == pa
                    &&& p.size_spec() == size
                    &&& forall|k: int|
                        0 <= k < page_count(size) ==> lookup(
                            *final(store),
                            root_of(old(paging).cr3),
                            #[trigger] page_at(va, k),
                        ) == Some(mapped_to(page_at(pa, k), 3, page_at(va, k)))
                }
                &&& (exists|k: int|
                    0 <= k < page_count(size) && lookup(
                        *old(store),
                        root_of(old(paging).cr3),
                        #[trigger] page_at(va, k),
                    ) is Some) ==> r is Err
                &&& r is Err ==> exists|k: int|
                    0 <= k < page_count(size) && (lookup(
                        *old(store),
                        root_of(old(paging).cr3),
                        #[trigger] page_at(va, k),
                    ) is Some || shares_earlier(*final(store), root_of(old(paging).cr3), va, k))
            }),
    {
        let phys = match extra.allocate_nonram_memory(size, size) {
            Ok(b) => b,
            Err(e) => {
                return Err(e);
            },
        };
        let virt = match vmem.allocate(size, PAGE_SIZE) {
            Ok(b) => b,
            Err(e) => {
                return Err(e);
            },
        };
        let va = virt.addr;
        let pa = phys.addr;
        match paging.map_addresses_read_write(store, va, pa, size) {
            Ok(()) => Ok(Self::build_with(va, pa, size)),
            Err(()) => Err(AllocError),
        }
    }

    /// Get the size of the memory area in bytes
    pub fn size(&self) -> (r: usize)
        ensures
            r == self.size_spec(),
    {
        self.size
    }

    /// Get the starting physical address for the region
    pub fn phys(&self) -> (r: usize)
        ensures
            r == self.phys_spec(),
    {
        self.phys
    }

    /// Get the starting virtual address for the region
    pub fn virt(&self) -> (r: usize)
        ensures
            r == self.virt_spec(),
    {
        self.virt
    }
}

/// Dma memory holding one value: its virtual and physical addresses, its size, and the value.
pub struct DmaMemory<T> {
    /// The starting address for virtual memory address space
    virt: usize,
    /// The starting address for physical memory address space
    phys: usize,
    /// The size in bytes
    size: usize,
    /// The data (in virtual memory space)
    data: Box<T>,
}

impl<T> DmaMemory<T> {
    /// The addresses and size, as values.
    pub closed spec fn region(&self) -> (usize, usize, usize) {
        (self.virt, self.phys, self.size)
    }

    /// The value held.
    pub closed spec fn value(&self) -> T {
        *self.data
    }

    /// Construct a new instance. virt should be mapped to phys over a length of size.
    pub(crate) fn build_with(virt: usize, phys: usize, size: usize, data: Box<T>) -> (r: Self)
        ensures
            r.region() == (virt, phys, size),
            r.value() == *data,
    {
        Self { virt, phys, size, data }
    }

    /// Get the size of the memory area in bytes
    pub fn size(&self) -> (r: usize)
        ensures
            r == self.region().2,
    {
        self.size
    }

    /// Get the starting physical address for the region
    pub fn phys(&self) -> (r: usize)
        ensures
            r == self.region().1,
    {
        self.phys
    }

    /// Get the starting virtual address for the region
    pub fn virt(&self) -> (r: usize)
        ensures
            r == self.region().0,
    {
        self.virt
    }

    /// The value held
    pub fn data(&self) -> (r: &T)
        ensures
            *r == self.value(),
    {
        &self.data
    }
}

/// Dma memory holding an array of values.
pub struct DmaMemorySlice<T> {
    /// The starting address for virtual memory address space
    virt: usize,
    /// The starting address for physical memory address space
    phys: usize,
    /// The size in bytes
    size: usize,
    /// The data (in virtual memory space)
    data: Vec<T>,
}

impl<T> DmaMemorySlice<T> {
    /// The addresses and size, as values.
    pub closed spec fn region(&self) -> (usize, usize, usize) {
        (self.virt, self.phys, self.size)
    }

    /// The values held.
    pub closed spec fn values(&self) -> Seq<T> {
        self.data@
    }

    /// Construct a new instance. virt should be mapped to phys over a length of size.
    pub(crate) fn build_with(virt: usize, phys: usize, size: usize, data: Vec<T>) -> (r: Self)
        ensures
            r.region() == (virt, phys, size),
            r.values() == data@,
    {
        Self { virt, phys, size, data }
    }

    /// Get the size of the memory area in bytes
    pub fn size(&self) -> (r: usize)
        ensures
            r == self.region().2,
    {
        self.size
    }

    /// Get the starting physical address for the region
    pub fn phys(&self) -> (r: usize)
        ensures
            r == self.region().1,
    {
        self.phys
    }

    /// Get the starting virtual address for the region
    pub fn virt(&self) -> (r: usize)
        ensures
            r == self.region().0,
    {
        self.virt
    }

    /// The values held
    pub fn data(&self) -> (r: &[T])
        ensures
            r@ == self.values(),
    {
        self.data.as_slice()
    }
}

} // verus!
