//! A simple physical memory manager for the kernel: one bitmap of free pages per area of
//! physical memory that the bootloader reports as available.

use vstd::prelude::*;
use crate::bitmap::{Bitmap, PAGE_SIZE, is_first_free};
use crate::bump::BumpAllocator;
use crate::{AllocError, MemoryBlock};

verus! {

/// The kinds of memory area a multiboot2 memory map reports.
#[derive(Clone, Copy, Debug, PartialEq, Eq)]
pub enum MemoryAreaType {
    /// Ram that is free to use
    Available,
    /// Memory that is reserved
    Reserved,
    /// Memory holding acpi information, usable afterwards
    AcpiAvailable,
    /// Memory to preserve on hibernation
    ReservedHibernate,
    /// Defective ram
    Defective,
    /// A type code the specification does not name
    Custom(u32),
}

/// An area of physical memory from the memory map the bootloader provides.
#[derive(Clone, Copy, Debug, PartialEq, Eq)]
pub struct MemoryArea {
    /// The first address of the area
    pub start_address: u64,
    /// The size of the area in bytes
    pub size: u64,
    /// What the memory is
    pub typ: MemoryAreaType,
}

/// The first bitmap at or after `k` that covers `addr`, or the number of bitmaps when none does.
pub open spec fn cover_index(bms: Seq<Bitmap>, addr: usize, k: int) -> int
    decreases bms.len() - k,
{
    if k < 0 || k >= bms.len() {
        bms.len() as int
    } else if bms[k].covers(addr) {
        k
    } else {
        cover_index(bms, addr, k + 1)
    }
}

/// Rounding a length up to whole pages.
pub proof fn lemma_round_up_page(x: int)
    requires
        x >= 0,
    ensures
        (if x % (PAGE_SIZE as int) != 0 { x - x % (PAGE_SIZE as int) + PAGE_SIZE } else { x })
            == ((x + PAGE_SIZE - 1) / (PAGE_SIZE as int)) * PAGE_SIZE,
        (x + PAGE_SIZE - 1) / (PAGE_SIZE as int) >= 0,
{
    let p = PAGE_SIZE as int;
    vstd::arithmetic::div_mod::lemma_fundamental_div_mod(x, p);
    let q = x / p;
    let m = x % p;
    if m == 0 {
        vstd::arithmetic::div_mod::lemma_fundamental_div_mod_converse(x + p - 1, p, q, p - 1);
    } else {
        vstd::arithmetic::div_mod::lemma_fundamental_div_mod_converse(x + p - 1, p, q + 1, m - 1);
    }
}

/// The free maps of the bitmaps.
pub open spec fn free_maps(bms: Seq<Bitmap>) -> Seq<Seq<bool>> {
    Seq::new(bms.len(), |k: int| bms[k]@)
}

/// Two sequences of bitmaps cover the same blocks at the same addresses.
pub open spec fn same_geometry(a: Seq<Bitmap>, b: Seq<Bitmap>) -> bool {
    &&& a.len() == b.len()
    &&& forall|k: int| 0 <= k < a.len() ==> {
        &&& (#[trigger] a[k]).start_addr() == b[k].start_addr()
        &&& a[k].len() == b[k].len()
        &&& a[k].block_bytes() == b[k].block_bytes()
        &&& a[k].wf() == b[k].wf()
    }
}

/// The free maps after the page at `addr` is marked used in the first bitmap covering it.
pub open spec fn mark_page(bms: Seq<Bitmap>, maps: Seq<Seq<bool>>, addr: usize) -> Seq<Seq<bool>> {
    set_page(bms, maps, addr, false)
}

/// The free maps after the `n` pages starting at `first` are marked used.
pub open spec fn mark_pages(bms: Seq<Bitmap>, maps: Seq<Seq<bool>>, first: int, n: nat) -> Seq<Seq<bool>>
    decreases n,
{
    if n == 0 {
        maps
    } else {
        let before = mark_pages(bms, maps, first, (n - 1) as nat);
        mark_page(bms, before, (first + (n - 1) * PAGE_SIZE) as usize)
    }
}

/// Every bitmap is well formed.
pub open spec fn all_wf(bms: Seq<Bitmap>) -> bool {
    forall|k: int| 0 <= k < bms.len() ==> (#[trigger] bms[k]).wf()
}

/// The first bitmap found covering `addr` does cover it.
pub proof fn lemma_cover_index(bms: Seq<Bitmap>, addr: usize, k: int)
    requires
        0 <= k <= bms.len(),
    ensures
        k <= cover_index(bms, addr, k) <= bms.len(),
        cover_index(bms, addr, k) < bms.len() ==> bms[cover_index(bms, addr, k)].covers(addr),
        forall|j: int| k <= j < cover_index(bms, addr, k) ==> !(#[trigger] bms[j]).covers(addr),
    decreases bms.len() - k,
{
    if k < bms.len() && !bms[k].covers(addr) {
        lemma_cover_index(bms, addr, k + 1);
    }
}

/// Only the geometry of the bitmaps decides which covers an address.
pub proof fn lemma_cover_index_geometry(a: Seq<Bitmap>, b: Seq<Bitmap>, addr: usize, k: int)
    requires
        same_geometry(a, b),
        0 <= k <= a.len(),
    ensures
        cover_index(a, addr, k) == cover_index(b, addr, k),
    decreases a.len() - k,
{
    if k < a.len() {
        assert(a[k].start_addr() == b[k].start_addr());
        lemma_cover_index_geometry(a, b, addr, k + 1);
    }
}

/// A simple physical memory manager for the kernel
pub struct SimpleMemoryManager {
    /// An array of blocks of physical memory managed by the physical memory manager.
    pub bitmaps: Option<Vec<Bitmap>>,
    /// The bump allocator for any additional (non-ram) memory for the system, such as pci memory
    pub extra_mem: BumpAllocator,
}

impl SimpleMemoryManager {
    /// The bitmaps, empty before the manager is initialized.
    pub open spec fn bms(&self) -> Seq<Bitmap> {
        match self.bitmaps {
            Some(v) => v@,
            None => Seq::empty(),
        }
    }

    /// Every bitmap is well formed.
    pub open spec fn wf(&self) -> bool {
        all_wf(self.bms())
    }

    /// Some bitmap has a free block.
    pub open spec fn has_free_page(&self) -> bool {
        &&& self.bitmaps is Some
        &&& exists|k: int, i: int|
            0 <= k < self.bms().len() && 0 <= i < self.bms()[k]@.len() && #[trigger] self.bms()[k]@[i]
    }

    /// Create a new instance of the physical memory manager.
    pub fn new() -> (r: Self)
        ensures
            r.bitmaps is None,
            r.extra_mem.0.start == 0x100000,
            r.extra_mem.0.end == 0x100000,
            r.extra_mem.0.allocate_pages is None,
            r.wf(),
    {
        Self { bitmaps: None, extra_mem: BumpAllocator::new(0x100000) }
    }

    /// Initialize an instance of a physical memory manager: an empty list of bitmaps, with room
    /// for one per available memory area.
    pub fn init(&mut self, areas: &[MemoryArea])
        ensures
            final(self).bitmaps matches Some(v) && v@.len() == 0,
            final(self).extra_mem == old(self).extra_mem,
            final(self).wf(),
    {
        let mut n: usize = 0;
        let mut i: usize = 0;
        while i < areas.len()
            invariant
                n <= i <= areas@.len(),
            decreases areas@.len() - i,
        {
            if let MemoryAreaType::Available = areas[i].typ {
                n = n + 1;
            }
            i = i + 1;
        }
        let bitmaps: Vec<Bitmap> = Vec::with_capacity(n);
        self.bitmaps = Some(bitmaps);
    }

    /// Adds a physical memory area to the memory manager: a new bitmap, all pages free, at the
    /// end of the list of bitmaps. An area at address zero gives up its first page.
    pub fn add_memory_area(&mut self, ma: &MemoryArea)
        requires
            old(self).wf(),
            (ma.start_address as usize) == 0 ==> (ma.size as usize) >= PAGE_SIZE,
            (ma.start_address as usize) + (ma.size as usize) <= usize::MAX,
            (ma.size as usize) / PAGE_SIZE + usize::BITS <= usize::MAX,
        ensures
            final(self).wf(),
            final(self).extra_mem == old(self).extra_mem,
            old(self).bitmaps is None ==> final(self).bitmaps is None,
            old(self).bitmaps is Some ==> {
                let skip: int = if ma.start_address as usize == 0 { PAGE_SIZE as int } else { 0 };
                let bm = final(self).bms().last();
                &&& final(self).bitmaps is Some
                &&& final(self).bms().len() == old(self).bms().len() + 1
                &&& final(self).bms().subrange(0, old(self).bms().len() as int) == old(self).bms()
                &&& bm.start_addr() == (ma.start_address as usize) + skip
                &&& bm.block_bytes() == PAGE_SIZE
                &&& bm.len() == ((ma.size as usize) - skip) / (PAGE_SIZE as int)
                &&& bm@ == Seq::new(bm.len(), |i: int| true)
            },
    {
        let mut addr = ma.start_address as usize;
        let mut size = ma.size as usize;
        if addr == 0 {
            addr += PAGE_SIZE;
            size -= PAGE_SIZE;
        }
        let bm = Bitmap::initialize(addr, size, PAGE_SIZE);
        if let Some(bitmaps) = &mut self.bitmaps {
            bitmaps.push(bm);
        }
        proof {
            if old(self).bitmaps is Some {
                assert(self.bms().subrange(0, old(self).bms().len() as int) =~= old(self).bms());
                assert forall|k: int| 0 <= k < self.bms().len() implies (#[trigger] self.bms()[k]).wf() by {
                    if k < old(self).bms().len() {
                        assert(self.bms()[k] == old(self).bms()[k]);
                    }
                }
            }
        }
    }

    /// Indicate that there are no more memory areas to add to the memory manager: the extra
    /// memory allocator moves to the highest address any bitmap covers.
    pub fn done_adding_memory_areas(&mut self)
        requires
            old(self).wf(),
            old(self).bitmaps is Some,
            old(self).extra_mem.0.start == old(self).extra_mem.0.end,
        ensures
            final(self).bitmaps == old(self).bitmaps,
            final(self).extra_mem.0.start == final(self).extra_mem.0.end,
            forall|k: int| 0 <= k < old(self).bms().len() ==> (#[trigger] old(self).bms()[k]).start_addr() + old(self).bms()[k].len() * old(self).bms()[k].block_bytes()
                <= final(self).extra_mem.0.end,
            final(self).extra_mem.0.end == 0 || exists|k: int| 0 <= k < old(self).bms().len()
                && final(self).extra_mem.0.end == (#[trigger] old(self).bms()[k]).start_addr() + old(self).bms()[k].len() * old(self).bms()[k].block_bytes(),
    {
        let mut highest_address: usize = 0;
        let bitmaps = self.bitmaps.as_ref().unwrap();
        let mut i: usize = 0;
        while i < bitmaps.len()
            invariant
                all_wf(bitmaps@),
                i <= bitmaps@.len(),
                forall|k: int| 0 <= k < i ==> (#[trigger] bitmaps@[k]).start_addr() + bitmaps@[k].len() * bitmaps@[k].block_bytes() <= highest_address,
                highest_address == 0 || exists|k: int| 0 <= k < i
                    && highest_address == (#[trigger] bitmaps@[k]).start_addr() + bitmaps@[k].len() * bitmaps@[k].block_bytes(),
            decreases bitmaps@.len() - i,
        {
            let addr: usize = bitmaps[i].end_address();
            if addr > highest_address {
                highest_address = addr;
            }
            i = i + 1;
        }
        self.extra_mem.relocate(highest_address, highest_address);
    }

    /// Mark the page at `addr` used in the first bitmap that covers it.
    fn steal_page(&mut self, addr: usize)
        requires
            old(self).wf(),
            old(self).bitmaps is Some,
        ensures
            final(self).wf(),
            final(self).bitmaps is Some,
            final(self).extra_mem == old(self).extra_mem,
            same_geometry(final(self).bms(), old(self).bms()),
            free_maps(final(self).bms()) == mark_page(old(self).bms(), free_maps(old(self).bms()), addr),
    {
        if let Some(mut bitmaps) = self.bitmaps.take() {
            mark_in(&mut bitmaps, addr, false);
            self.bitmaps = Some(bitmaps);
        }
    }

    /// Set a region of memory as used: every page that holds a byte of the region (and at least
    /// the page holding `start`) is marked used in the first bitmap that covers it.
    pub fn set_area_used(&mut self, start: usize, size: usize)
        requires
            old(self).wf(),
            start + size + 2 * PAGE_SIZE <= usize::MAX,
        ensures
            final(self).wf(),
            final(self).extra_mem == old(self).extra_mem,
            old(self).bitmaps is None ==> final(self).bitmaps is None,
            old(self).bitmaps is Some ==> {
                let offset = (start % PAGE_SIZE) as int;
                let realstart = start - offset;
                let pages = (size + offset + PAGE_SIZE - 1) / (PAGE_SIZE as int);
                let n = if pages == 0 { 1 } else { pages };
                &&& final(self).bitmaps is Some
                &&& same_geometry(final(self).bms(), old(self).bms())
                &&& free_maps(final(self).bms()) == mark_pages(old(self).bms(), free_maps(old(self).bms()), realstart, n as nat)
            },
    {
        if self.bitmaps.is_some() {
            let ghost bms0 = self.bms();
            let offset = start % PAGE_SIZE;
            let realstart = start - offset;
            let realsize = size + offset;
            let realsize = if realsize % PAGE_SIZE != 0 {
                realsize - realsize % PAGE_SIZE + PAGE_SIZE
            } else {
                realsize
            };
            let realend = realstart + realsize;
            let ghost pages = (size + offset + PAGE_SIZE - 1) / (PAGE_SIZE as int);
            let ghost n: int = if pages == 0 { 1 } else { pages };
            proof {
                lemma_round_up_page((size + offset) as int);
                vstd::arithmetic::div_mod::lemma_fundamental_div_mod(start as int, PAGE_SIZE as int);
            }
            let mut addr = realstart;
            let mut t: usize = 0;
            loop
                invariant_except_break
                    self.wf(),
                    self.bitmaps is Some,
                    self.extra_mem == old(self).extra_mem,
                    same_geometry(self.bms(), bms0),
                    free_maps(self.bms()) == mark_pages(bms0, free_maps(bms0), realstart as int, t as nat),
                    addr == realstart + t * PAGE_SIZE,
                    realend == realstart + pages * PAGE_SIZE,
                    realend <= usize::MAX - PAGE_SIZE,
                    pages >= 0,
                    n == if pages == 0 { 1 } else { pages },
                    t < n,
                ensures
                    self.wf(),
                    self.bitmaps is Some,
                    self.extra_mem == old(self).extra_mem,
                    same_geometry(self.bms(), bms0),
                    free_maps(self.bms()) == mark_pages(bms0, free_maps(bms0), realstart as int, n as nat),
                decreases n - t,
            {
                let ghost before = self.bms();
                self.steal_page(addr);
                proof {
                    lemma_set_page_geometry(before, bms0, free_maps(before), addr, false);
                    assert forall|k: int| 0 <= k < self.bms().len() implies {
                        &&& (#[trigger] self.bms()[k]).start_addr() == bms0[k].start_addr()
                        &&& self.bms()[k].len() == bms0[k].len()
                        &&& self.bms()[k].block_bytes() == bms0[k].block_bytes()
                        &&& self.bms()[k].wf() == bms0[k].wf()
                    } by {
                        assert(before[k].start_addr() == bms0[k].start_addr());
                        assert(self.bms()[k].start_addr() == before[k].start_addr());
                    }
                }
                addr += PAGE_SIZE;
                t = t + 1;
                proof {
                    assert((addr >= realend) == (t >= pages)) by (nonlinear_arith)
                        requires
                            addr == realstart + t * PAGE_SIZE,
                            realend == realstart + pages * PAGE_SIZE,
                    ;
                }
                if addr >= realend {
                    break;
                }
            }
        }
    }

    /// Mark the memory that the kernel's bump allocator has handed out as used: every page from
    /// the allocator's start up to (not including) its end.
    pub fn set_kernel_memory_used(&mut self, mm: &BumpAllocator)
        requires
            old(self).wf(),
            mm.0.end + PAGE_SIZE <= usize::MAX,
        ensures
            final(self).wf(),
            final(self).extra_mem == old(self).extra_mem,
            old(self).bitmaps is None ==> final(self).bitmaps is None,
            old(self).bitmaps is Some ==> {
                let n = if mm.0.start < mm.0.end { (mm.0.end - mm.0.start + PAGE_SIZE - 1) / (PAGE_SIZE as int) } else { 0 };
                &&& final(self).bitmaps is Some
                &&& same_geometry(final(self).bms(), old(self).bms())
                &&& free_maps(final(self).bms()) == mark_pages(old(self).bms(), free_maps(old(self).bms()), mm.0.start as int, n as nat)
            },
    {
        if self.bitmaps.is_some() {
            let ghost bms0 = self.bms();
            let start = mm.0.start;
            let end = mm.0.end;
            let ghost n: int = if start < end { (end - start + PAGE_SIZE - 1) / (PAGE_SIZE as int) } else { 0 };
            let mut addr = start;
            let mut t: usize = 0;
            while addr < end
                invariant
                    self.wf(),
                    self.bitmaps is Some,
                    self.extra_mem == old(self).extra_mem,
                    same_geometry(self.bms(), bms0),
                    free_maps(self.bms()) == mark_pages(bms0, free_maps(bms0), start as int, t as nat),
                    addr == start + t * PAGE_SIZE,
                    end + PAGE_SIZE <= usize::MAX,
                    addr < end ==> t < n,
                    addr >= end ==> t == n,
                    start == mm.0.start,
                    end == mm.0.end,
                    n == if start < end { (end - start + PAGE_SIZE - 1) / (PAGE_SIZE as int) } else { 0 },
                decreases n - t,
            {
                let ghost before = self.bms();
                self.steal_page(addr);
                proof {
                    lemma_cover_index_geometry(before, bms0, addr, 0);
                    lemma_set_page_geometry(before, bms0, free_maps(before), addr, false);
                    assert forall|k: int| 0 <= k < self.bms().len() implies {
                        &&& (#[trigger] self.bms()[k]).start_addr() == bms0[k].start_addr()
                        &&& self.bms()[k].len() == bms0[k].len()
                        &&& self.bms()[k].block_bytes() == bms0[k].block_bytes()
                        &&& self.bms()[k].wf() == bms0[k].wf()
                    } by {
                        assert(before[k].start_addr() == bms0[k].start_addr());
                    }
                    vstd::arithmetic::div_mod::lemma_fundamental_div_mod((end - start + PAGE_SIZE - 1) as int, PAGE_SIZE as int);
                }
                addr += PAGE_SIZE;
                t = t + 1;
            }
            proof {
                if start >= end {
                    assert(t == 0);
                }
            }
        }
    }

    /// Take one page of physical memory: the first free page of the first bitmap that has one.
    /// Requests larger than a page, or made before the manager is initialized, fail.
    pub fn allocate(&mut self, size: usize) -> (r: Result<MemoryBlock, AllocError>)
        requires
            old(self).wf(),
        ensures
            final(self).wf(),
            final(self).extra_mem == old(self).extra_mem,
            same_geometry(final(self).bms(), old(self).bms()),
            (old(self).bitmaps is None || size > PAGE_SIZE || forall|k: int, i: int| 0 <= k < old(self).bms().len() && 0 <= i < old(self).bms()[k]@.len() ==> !(#[trigger] old(self).bms()[k]@[i]))
                ==> r is Err && free_maps(final(self).bms()) == free_maps(old(self).bms()),
            r is Err ==> free_maps(final(self).bms()) == free_maps(old(self).bms()),
            r is Err && size <= PAGE_SIZE && old(self).bitmaps is Some ==> forall|k: int, i: int| 0 <= k < old(self).bms().len() && 0 <= i < old(self).bms()[k]@.len() ==> !(#[trigger] old(self).bms()[k]@[i]),
            r matches Ok(b) ==> exists|k: int, i: int| #[trigger] serves(old(self).bms(), k, i)
                && b == (MemoryBlock { addr: old(self).bms()[k].block_addr(i) as usize, len: PAGE_SIZE })
                && size <= PAGE_SIZE
                && free_maps(final(self).bms()) == free_maps(old(self).bms()).update(k, old(self).bms()[k]@.update(i, false)),
    {
        if size <= PAGE_SIZE {
            if let Some(mut bitmaps) = self.bitmaps.take() {
                let r = first_free_in(&mut bitmaps);
                self.bitmaps = Some(bitmaps);
                return r;
            }
        }
        Err(AllocError)
    }

    /// Return a page of physical memory: the first bitmap covering `ptr` marks its block free.
    pub fn deallocate(&mut self, ptr: usize)
        requires
            old(self).wf(),
        ensures
            final(self).wf(),
            final(self).extra_mem == old(self).extra_mem,
            same_geometry(final(self).bms(), old(self).bms()),
            old(self).bitmaps is None ==> final(self).bitmaps is None,
            free_maps(final(self).bms()) == set_page(old(self).bms(), free_maps(old(self).bms()), ptr, true),
    {
        if let Some(mut bitmaps) = self.bitmaps.take() {
            mark_in(&mut bitmaps, ptr, true);
            self.bitmaps = Some(bitmaps);
        }
    }

    /// Maps a new page of virtual memory from the kernel's bump allocator, returning its address.
    /// The page is never given back.
    pub fn get_complete_virtual_page(&mut self, mm: &mut BumpAllocator) -> (r: usize)
        requires
            old(mm).0.can_allocate(PAGE_SIZE, PAGE_SIZE),
        ensures
            r == old(mm).0.start_of_next(PAGE_SIZE),
            final(mm).0.end == old(mm).0.end_after(PAGE_SIZE, PAGE_SIZE),
            final(mm).0.start == old(mm).0.start,
    {
        proof {
            crate::bits::lemma_and_le((old(mm).0.end + 1) as usize, (PAGE_SIZE - 1) as usize);
        }
        let b = mm.allocate(PAGE_SIZE, PAGE_SIZE);
        match b {
            Ok(b) => b.addr,
            Err(_) => 0,
        }
    }

    /// The number of free pages over all bitmaps.
    pub fn total_free_pages(&self) -> (r: usize)
        requires
            self.wf(),
            total_free(self.bms()) <= usize::MAX,
        ensures
            r == total_free(self.bms()),
    {
        let mut total: usize = 0;
        if let Some(bitmaps) = &self.bitmaps {
            let mut i: usize = 0;
            while i < bitmaps.len()
                invariant
                    all_wf(bitmaps@),
                    i <= bitmaps@.len(),
                    total == total_free(bitmaps@.subrange(0, i as int)),
                    total_free(bitmaps@) <= usize::MAX,
                decreases bitmaps@.len() - i,
            {
                let c = bitmaps[i].num_free_blocks();
                proof {
                    assert(bitmaps@.subrange(0, i + 1).drop_last() =~= bitmaps@.subrange(0, i as int));
                    lemma_total_free_prefix(bitmaps@, i + 1);
                }
                total = total + c;
                i = i + 1;
            }
            assert(bitmaps@.subrange(0, bitmaps@.len() as int) =~= bitmaps@);
        }
        total
    }
}

/// The free maps after the block holding `addr` gets free state `free` in the first bitmap
/// covering it.
pub open spec fn set_page(bms: Seq<Bitmap>, maps: Seq<Seq<bool>>, addr: usize, free: bool) -> Seq<Seq<bool>> {
    let k = cover_index(bms, addr, 0);
    if k < bms.len() {
        maps.update(k, maps[k].update(bms[k].block_of(addr), free))
    } else {
        maps
    }
}

/// Marking a page depends on the geometry of the bitmaps alone.
pub proof fn lemma_set_page_geometry(a: Seq<Bitmap>, b: Seq<Bitmap>, maps: Seq<Seq<bool>>, addr: usize, free: bool)
    requires
        same_geometry(a, b),
    ensures
        set_page(a, maps, addr, free) == set_page(b, maps, addr, free),
{
    lemma_cover_index_geometry(a, b, addr, 0);
    lemma_cover_index(a, addr, 0);
    let k = cover_index(a, addr, 0);
    if k < a.len() {
        assert(a[k].start_addr() == b[k].start_addr());
        assert(a[k].block_of(addr) == b[k].block_of(addr));
    }
}

/// Give the block holding `addr` the free state `free` in the first bitmap covering it.
fn mark_in(bitmaps: &mut Vec<Bitmap>, addr: usize, free: bool)
    requires
        all_wf(old(bitmaps)@),
    ensures
        all_wf(final(bitmaps)@),
        same_geometry(final(bitmaps)@, old(bitmaps)@),
        free_maps(final(bitmaps)@) == set_page(old(bitmaps)@, free_maps(old(bitmaps)@), addr, free),
{
    let ghost bms0 = bitmaps@;
    proof {
        lemma_cover_index(bms0, addr, 0);
    }
    let mut i: usize = 0;
    while i < bitmaps.len()
        invariant
            bitmaps@ == bms0,
            bms0 == old(bitmaps)@,
            all_wf(bms0),
            i <= bms0.len(),
            forall|j: int| 0 <= j < i ==> !(#[trigger] bms0[j]).covers(addr),
            cover_index(bms0, addr, 0) >= i,
            cover_index(bms0, addr, 0) <= bms0.len(),
            cover_index(bms0, addr, 0) < bms0.len() ==> bms0[cover_index(bms0, addr, 0)].covers(addr),
            forall|j: int| 0 <= j < cover_index(bms0, addr, 0) ==> !(#[trigger] bms0[j]).covers(addr),
        decreases bms0.len() - i,
    {
        if bitmaps[i].page_exists(addr) {
            if free {
                bitmaps[i].return_block(addr);
            } else {
                bitmaps[i].steal_block(addr);
            }
            proof {
                assert(cover_index(bms0, addr, 0) == i);
                assert(free_maps(bitmaps@) =~= set_page(bms0, free_maps(bms0), addr, free));
                assert forall|k: int| 0 <= k < bitmaps@.len() implies (#[trigger] bitmaps@[k]).wf() by {
                    if k != i {
                        assert(bitmaps@[k] == bms0[k]);
                    }
                }
                assert forall|k: int| 0 <= k < bitmaps@.len() implies {
                    &&& (#[trigger] bitmaps@[k]).start_addr() == bms0[k].start_addr()
                    &&& bitmaps@[k].len() == bms0[k].len()
                    &&& bitmaps@[k].block_bytes() == bms0[k].block_bytes()
                    &&& bitmaps@[k].wf() == bms0[k].wf()
                } by {
                    if k != i {
                        assert(bitmaps@[k] == bms0[k]);
                    }
                }
            }
            return;
        }
        i = i + 1;
    }
    proof {
        assert(free_maps(bitmaps@) =~= set_page(bms0, free_maps(bms0), addr, free));
    }
}

/// Take the first free block of the first bitmap that has one.
fn first_free_in(bitmaps: &mut Vec<Bitmap>) -> (r: Result<MemoryBlock, AllocError>)
    requires
        all_wf(old(bitmaps)@),
    ensures
        all_wf(final(bitmaps)@),
        same_geometry(final(bitmaps)@, old(bitmaps)@),
        (forall|k: int, i: int| 0 <= k < old(bitmaps)@.len() && 0 <= i < old(bitmaps)@[k]@.len() ==> !(#[trigger] old(bitmaps)@[k]@[i]))
            ==> r is Err && free_maps(final(bitmaps)@) == free_maps(old(bitmaps)@),
        r is Err ==> free_maps(final(bitmaps)@) == free_maps(old(bitmaps)@),
        r is Err ==> forall|k: int, i: int| 0 <= k < old(bitmaps)@.len() && 0 <= i < old(bitmaps)@[k]@.len() ==> !(#[trigger] old(bitmaps)@[k]@[i]),
        r matches Ok(b) ==> exists|k: int, i: int| #[trigger] serves(old(bitmaps)@, k, i)
            && b == (MemoryBlock { addr: old(bitmaps)@[k].block_addr(i) as usize, len: PAGE_SIZE })
            && free_maps(final(bitmaps)@) == free_maps(old(bitmaps)@).update(k, old(bitmaps)@[k]@.update(i, false)),
{
    let ghost bms0 = bitmaps@;
    let mut k: usize = 0;
    while k < bitmaps.len()
        invariant
            bitmaps@ == bms0,
            bms0 == old(bitmaps)@,
            all_wf(bms0),
            k <= bms0.len(),
            forall|j: int, i: int| 0 <= j < k && 0 <= i < bms0[j]@.len() ==> !(#[trigger] bms0[j]@[i]),
        decreases bms0.len() - k,
    {
        let ghost bk = bitmaps@[k as int];
        let got = bitmaps[k].get_block();
        if let Some(d) = got {
            proof {
                let i = choose|i: int| is_first_free(bms0[k as int]@, i) && d == bms0[k as int].block_addr(i)
                    && bitmaps@[k as int]@ == bms0[k as int]@.update(i, false);
                assert(serves(bms0, k as int, i));
                assert(free_maps(bitmaps@) =~= free_maps(bms0).update(k as int, bms0[k as int]@.update(i, false)));
                assert forall|j: int| 0 <= j < bitmaps@.len() implies (#[trigger] bitmaps@[j]).wf() by {
                    if j != k {
                        assert(bitmaps@[j] == bms0[j]);
                    }
                }
                assert forall|j: int| 0 <= j < bitmaps@.len() implies {
                    &&& (#[trigger] bitmaps@[j]).start_addr() == bms0[j].start_addr()
                    &&& bitmaps@[j].len() == bms0[j].len()
                    &&& bitmaps@[j].block_bytes() == bms0[j].block_bytes()
                    &&& bitmaps@[j].wf() == bms0[j].wf()
                } by {
                    if j != k {
                        assert(bitmaps@[j] == bms0[j]);
                    }
                }
                assert(d == bms0[k as int].block_addr(i) as usize);
            }
            return Ok(MemoryBlock { addr: d, len: PAGE_SIZE });
        }
        proof {
            assert(bitmaps@[k as int]@ =~= bk@);
        }
        k = k + 1;
    }
    proof {
        assert(free_maps(bitmaps@) =~= free_maps(bms0));
    }
    Err(AllocError)
}

/// The allocation is served from block `i` of bitmap `k`: the first bitmap with a free block,
/// and its first free block.
pub open spec fn serves(bms: Seq<Bitmap>, k: int, i: int) -> bool {
    &&& 0 <= k < bms.len()
    &&& is_first_free(bms[k]@, i)
    &&& forall|j: int, b: int| 0 <= j < k && 0 <= b < bms[j]@.len() ==> !(#[trigger] bms[j]@[b])
}

/// A prefix of the bitmaps has no more free blocks than all of them.
pub proof fn lemma_total_free_prefix(bms: Seq<Bitmap>, i: int)
    requires
        0 <= i <= bms.len(),
    ensures
        total_free(bms.subrange(0, i)) <= total_free(bms),
    decreases bms.len() - i,
{
    if i < bms.len() {
        lemma_total_free_prefix(bms, i + 1);
        assert(bms.subrange(0, i + 1).drop_last() =~= bms.subrange(0, i));
    } else {
        assert(bms.subrange(0, i) =~= bms);
    }
}

/// The number of free blocks over all bitmaps.
pub open spec fn total_free(bms: Seq<Bitmap>) -> nat
    decreases bms.len(),
{
    if bms.len() == 0 {
        0
    } else {
        total_free(bms.drop_last()) + crate::bitmap::count_free(bms.last()@)
    }
}

/// The number of free blocks over free maps.
pub open spec fn maps_free(maps: Seq<Seq<bool>>) -> nat
    decreases maps.len(),
{
    if maps.len() == 0 {
        0
    } else {
        maps_free(maps.drop_last()) + crate::bitmap::count_free(maps.last())
    }
}

/// The number of free blocks of bitmaps is that of their free maps.
pub proof fn lemma_total_free_maps(bms: Seq<Bitmap>)
    ensures
        total_free(bms) == maps_free(free_maps(bms)),
    decreases bms.len(),
{
    if bms.len() > 0 {
        lemma_total_free_maps(bms.drop_last());
        assert(free_maps(bms.drop_last()) =~= free_maps(bms).drop_last());
    }
}

/// Marking a free block used takes one from the count.
pub proof fn lemma_count_free_take(map: Seq<bool>, i: int)
    requires
        0 <= i < map.len(),
        map[i],
    ensures
        crate::bitmap::count_free(map.update(i, false)) + 1 == crate::bitmap::count_free(map),
    decreases map.len(),
{
    if i == map.len() - 1 {
        assert(map.update(i, false).drop_last() =~= map.drop_last());
    } else {
        lemma_count_free_take(map.drop_last(), i);
        assert(map.update(i, false).drop_last() =~= map.drop_last().update(i, false));
    }
}

/// Marking a free block of one map used takes one from the count over all maps.
pub proof fn lemma_maps_free_take(maps: Seq<Seq<bool>>, k: int, i: int)
    requires
        0 <= k < maps.len(),
        0 <= i < maps[k].len(),
        maps[k][i],
    ensures
        maps_free(maps.update(k, maps[k].update(i, false))) + 1 == maps_free(maps),
    decreases maps.len(),
{
    let upd = maps.update(k, maps[k].update(i, false));
    if k == maps.len() - 1 {
        assert(upd.drop_last() =~= maps.drop_last());
        lemma_count_free_take(maps[k], i);
    } else {
        lemma_maps_free_take(maps.drop_last(), k, i);
        assert(upd.drop_last() =~= maps.drop_last().update(k, maps[k].update(i, false)));
    }
}

/// A map with a free block count above zero has a free block.
pub proof fn lemma_count_free_positive(map: Seq<bool>)
    requires
        crate::bitmap::count_free(map) > 0,
    ensures
        exists|i: int| 0 <= i < map.len() && map[i],
    decreases map.len(),
{
    if !map.last() {
        lemma_count_free_positive(map.drop_last());
        let i = choose|i: int| 0 <= i < map.drop_last().len() && map.drop_last()[i];
        assert(map[i]);
    } else {
        assert(map[map.len() - 1]);
    }
}

/// Maps with a free block count above zero have a free block.
pub proof fn lemma_maps_free_positive(maps: Seq<Seq<bool>>)
    requires
        maps_free(maps) > 0,
    ensures
        exists|k: int, i: int| 0 <= k < maps.len() && 0 <= i < maps[k].len() && maps[k][i],
    decreases maps.len(),
{
    if crate::bitmap::count_free(maps.last()) > 0 {
        lemma_count_free_positive(maps.last());
        let i = choose|i: int| 0 <= i < maps.last().len() && maps.last()[i];
        assert(maps[maps.len() - 1][i]);
    } else {
        lemma_maps_free_positive(maps.drop_last());
        let (k, i) = choose|k: int, i: int|
            0 <= k < maps.drop_last().len() && 0 <= i < maps.drop_last()[k].len()
                && maps.drop_last()[k][i];
        assert(maps[k][i]);
    }
}

impl SimpleMemoryManager {
    /// A manager with free pages counted above zero has a free page.
    pub proof fn lemma_free_page_from_count(&self)
        requires
            self.bitmaps is Some,
            total_free(self.bms()) > 0,
        ensures
            self.has_free_page(),
    {
        lemma_total_free_maps(self.bms());
        lemma_maps_free_positive(free_maps(self.bms()));
        let (k, i) = choose|k: int, i: int|
            0 <= k < free_maps(self.bms()).len() && 0 <= i < free_maps(self.bms())[k].len()
                && free_maps(self.bms())[k][i];
        assert(self.bms()[k]@[i]);
    }
}

/// Taking the page that the manager serves leaves one page fewer.
pub proof fn lemma_total_free_take(old: Seq<Bitmap>, new: Seq<Bitmap>, k: int, i: int)
    requires
        serves(old, k, i),
        free_maps(new) == free_maps(old).update(k, old[k]@.update(i, false)),
    ensures
        total_free(new) + 1 == total_free(old),
{
    lemma_total_free_maps(old);
    lemma_total_free_maps(new);
    lemma_maps_free_take(free_maps(old), k, i);
}

/// No address is covered by two of the bitmaps.
pub open spec fn disjoint_bitmaps(bms: Seq<Bitmap>) -> bool {
    forall|j: int, k: int, a: usize| #![trigger bms[j].covers(a), bms[k].covers(a)] 0 <= j < bms.len() && 0 <= k < bms.len() && j != k
        ==> !(bms[j].covers(a) && bms[k].covers(a))
}

/// Giving back the page that an allocation handed out restores the free maps, when no two
/// bitmaps cover the same memory.
pub proof fn lemma_deallocate_restores(bms: Seq<Bitmap>, k: int, i: int)
    requires
        all_wf(bms),
        disjoint_bitmaps(bms),
        serves(bms, k, i),
    ensures
        ({
            let addr = bms[k].block_addr(i) as usize;
            let after = free_maps(bms).update(k, bms[k]@.update(i, false));
            set_page(bms, after, addr, true) == free_maps(bms)
        }),
{
    let b = bms[k];
    let addr = b.block_addr(i) as usize;
    assert(b.wf());
    b.lemma_wf_facts();
    let bs = b.block_bytes() as int;
    assert(i < b.len());
    vstd::arithmetic::mul::lemma_mul_strict_inequality(i, b.len() as int, bs);
    vstd::arithmetic::mul::lemma_mul_is_commutative(i, bs);
    assert(b.covers(addr));
    vstd::arithmetic::div_mod::lemma_div_multiples_vanish(i, bs);
    assert(b.block_of(addr) == i);
    lemma_cover_index(bms, addr, 0);
    let c = cover_index(bms, addr, 0);
    if c != k {
        assert(c < k);
        assert(bms[c].covers(addr));
        assert(false);
    }
    let after = free_maps(bms).update(k, bms[k]@.update(i, false));
    assert(bms[k]@.update(i, false).update(i, true) =~= bms[k]@);
    assert(after[k] == bms[k]@.update(i, false));
    assert(after.update(k, bms[k]@) =~= free_maps(bms));
}

} // verus!
