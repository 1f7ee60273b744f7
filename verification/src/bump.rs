//! A bump allocator for the virtual memory address space of the kernel. It assumes it starts at
//! a given address and owns all memory after that point. While a page directory is attached it
//! maps 2 MiB pages into it as the allocated area grows.

use vstd::prelude::*;
use crate::paging64::PageTable;
use crate::{AllocError, MemoryBlock};

verus! {

/// The size of a large page mapped by the bump allocator.
pub const LARGE_PAGE_SIZE: usize = 0x200000;

/// The flags written for a large page: present, writable, page size.
pub const LARGE_PAGE_FLAGS: u64 = 0x83;

/// The number of recent allocations the bump allocator remembers.
pub const HISTORY_LEN: usize = 5;

/// An allocation made by the bump allocator. This is used to undo allocations
#[derive(Clone, Copy, Debug, PartialEq, Eq)]
pub struct BumpAllocation {
    /// The size of the allocation in bytes
    pub bumpsize: usize,
    /// The address of the allocation
    pub addr: usize,
}

/// The history after a new record is pushed to its front: the oldest record drops off.
pub open spec fn history_push(last: Seq<Option<BumpAllocation>>, x: Option<BumpAllocation>) -> Seq<Option<BumpAllocation>> {
    seq![x, last[0], last[1], last[2], last[3]]
}

/// The history after its front record is removed: an empty record comes in at the back.
pub open spec fn history_pop(last: Seq<Option<BumpAllocation>>) -> Seq<Option<BumpAllocation>> {
    seq![last[1], last[2], last[3], last[4], None]
}

/// Deallocating `ptr` undoes the newest remembered allocation.
pub open spec fn undoes(last: Seq<Option<BumpAllocation>>, ptr: usize) -> bool {
    last[0] is Some && last[0]->0.addr == ptr
}

/// The padding that moves `next` up to a multiple of `align`.
pub open spec fn bump_pad(next: usize, align: usize) -> int {
    let err = next & ((align - 1) as usize);
    if err > 0 { align - err } else { 0 }
}

/// The page directory after the allocated area grew from `old_end` to `new_end`: every large
/// page after the one holding `old_end`, up to the one holding `new_end`, is mapped to itself.
pub open spec fn pages_after_growth(entries: Seq<u64>, old_end: usize, new_end: usize) -> Seq<u64> {
    Seq::new(
        entries.len(),
        |k: int|
            if old_end / LARGE_PAGE_SIZE < k <= new_end / LARGE_PAGE_SIZE {
                ((k * LARGE_PAGE_SIZE) as u64) | LARGE_PAGE_FLAGS
            } else {
                entries[k]
            },
    )
}

/// A bump allocator for the virtual memory address space of the kernel.
pub struct BumpAllocatorInner {
    /// The start address for the memory allocation area used by the bump allocator
    pub start: usize,
    /// The last byte of memory currently allocated by the allocator
    pub end: usize,
    /// The last few allocations handed out by the bump allocator, newest first
    pub last: [Option<BumpAllocation>; 5],
    /// When present, the page directory that receives 2 MiB pages as the area grows
    pub allocate_pages: Option<PageTable>,
}

/// Rounding down to a large page is dividing by its size and multiplying back.
proof fn lemma_large_page_round(x: usize)
    ensures
        x & !0x1fffffusize == (x / LARGE_PAGE_SIZE) * LARGE_PAGE_SIZE,
        x & !0x1fffffusize <= x,
{
    assert(x & !0x1fffffusize == (x / 0x200000usize) * 0x200000usize) by (bit_vector);
    assert(x & !0x1fffffusize <= x) by (bit_vector);
}

impl BumpAllocatorInner {
    /// The end of the area after an allocation of `size` bytes aligned to `align`.
    pub open spec fn end_after(&self, size: usize, align: usize) -> int {
        self.end + bump_pad((self.end + 1) as usize, align) + size
    }

    /// Where an allocation of `size` bytes aligned to `align` starts.
    pub open spec fn start_of_next(&self, align: usize) -> int {
        self.end + 1 + bump_pad((self.end + 1) as usize, align)
    }

    /// An allocation of `size` bytes aligned to `align` is within what the allocator can do:
    /// no address computation overflows, and an attached page directory has room for every
    /// large page the area grows into.
    pub open spec fn can_allocate(&self, size: usize, align: usize) -> bool {
        &&& align > 0
        &&& self.end < usize::MAX
        &&& self.start_of_next(align) <= usize::MAX
        &&& self.end_after(size, align) <= usize::MAX
        &&& self.allocate_pages is Some ==> self.end_after(size, align) / (LARGE_PAGE_SIZE as int) < 512
    }

    /// An allocation of `size` bytes of memory not backed by ram, aligned to `alignment`, is
    /// within what the allocator can do: the space wasted before it and its size are sizes a
    /// layout can have, no address computation overflows, and an attached page directory has
    /// room for every large page the area grows into.
    pub open spec fn can_allocate_nonram(&self, size: usize, alignment: usize) -> bool {
        &&& size <= isize::MAX
        &&& self.can_allocate(size, alignment)
        &&& bump_pad((self.end + 1) as usize, alignment) <= isize::MAX
    }

    /// Create a new bump allocator, starting at the specified address
    pub fn new(addr: usize) -> (r: Self)
        ensures
            r.start == addr,
            r.end == addr,
            r.last@ == seq![None::<BumpAllocation>, None, None, None, None],
            r.allocate_pages is None,
    {
        let r = Self { start: addr, end: addr, last: [None, None, None, None, None], allocate_pages: None };
        assert(r.last@ =~= seq![None::<BumpAllocation>, None, None, None, None]);
        r
    }

    /// Peek at what the next issued address will start at
    pub fn peek(&mut self) -> (r: usize)
        requires
            old(self).end < usize::MAX,
        ensures
            r == old(self).end + 1,
            *final(self) == *old(self),
    {
        self.end + 1
    }

    /// Relocate the bump allocator to a new address, but only if no addresses are currently out
    pub fn relocate(&mut self, newstart: usize, newend: usize)
        requires
            old(self).start == old(self).end,
        ensures
            final(self).start == newstart,
            final(self).end == newend,
            final(self).last == old(self).last,
            final(self).allocate_pages == old(self).allocate_pages,
    {
        self.start = newstart;
        self.end = newend;
    }

    /// Indicates that the bump allocator should start allocating 2mb pages as required, into
    /// the given page directory.
    pub fn start_allocating(&mut self, pt: PageTable)
        ensures
            final(self).allocate_pages == Some(pt),
            final(self).start == old(self).start,
            final(self).end == old(self).end,
            final(self).last == old(self).last,
    {
        self.allocate_pages = Some(pt);
    }

    /// Indicates that the bump allocator should no longer allocate large pages. It will
    /// consider the current end to the end of the current large page (per `mask`) to be used.
    /// Returns the page directory that was attached.
    pub fn stop_allocating(&mut self, mask: usize) -> (r: Option<PageTable>)
        ensures
            r == old(self).allocate_pages,
            final(self).allocate_pages is None,
            old(self).end & mask != 0 ==> final(self).end == (old(self).end & !mask) + mask,
            old(self).end & mask == 0 ==> final(self).end == old(self).end,
            final(self).start == old(self).start,
            final(self).last == old(self).last,
    {
        let r = self.allocate_pages.take();
        let amount = self.end & mask;
        let base = self.end & !mask;
        if amount != 0 {
            let e = self.end;
            assert(((e & !mask) | mask) == (e & !mask) + mask) by (bit_vector);
            self.end = base + mask;
        }
        r
    }

    /// Add a bump allocation to self, returning both the old and new end addresses
    fn add_bump_allocation(&mut self, ba: BumpAllocation) -> (r: (usize, usize))
        requires
            old(self).end + ba.bumpsize <= usize::MAX,
        ensures
            final(self).last@ == history_push(old(self).last@, Some(ba)),
            final(self).end == old(self).end + ba.bumpsize,
            r == (old(self).end, final(self).end),
            final(self).start == old(self).start,
            final(self).allocate_pages == old(self).allocate_pages,
    {
        let mut i: usize = 4;
        while i > 0
            invariant
                0 <= i <= 4,
                self.end == old(self).end,
                self.start == old(self).start,
                self.allocate_pages == old(self).allocate_pages,
                forall|k: int| 0 <= k <= i ==> self.last@[k] == old(self).last@[k],
                forall|k: int| i < k < 5 ==> self.last@[k] == old(self).last@[k - 1],
            decreases i,
        {
            self.last[i] = self.last[i - 1];
            i = i - 1;
        }
        self.last[0] = Some(ba);
        assert(self.last@ =~= history_push(old(self).last@, Some(ba)));
        let old_end = self.end;
        self.end = self.end + ba.bumpsize;
        (old_end, self.end)
    }

    /// A fake allocation that just wastes space
    pub fn waste_space(&mut self, size: usize)
        requires
            size <= isize::MAX,
            old(self).end < usize::MAX,
            old(self).end + size <= usize::MAX,
        ensures
            final(self).end == old(self).end + size,
            final(self).last@ == history_push(old(self).last@, None),
            final(self).start == old(self).start,
            final(self).allocate_pages == old(self).allocate_pages,
    {
        let a = BumpAllocation { bumpsize: size, addr: self.end + 1 };
        self.add_bump_allocation(a);
        self.last[0] = None;
        assert(self.last@ =~= history_push(old(self).last@, None));
    }

    /// Map the large pages the area grew into when a page directory is attached.
    fn map_grown_pages(&mut self, old_end: usize, new_end: usize)
        requires
            old_end <= new_end,
            old(self).allocate_pages is Some ==> new_end / LARGE_PAGE_SIZE < 512,
        ensures
            final(self).start == old(self).start,
            final(self).end == old(self).end,
            final(self).last == old(self).last,
            old(self).allocate_pages is None ==> final(self).allocate_pages is None,
            old(self).allocate_pages matches Some(pt) ==> final(self).allocate_pages matches Some(npt)
                && npt.entries@ == pages_after_growth(pt.entries@, old_end, new_end),
    {
        if let Some(mut pa) = self.allocate_pages.take() {
            proof {
                lemma_large_page_round(old_end);
                lemma_large_page_round(new_end);
            }
            let ghost entries0 = pa.entries@;
            let mut oldpage = old_end & !0x1fffff;
            let newpage = new_end & !0x1fffff;
            proof {
                vstd::arithmetic::div_mod::lemma_div_is_ordered(old_end as int, new_end as int, LARGE_PAGE_SIZE as int);
            }
            while oldpage != newpage
                invariant
                    oldpage % LARGE_PAGE_SIZE == 0,
                    newpage == (new_end / LARGE_PAGE_SIZE) * LARGE_PAGE_SIZE,
                    old_end / LARGE_PAGE_SIZE <= oldpage / LARGE_PAGE_SIZE <= new_end / LARGE_PAGE_SIZE,
                    new_end / LARGE_PAGE_SIZE < 512,
                    entries0.len() == 512,
                    pa.entries@ == pages_after_growth(entries0, old_end, (oldpage / LARGE_PAGE_SIZE * LARGE_PAGE_SIZE) as usize),
                decreases newpage - oldpage,
            {
                let allpage = oldpage + 0x200000;
                let pageindex = allpage / 0x200000;
                pa.entries[pageindex] = allpage as u64 | 0x83;
                oldpage += 0x200000;
                assert(pa.entries@ =~= pages_after_growth(entries0, old_end, (oldpage / LARGE_PAGE_SIZE * LARGE_PAGE_SIZE) as usize));
            }
            assert(pa.entries@ =~= pages_after_growth(entries0, old_end, new_end));
            self.allocate_pages = Some(pa);
        }
    }

    /// Run an allocation of `size` bytes aligned to `align`
    pub fn run_allocation(&mut self, size: usize, align: usize) -> (r: Result<MemoryBlock, AllocError>)
        requires
            old(self).can_allocate(size, align),
        ensures
            r == Ok::<MemoryBlock, AllocError>(MemoryBlock { addr: old(self).start_of_next(align) as usize, len: size }),
            final(self).end == old(self).end_after(size, align),
            final(self).start == old(self).start,
            final(self).last@ == history_push(
                old(self).last@,
                Some(BumpAllocation { bumpsize: (bump_pad((old(self).end + 1) as usize, align) + size) as usize, addr: old(self).start_of_next(align) as usize }),
            ),
            old(self).allocate_pages is None ==> final(self).allocate_pages is None,
            old(self).allocate_pages matches Some(pt) ==> final(self).allocate_pages matches Some(npt)
                && npt.entries@ == pages_after_growth(pt.entries@, old(self).end, final(self).end),
    {
        let align_mask = align - 1;
        let align_error = (self.end + 1) & align_mask;
        proof {
            crate::bits::lemma_and_le((self.end + 1) as usize, align_mask);
        }
        let align_pad = if align_error > 0 { align - align_error } else { 0 };
        let bumpsize = size + align_pad;
        let allocstart = self.end + 1 + align_pad;
        let a = BumpAllocation { bumpsize, addr: allocstart };
        let (old_end, new_end) = self.add_bump_allocation(a);
        self.map_grown_pages(old_end, new_end);
        Ok(MemoryBlock { addr: allocstart, len: size })
    }

    /// Allocate some memory not backed by ram, normally used for allocating memory for memory
    /// mapped devices like pci bar space. Space is wasted first so that the allocation starts
    /// at a multiple of `alignment`.
    pub fn allocate_nonram_memory(&mut self, size: usize, alignment: usize) -> (r: Result<MemoryBlock, AllocError>)
        requires
            old(self).can_allocate_nonram(size, alignment),
        ensures
            ({
                let waste = bump_pad((old(self).end + 1) as usize, alignment);
                let addr = old(self).end + 1 + waste;
                &&& r == Ok::<MemoryBlock, AllocError>(MemoryBlock { addr: addr as usize, len: size })
                &&& final(self).end == old(self).end + waste + size
                &&& final(self).start == old(self).start
                &&& waste == 0 ==> final(self).last@ == history_push(old(self).last@, Some(BumpAllocation { bumpsize: size, addr: addr as usize }))
                &&& waste != 0 ==> final(self).last@ == history_push(history_push(old(self).last@, None), Some(BumpAllocation { bumpsize: size, addr: addr as usize }))
            }),
    {
        let p = self.peek();
        let start = (alignment - 1) & p;
        proof {
            crate::bits::lemma_and_le(p, (alignment - 1) as usize);
            assert(start == p & ((alignment - 1) as usize)) by (bit_vector)
                requires
                    start == ((alignment - 1) as usize) & p,
            ;
        }
        let waste = if start != 0 { alignment - start } else { 0 };
        if waste != 0 {
            self.waste_space(waste);
        }
        proof {
            let np = (self.end + 1) as usize;
            assert(np & 0usize == 0) by (bit_vector);
        }
        self.run_allocation(size, 1)
    }

    /// Run a deallocation: when `ptr` is the newest remembered allocation it is undone.
    pub fn run_deallocation(&mut self, ptr: usize)
        requires
            undoes(old(self).last@, ptr) ==> old(self).last@[0]->0.bumpsize <= old(self).end,
        ensures
            undoes(old(self).last@, ptr) ==> {
                &&& final(self).end == old(self).end - old(self).last@[0]->0.bumpsize
                &&& final(self).last@ == history_pop(old(self).last@)
            },
            !undoes(old(self).last@, ptr) ==> final(self).end == old(self).end && final(self).last == old(self).last,
            final(self).start == old(self).start,
            final(self).allocate_pages == old(self).allocate_pages,
    {
        if let Some(a) = self.last[0] {
            if a.addr == ptr {
                self.end = self.end - a.bumpsize;
                let mut i: usize = 1;
                while i < 5
                    invariant
                        1 <= i <= 5,
                        self.end == old(self).end - a.bumpsize,
                        self.start == old(self).start,
                        self.allocate_pages == old(self).allocate_pages,
                        forall|k: int| 0 <= k < i - 1 ==> self.last@[k] == old(self).last@[k + 1],
                        forall|k: int| i - 1 <= k < 5 ==> self.last@[k] == old(self).last@[k],
                    decreases 5 - i,
                {
                    self.last[i - 1] = self.last[i];
                    i = i + 1;
                }
                self.last[4] = None;
                assert(self.last@ =~= history_pop(old(self).last@));
            }
        }
    }
}

/// A bump allocator for the virtual memory address space of the kernel.
pub struct BumpAllocator(pub BumpAllocatorInner);

impl BumpAllocator {
    /// Create a new bump allocator, starting at the specified address
    pub fn new(addr: usize) -> (r: Self)
        ensures
            r.0.start == addr,
            r.0.end == addr,
            r.0.last@ == seq![None::<BumpAllocation>, None, None, None, None],
            r.0.allocate_pages is None,
    {
        Self(BumpAllocatorInner::new(addr))
    }

    /// Allocate some memory not backed by ram, normally used for allocating memory for memory
    /// mapped devices like pci bar space
    pub fn allocate_nonram_memory(&mut self, size: usize, alignment: usize) -> (r: Result<MemoryBlock, AllocError>)
        requires
            old(self).0.can_allocate_nonram(size, alignment),
        ensures
            ({
                let waste = bump_pad((old(self).0.end + 1) as usize, alignment);
                let addr = old(self).0.end + 1 + waste;
                &&& r == Ok::<MemoryBlock, AllocError>(MemoryBlock { addr: addr as usize, len: size })
                &&& final(self).0.end == old(self).0.end + waste + size
                &&& final(self).0.start == old(self).0.start
                &&& waste == 0 ==> final(self).0.last@ == history_push(old(self).0.last@, Some(BumpAllocation { bumpsize: size, addr: addr as usize }))
                &&& waste != 0 ==> final(self).0.last@ == history_push(history_push(old(self).0.last@, None), Some(BumpAllocation { bumpsize: size, addr: addr as usize }))
            }),
    {
        self.0.allocate_nonram_memory(size, alignment)
    }

    /// Deallocate memory allocated with [BumpAllocator::allocate_nonram_memory]
    pub fn deallocate_nonram_memory(&mut self, ptr: usize)
        requires
            undoes(old(self).0.last@, ptr) ==> old(self).0.last@[0]->0.bumpsize <= old(self).0.end,
        ensures
            undoes(old(self).0.last@, ptr) ==> {
                &&& final(self).0.end == old(self).0.end - old(self).0.last@[0]->0.bumpsize
                &&& final(self).0.last@ == history_pop(old(self).0.last@)
            },
            !undoes(old(self).0.last@, ptr) ==> final(self).0.end == old(self).0.end && final(self).0.last == old(self).0.last,
    {
        self.0.run_deallocation(ptr)
    }

    /// Relocate the bump allocator to a new address, but only if no addresses are currently out
    pub fn relocate(&mut self, newstart: usize, newend: usize)
        requires
            old(self).0.start == old(self).0.end,
        ensures
            final(self).0.start == newstart,
            final(self).0.end == newend,
            final(self).0.last == old(self).0.last,
            final(self).0.allocate_pages == old(self).0.allocate_pages,
    {
        self.0.relocate(newstart, newend)
    }

    /// Indicates that the bump allocator should start allocating 2mb pages as required
    pub fn start_allocating(&mut self, pt: PageTable)
        ensures
            final(self).0.allocate_pages == Some(pt),
            final(self).0.start == old(self).0.start,
            final(self).0.end == old(self).0.end,
            final(self).0.last == old(self).0.last,
    {
        self.0.start_allocating(pt)
    }

    /// Indicates that the bump allocator should no longer allocate large pages.
    /// It will consider the current end to the end of the current large page to automatically be used.
    pub fn stop_allocating(&mut self, mask: usize) -> (r: Option<PageTable>)
        ensures
            r == old(self).0.allocate_pages,
            final(self).0.allocate_pages is None,
            old(self).0.end & mask != 0 ==> final(self).0.end == (old(self).0.end & !mask) + mask,
            old(self).0.end & mask == 0 ==> final(self).0.end == old(self).0.end,
            final(self).0.start == old(self).0.start,
            final(self).0.last == old(self).0.last,
    {
        self.0.stop_allocating(mask)
    }

    /// Allocate `size` bytes aligned to `align`.
    pub fn allocate(&mut self, size: usize, align: usize) -> (r: Result<MemoryBlock, AllocError>)
        requires
            old(self).0.can_allocate(size, align),
        ensures
            r == Ok::<MemoryBlock, AllocError>(MemoryBlock { addr: old(self).0.start_of_next(align) as usize, len: size }),
            final(self).0.end == old(self).0.end_after(size, align),
            final(self).0.start == old(self).0.start,
    {
        self.0.run_allocation(size, align)
    }

    /// Give back the memory at `ptr`; only the newest remembered allocation is undone.
    pub fn deallocate(&mut self, ptr: usize)
        requires
            undoes(old(self).0.last@, ptr) ==> old(self).0.last@[0]->0.bumpsize <= old(self).0.end,
        ensures
            undoes(old(self).0.last@, ptr) ==> final(self).0.end == old(self).0.end - old(self).0.last@[0]->0.bumpsize,
            !undoes(old(self).0.last@, ptr) ==> final(self).0.end == old(self).0.end,
    {
        self.0.run_deallocation(ptr)
    }
}

/// A bump allocation starts at a multiple of its (power of two) alignment, after everything
/// allocated before, and the area ends exactly at its last byte.
pub proof fn lemma_bump_allocation_fresh(b: BumpAllocatorInner, size: usize, align: usize)
    requires
        b.can_allocate(size, align),
        crate::bits::is_pow2(align),
    ensures
        crate::bits::is_aligned(b.start_of_next(align) as usize, align),
        b.start_of_next(align) > b.end,
        b.start_of_next(align) + size == b.end_after(size, align) + 1,
{
    crate::bits::lemma_and_le((b.end + 1) as usize, (align - 1) as usize);
    crate::bits::lemma_pad_aligns((b.end + 1) as usize, align);
}

/// Deallocating the address of the newest allocation undoes it: the end of the area is back
/// where it was, the start is unchanged, and the history is the old one with its oldest record
/// forgotten. `b0` is the allocator before `run_allocation(size, align)` returned the block at
/// `addr`, `b1` after it, and `b2` after `run_deallocation(addr)`.
pub proof fn lemma_deallocate_undoes_allocate(
    b0: BumpAllocatorInner,
    b1: BumpAllocatorInner,
    b2: BumpAllocatorInner,
    size: usize,
    align: usize,
    addr: usize,
)
    requires
        b0.can_allocate(size, align),
        addr == b0.start_of_next(align) as usize,
        b1.end == b0.end_after(size, align),
        b1.start == b0.start,
        b1.last@ == history_push(
            b0.last@,
            Some(BumpAllocation { bumpsize: (bump_pad((b0.end + 1) as usize, align) + size) as usize, addr: b0.start_of_next(align) as usize }),
        ),
        undoes(b1.last@, addr) ==> {
            &&& b2.end == b1.end - b1.last@[0]->0.bumpsize
            &&& b2.last@ == history_pop(b1.last@)
        },
        !undoes(b1.last@, addr) ==> b2.end == b1.end && b2.last == b1.last,
        b2.start == b1.start,
    ensures
        undoes(b1.last@, addr),
        b1.last@[0]->0.bumpsize <= b1.end,
        b2.end == b0.end,
        b2.start == b0.start,
        b2.last@ == b0.last@.update(4, None),
{
    crate::bits::lemma_and_le((b0.end + 1) as usize, (align - 1) as usize);
    assert(history_pop(b1.last@) =~= b0.last@.update(4, None));
}

/// What `peek` gives is where the next allocation with an alignment of one starts: `q` is what
/// `peek` returned on `b`, and `addr` the address `run_allocation(size, 1)` then hands out.
pub proof fn lemma_peek_is_next_start(b: BumpAllocatorInner, q: usize, size: usize, addr: usize)
    requires
        b.can_allocate(size, 1),
        q == b.end + 1,
        addr == b.start_of_next(1) as usize,
    ensures
        addr == q,
{
    let x = (b.end + 1) as usize;
    assert(x & 0usize == 0) by (bit_vector);
}

} // verus!
