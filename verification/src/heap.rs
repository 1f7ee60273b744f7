//! A best-fit free-list heap, as used by the kernel on the 32-bit arm boards.
//!
//! Each of the (up to three) heap areas holds a list of free nodes. A node is a chunk of free
//! memory described by its start address and its size in bytes (the size includes the node
//! header that the kernel keeps at the start of the chunk).

use vstd::prelude::*;
use crate::text::{hex, push_hex};

verus! {

/// Size in bytes of a free-list node header on the 32-bit target (a next pointer and a size).
pub const HEAP_NODE_SIZE: usize = 8;

/// The required alignment for nodes and allocations: the node size rounded up to a power of two.
pub const NODEALIGN: usize = 8;

/// The number of heap areas a heap manager keeps.
pub const NUM_HEAPS: usize = 3;

/// A node of free memory for the heap.
#[derive(Clone, Copy, Debug, PartialEq, Eq)]
pub struct HeapNode {
    /// The address of the first byte of the free chunk
    pub start: usize,
    /// The size of this node, including the size of the node header
    pub size: usize,
}

/// Calculations about how a node can hold a chunk of memory.
#[derive(Clone, Copy, Debug, PartialEq, Eq)]
pub struct HeapNodeAlign {
    /// The total size needed to fulfill the desired memory allocation
    pub size_needed: usize,
    /// The number of bytes of padding between the start of the node and the start of the allocation
    pub pre_align: usize,
    /// The number of bytes at the end of the allocation to meet alignment for node size
    pub post_align: usize,
}

/// The padding needed before `start` to reach a multiple of `align`.
pub open spec fn align_pad(start: usize, align: usize) -> int {
    let err = start & ((align - 1) as usize);
    if err != 0 { align - err } else { 0 }
}

/// The padding needed after `end` to reach a multiple of the node alignment.
pub open spec fn post_pad(end: int) -> int {
    let err = end % (NODEALIGN as int);
    if err != 0 { NODEALIGN - err } else { 0 }
}

/// The number of bytes a node starting at `start` gives up for an allocation of `size`
/// bytes aligned to `align`: the front padding, the allocation, and the padding that keeps
/// the rest of the node aligned.
pub open spec fn needed(start: usize, size: usize, align: usize) -> int {
    align_pad(start, align) + size + post_pad(start + align_pad(start, align) + size)
}

/// Can the node hold an allocation of `size` bytes aligned to `align`?
pub open spec fn fits(node: HeapNode, size: usize, align: usize) -> bool {
    needed(node.start, size, align) <= node.size
}

/// Node `i` is the best fit of the list: it fits, no fitting node is smaller, and every
/// fitting node before it is strictly larger (the first of the smallest fitting nodes).
pub open spec fn is_best_fit(list: Seq<HeapNode>, i: int, size: usize, align: usize) -> bool {
    &&& 0 <= i < list.len()
    &&& fits(list[i], size, align)
    &&& forall|j: int| 0 <= j < list.len() && fits(#[trigger] list[j], size, align) ==> list[i].size <= list[j].size
    &&& forall|j: int| 0 <= j < i && fits(#[trigger] list[j], size, align) ==> list[i].size < list[j].size
}

/// Some node of the list can hold the allocation.
pub open spec fn has_fit(list: Seq<HeapNode>, size: usize, align: usize) -> bool {
    exists|j: int| 0 <= j < list.len() && fits(#[trigger] list[j], size, align)
}

/// The allocation is served from node `i` of heap `h`: the first heap with a fitting node,
/// and the best fit within it.
pub open spec fn is_chosen(heaps: Seq<Seq<HeapNode>>, h: int, i: int, size: usize, align: usize) -> bool {
    &&& 0 <= h < heaps.len()
    &&& is_best_fit(heaps[h], i, size, align)
    &&& forall|g: int| 0 <= g < h ==> !has_fit(#[trigger] heaps[g], size, align)
}

/// The free list after node `i` gives up `used` bytes from its front: the node leaves the
/// list when what remains could not hold a node header, else it shrinks in place.
pub open spec fn list_after_alloc(list: Seq<HeapNode>, i: int, used: int) -> Seq<HeapNode> {
    if list[i].size - used < HEAP_NODE_SIZE {
        list.remove(i)
    } else {
        list.update(i, HeapNode { start: (list[i].start + used) as usize, size: (list[i].size - used) as usize })
    }
}

/// The exclusive end of a node.
pub open spec fn node_end(node: HeapNode) -> int {
    node.start + node.size
}

impl HeapNode {
    /// The node lies inside the address space.
    pub open spec fn wf(self) -> bool {
        self.start + self.size <= usize::MAX
    }

    /// Return the address that is immediately after this block of memory
    pub fn next_address(&self) -> (r: usize)
        requires
            self.wf(),
        ensures
            r == self.start + self.size,
    {
        self.start + self.size
    }

    /// Return the start address of this free block
    pub fn start(&self) -> (r: usize)
        ensures
            r == self.start,
    {
        self.start
    }

    /// Create a heap node at the specified location for a chunk of `size` bytes, rounding the
    /// size up to the node alignment.
    pub fn with_ptr(ptr: usize, size: usize) -> (r: HeapNode)
        requires
            size + NODEALIGN <= usize::MAX,
        ensures
            r.start == ptr,
            r.size == size + post_pad(size as int),
            r.size % NODEALIGN == 0,
            size <= r.size < size + NODEALIGN,
    {
        let err = size % NODEALIGN;
        let s = if err != 0 { size + NODEALIGN - err } else { size };
        HeapNode { start: ptr, size: s }
    }

    /// Calculate the alignment properties of an allocation for this node.
    /// This fits a chunk of memory of size bytes and align alignment.
    pub fn calc_alignment(&self, size: usize, align: usize) -> (r: HeapNodeAlign)
        requires
            align > 0,
            self.start + align + size + NODEALIGN <= usize::MAX,
        ensures
            r.pre_align == align_pad(self.start, align),
            r.size_needed == needed(self.start, size, align),
            r.post_align == post_pad(self.start + r.pre_align + size),
            r.size_needed == r.pre_align + size + r.post_align,
            r.pre_align < align,
    {
        let align_mask = align - 1;
        let align_err = self.start & align_mask;
        proof {
            crate::bits::lemma_and_le(self.start, align_mask);
        }
        let align_pad = if align_err != 0 { align - align_err } else { 0 };
        let size_needed = align_pad + size;
        let posterr = (self.start + align_pad + size) % NODEALIGN;
        let postpad = if posterr != 0 { NODEALIGN - posterr } else { 0 };
        HeapNodeAlign { size_needed: size_needed + postpad, pre_align: align_pad, post_align: postpad }
    }
}

/// The line the heap report gives for one free node: its size and its last address, in
/// hexadecimal.
pub open spec fn heap_node_line(n: HeapNode) -> Seq<char> {
    "heap node is size "@ + hex(n.size as nat) + " "@ + hex((node_end(n) - 1) as nat) + "\r\n"@
}

/// The lines for the nodes of a free list, in list order.
pub open spec fn heap_nodes_text(l: Seq<HeapNode>) -> Seq<char>
    decreases l.len(),
{
    if l.len() == 0 {
        Seq::empty()
    } else {
        heap_nodes_text(l.drop_last()) + heap_node_line(l.last())
    }
}

/// The report for one heap area: where its list starts and a line per node, or that it is
/// empty.
pub open spec fn heap_area_text(l: Seq<HeapNode>) -> Seq<char> {
    if l.len() == 0 {
        "Heap is empty\r\n"@
    } else {
        "head: 0x"@ + hex(l[0].start as nat) + "\r\n"@ + heap_nodes_text(l)
    }
}

/// The report for all heap areas, in order.
pub open spec fn heap_report(heaps: Seq<Seq<HeapNode>>) -> Seq<char>
    decreases heaps.len(),
{
    if heaps.len() == 0 {
        Seq::empty()
    } else {
        heap_report(heaps.drop_last()) + heap_area_text(heaps.last())
    }
}

/// The heap manager for the system: up to three areas of memory, each with its own free list.
pub struct HeapManager {
    /// The free lists, one per heap area, each in list order
    heaps: Vec<Vec<HeapNode>>,
}

/// Every node of every list lies inside the address space.
pub open spec fn heaps_wf(heaps: Seq<Seq<HeapNode>>) -> bool {
    &&& heaps.len() == NUM_HEAPS
    &&& forall|h: int, i: int| 0 <= h < heaps.len() && 0 <= i < heaps[h].len() ==> (#[trigger] heaps[h][i]).wf()
}

/// No address computation for an allocation of `size` aligned to `align` overflows.
pub open spec fn heaps_room(heaps: Seq<Seq<HeapNode>>, size: usize, align: usize) -> bool {
    forall|h: int, i: int| 0 <= h < heaps.len() && 0 <= i < heaps[h].len()
        ==> (#[trigger] heaps[h][i]).start + align + size + NODEALIGN <= usize::MAX
}

/// The chosen node, if any, needs less front padding than a node header (the case the
/// heap manager handles).
pub open spec fn alloc_supported(heaps: Seq<Seq<HeapNode>>, size: usize, align: usize) -> bool {
    forall|h: int, i: int| is_chosen(heaps, h, i, size, align)
        ==> align_pad(heaps[h][i].start, align) < HEAP_NODE_SIZE
}

impl HeapManager {
    /// The free lists of the heap areas.
    pub closed spec fn view(&self) -> Seq<Seq<HeapNode>> {
        Seq::new(self.heaps@.len(), |h: int| self.heaps@[h]@)
    }

    /// The manager holds exactly three heap areas of well formed nodes.
    pub closed spec fn wf(&self) -> bool {
        heaps_wf(self@)
    }

    /// Create a heap manager with three empty heap areas.
    pub fn new() -> (r: Self)
        ensures
            r.wf(),
            r@ == seq![Seq::<HeapNode>::empty(), Seq::<HeapNode>::empty(), Seq::<HeapNode>::empty()],
    {
        let mut heaps: Vec<Vec<HeapNode>> = Vec::new();
        heaps.push(Vec::new());
        heaps.push(Vec::new());
        heaps.push(Vec::new());
        let r = HeapManager { heaps };
        assert(r@ =~= seq![Seq::<HeapNode>::empty(), Seq::<HeapNode>::empty(), Seq::<HeapNode>::empty()]);
        r
    }

    /// Initialize heap area `i` with the memory at `addr` of `size` bytes. Nothing happens when
    /// the area already holds memory.
    pub fn init(&mut self, i: usize, addr: usize, size: usize)
        requires
            old(self).wf(),
            i < NUM_HEAPS,
            addr + size <= usize::MAX,
        ensures
            final(self).wf(),
            old(self)@[i as int].len() == 0 ==> final(self)@ == old(self)@.update(i as int, seq![HeapNode { start: addr, size }]),
            old(self)@[i as int].len() != 0 ==> final(self)@ == old(self)@,
    {
        if self.heaps[i].len() == 0 {
            let mut list: Vec<HeapNode> = Vec::new();
            list.push(HeapNode { start: addr, size });
            self.heaps.set(i, list);
            assert(self@ =~= old(self)@.update(i as int, seq![HeapNode { start: addr, size }]));
        } else {
            assert(self@ =~= old(self)@);
        }
    }

    /// The free list of heap area `i`.
    pub fn free_nodes(&self, i: usize) -> (r: &Vec<HeapNode>)
        requires
            self.wf(),
            i < NUM_HEAPS,
        ensures
            r@ == self@[i as int],
    {
        &self.heaps[i]
    }

    /// Find the best fitting node of one free list.
    fn best_fit(list: &Vec<HeapNode>, size: usize, align: usize) -> (r: Option<usize>)
        requires
            align > 0,
            forall|i: int| 0 <= i < list@.len() ==> (#[trigger] list@[i]).start + align + size + NODEALIGN <= usize::MAX,
        ensures
            r is None ==> !has_fit(list@, size, align),
            r matches Some(b) ==> is_best_fit(list@, b as int, size, align),
    {
        let mut best: Option<usize> = None;
        let mut j: usize = 0;
        while j < list.len()
            invariant
                align > 0,
                j <= list@.len(),
                forall|i: int| 0 <= i < list@.len() ==> (#[trigger] list@[i]).start + align + size + NODEALIGN <= usize::MAX,
                best is None ==> forall|k: int| 0 <= k < j ==> !fits(#[trigger] list@[k], size, align),
                best matches Some(b) ==> {
                    &&& b < j
                    &&& fits(list@[b as int], size, align)
                    &&& forall|k: int| 0 <= k < j && fits(#[trigger] list@[k], size, align) ==> list@[b as int].size <= list@[k].size
                    &&& forall|k: int| 0 <= k < b && fits(#[trigger] list@[k], size, align) ==> list@[b as int].size < list@[k].size
                },
            decreases list@.len() - j,
        {
            let node = &list[j];
            let ha = node.calc_alignment(size, align);
            if ha.size_needed <= node.size {
                match best {
                    None => {
                        best = Some(j);
                    },
                    Some(b) => {
                        if node.size < list[b].size {
                            best = Some(j);
                        }
                    },
                }
            }
            j = j + 1;
        }
        proof {
            if best is None {
                assert forall|k: int| 0 <= k < list@.len() implies !fits(#[trigger] list@[k], size, align) by {}
            }
        }
        best
    }

    /// Perform an allocation of `size` bytes aligned to `align`, returning the address of the
    /// allocation, or 0 when no heap area has a free node that can hold it. The first heap area
    /// with a fitting node serves the allocation from its best fitting node.
    pub fn run_alloc(&mut self, size: usize, align: usize) -> (r: usize)
        requires
            old(self).wf(),
            align > 0,
            heaps_room(old(self)@, size, align),
            alloc_supported(old(self)@, size, align),
        ensures
            final(self).wf(),
            (forall|h: int| 0 <= h < NUM_HEAPS ==> !has_fit(#[trigger] old(self)@[h], size, align)) ==> {
                &&& r == 0
                &&& final(self)@ == old(self)@
            },
            (exists|h: int| 0 <= h < NUM_HEAPS && has_fit(#[trigger] old(self)@[h], size, align))
                ==> exists|h: int, i: int| is_chosen(old(self)@, h, i, size, align),
            forall|h: int, i: int| #[trigger] is_chosen(old(self)@, h, i, size, align) ==> {
                &&& r == old(self)@[h][i].start + align_pad(old(self)@[h][i].start, align)
                &&& final(self)@ == old(self)@.update(h, list_after_alloc(old(self)@[h], i, needed(old(self)@[h][i].start, size, align)))
            },
    {
        let ghost old_heaps = self@;
        let mut h: usize = 0;
        while h < NUM_HEAPS
            invariant
                self.wf(),
                self@ == old_heaps,
                old(self)@ == old_heaps,
                h <= NUM_HEAPS,
                align > 0,
                heaps_room(old_heaps, size, align),
                alloc_supported(old_heaps, size, align),
                forall|g: int| 0 <= g < h ==> !has_fit(#[trigger] old_heaps[g], size, align),
            decreases NUM_HEAPS - h,
        {
            assert(self.heaps@[h as int]@ == old_heaps[h as int]);
            let found = Self::best_fit(&self.heaps[h], size, align);
            if let Some(b) = found {
                let node = self.heaps[h][b];
                assert(node == old_heaps[h as int][b as int]);
                let ha = node.calc_alignment(size, align);
                assert(is_chosen(old_heaps, h as int, b as int, size, align));
                let retval = node.start + ha.pre_align;
                let ghost new_list = list_after_alloc(old_heaps[h as int], b as int, ha.size_needed as int);
                let mut list = self.heaps[h].clone();
                assert(list@ =~= old_heaps[h as int]);
                if node.size - ha.size_needed < HEAP_NODE_SIZE {
                    list.remove(b);
                } else {
                    list.set(b, HeapNode { start: node.start + ha.size_needed, size: node.size - ha.size_needed });
                }
                assert(list@ =~= new_list);
                self.heaps.set(h, list);
                proof {
                    assert(fits(old_heaps[h as int][b as int], size, align));
                    assert(has_fit(old_heaps[h as int], size, align));
                    assert(self@ =~= old_heaps.update(h as int, new_list));
                    assert forall|g: int, i: int| #[trigger] is_chosen(old_heaps, g, i, size, align) implies g == h && i == b by {
                        if g < h {
                        } else if g > h {
                            assert(fits(old_heaps[h as int][b as int], size, align));
                        } else {
                            if i < b {
                                assert(fits(old_heaps[h as int][i], size, align));
                            } else if i > b {
                                assert(fits(old_heaps[h as int][i], size, align));
                            }
                        }
                    }
                    assert forall|g: int, i: int| 0 <= g < self@.len() && 0 <= i < self@[g].len() implies (#[trigger] self@[g][i]).wf() by {
                        if g == h {
                            if node.size - ha.size_needed < HEAP_NODE_SIZE {
                                if i < b {
                                    assert(self@[g][i] == old_heaps[g][i]);
                                } else {
                                    assert(self@[g][i] == old_heaps[g][i + 1]);
                                }
                            } else if i != b {
                                assert(self@[g][i] == old_heaps[g][i]);
                            }
                        } else {
                            assert(self@[g][i] == old_heaps[g][i]);
                        }
                    }
                }
                return retval;
            }
            h = h + 1;
        }
        0
    }

    /// Allocate memory for a layout of `size` bytes aligned to `align`; the alignment is raised
    /// to at least the node alignment first.
    pub fn allocate(&mut self, size: usize, align: usize) -> (r: usize)
        requires
            old(self).wf(),
            align > 0,
            heaps_room(old(self)@, size, if align < NODEALIGN { NODEALIGN } else { align }),
            alloc_supported(old(self)@, size, if align < NODEALIGN { NODEALIGN } else { align }),
        ensures
            final(self).wf(),
            ({
                let a = if align < NODEALIGN { NODEALIGN } else { align };
                &&& (forall|h: int| 0 <= h < NUM_HEAPS ==> !has_fit(#[trigger] old(self)@[h], size, a)) ==> r == 0 && final(self)@ == old(self)@
                &&& forall|h: int, i: int| #[trigger] is_chosen(old(self)@, h, i, size, a) ==> {
                    &&& r == old(self)@[h][i].start + align_pad(old(self)@[h][i].start, a)
                    &&& final(self)@ == old(self)@.update(h, list_after_alloc(old(self)@[h], i, needed(old(self)@[h][i].start, size, a)))
                }
            }),
    {
        let a = if align < NODEALIGN { NODEALIGN } else { align };
        self.run_alloc(size, a)
    }

    /// The details of the heap, as the lines the kernel prints for them: for each area the
    /// address of its first node and each node's size and last address, or that it is empty.
    /// A node must not end at address zero (its last address would be below zero).
    pub fn print(&self) -> (r: String)
        requires
            self.wf(),
            forall|h: int, i: int| 0 <= h < self@.len() && 0 <= i < self@[h].len() ==> node_end(#[trigger] self@[h][i]) > 0,
        ensures
            r@ == heap_report(self@),
    {
        let mut out = String::new();
        let mut h: usize = 0;
        while h < self.heaps.len()
            invariant
                h <= self.heaps.len(),
                self.wf(),
                forall|g: int, i: int| 0 <= g < self@.len() && 0 <= i < self@[g].len() ==> node_end(#[trigger] self@[g][i]) > 0,
                out@ == heap_report(self@.take(h as int)),
            decreases self.heaps.len() - h,
        {
            let list = &self.heaps[h];
            assert(self@[h as int] == list@);
            let ghost before = out@;
            if list.len() == 0 {
                out.append("Heap is empty\r\n");
            } else {
                out.append("head: 0x");
                push_hex(&mut out, list[0].start as u64);
                out.append("\r\n");
                let ghost head = out@;
                let mut i: usize = 0;
                while i < list.len()
                    invariant
                        i <= list.len(),
                        list@ == self@[h as int],
                        self.wf(),
                        h < self@.len(),
                        forall|g: int, j: int| 0 <= g < self@.len() && 0 <= j < self@[g].len() ==> node_end(#[trigger] self@[g][j]) > 0,
                        out@ == head + heap_nodes_text(list@.take(i as int)),
                    decreases list.len() - i,
                {
                    let n = list[i];
                    assert(self@[h as int][i as int] == n);
                    assert(n.wf());
                    assert(node_end(n) > 0);
                    out.append("heap node is size ");
                    push_hex(&mut out, n.size as u64);
                    out.append(" ");
                    push_hex(&mut out, (n.next_address() - 1) as u64);
                    out.append("\r\n");
                    assert(list@.take(i + 1).drop_last() =~= list@.take(i as int));
                    assert(out@ =~= head + heap_nodes_text(list@.take(i + 1)));
                    i = i + 1;
                }
                assert(list@.take(i as int) =~= list@);
            }
            assert(self@.take(h + 1).drop_last() =~= self@.take(h as int));
            assert(out@ =~= heap_report(self@.take(h + 1)));
            h = h + 1;
        }
        assert(self@.take(h as int) =~= self@);
        out
    }

    /// Perform a deallocation. Freed memory is not returned to the free lists, so the heap is
    /// left as it is.
    pub fn run_dealloc(&mut self, _ptr: usize, _size: usize)
        ensures
            final(self)@ == old(self)@,
    {
    }
}

/// An allocation served by the heap starts at a multiple of its (power of two) alignment.
pub proof fn lemma_allocation_aligned(heaps: Seq<Seq<HeapNode>>, h: int, i: int, size: usize, align: usize)
    requires
        heaps_wf(heaps),
        heaps_room(heaps, size, align),
        crate::bits::is_pow2(align),
        is_chosen(heaps, h, i, size, align),
    ensures
        crate::bits::is_aligned((heaps[h][i].start + align_pad(heaps[h][i].start, align)) as usize, align),
{
    let start = heaps[h][i].start;
    crate::bits::lemma_pad_aligns(start, align);
}

/// An allocation served by the heap lies inside the node it came from, and ends no later than
/// where the part of the node that stays free begins.
pub proof fn lemma_allocation_inside_node(heaps: Seq<Seq<HeapNode>>, h: int, i: int, size: usize, align: usize)
    requires
        heaps_wf(heaps),
        align > 0,
        is_chosen(heaps, h, i, size, align),
    ensures
        ({
            let node = heaps[h][i];
            let r = node.start + align_pad(node.start, align);
            let used = needed(node.start, size, align);
            &&& node.start <= r
            &&& r + size <= node.start + used
            &&& node.start + used <= node_end(node)
            &&& list_after_alloc(heaps[h], i, used).len() == heaps[h].len() ==> list_after_alloc(heaps[h], i, used)[i].start == node.start + used
            &&& list_after_alloc(heaps[h], i, used).len() == heaps[h].len() ==> node_end(list_after_alloc(heaps[h], i, used)[i]) == node_end(node)
        }),
{
    let node = heaps[h][i];
    crate::bits::lemma_and_le(node.start, (align - 1) as usize);
}

} // verus!
