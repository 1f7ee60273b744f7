//! An allocator that hands out blocks of one fixed size from a region of memory.

use vstd::prelude::*;
use crate::bits::{word_bit, word_bits, lemma_word_set_bit, lemma_word_clear_bit, lemma_zero_word, lemma_word_test_bit};
use crate::bitmap::{gbit, lemma_split_index, lemma_join_index, lemma_index_in_words, lemma_update_word};
use crate::{AllocError, MemoryBlock};
use vstd::arithmetic::mul::lemma_mul_inequality;

verus! {

/// Allocates memory of a fixed size
pub struct FixedSizeAllocator {
    /// The first address of the memory region covered by this allocator
    region_start: usize,
    /// The size of one block in bytes
    block_size: usize,
    /// The alignment of one block
    block_align: usize,
    /// Defines which blocks are used, one bit per block
    blocks_used: Vec<usize>,
    /// The number of blocks total
    number_of_blocks_total: usize,
    /// The number of free blocks
    num_free_blocks: usize,
}

/// Block `i` is the lowest unused block.
pub open spec fn is_first_unused(used: Seq<bool>, i: int) -> bool {
    &&& 0 <= i < used.len()
    &&& !used[i]
    &&& forall|j: int| 0 <= j < i ==> #[trigger] used[j]
}

impl FixedSizeAllocator {
    /// Which blocks are in use, by block index.
    pub closed spec fn view(&self) -> Seq<bool> {
        Seq::new(self.number_of_blocks_total as nat, |i: int| gbit(self.blocks_used@, i))
    }

    /// The words that hold one bit per block.
    pub closed spec fn words(&self) -> Seq<usize> {
        self.blocks_used@
    }

    /// The count of free blocks the allocator keeps.
    pub closed spec fn free_count(&self) -> nat {
        self.num_free_blocks as nat
    }

    /// The first address of the region.
    pub closed spec fn start(&self) -> usize {
        self.region_start
    }

    /// The size of a block.
    pub closed spec fn block_bytes(&self) -> nat {
        self.block_size as nat
    }

    /// The alignment of a block.
    pub closed spec fn block_alignment(&self) -> nat {
        self.block_align as nat
    }

    /// The address of block `i`.
    pub open spec fn block_addr(&self, i: int) -> int {
        self.start() + i * self.block_bytes()
    }

    /// The words hold one bit per block, no bit past the last block is set, and the region lies
    /// in the address space.
    pub closed spec fn wf(&self) -> bool {
        &&& self.block_size > 0
        &&& self.number_of_blocks_total + word_bits() <= usize::MAX
        &&& self.blocks_used@.len() * word_bits() >= self.number_of_blocks_total
        &&& self.blocks_used@.len() * word_bits() < self.number_of_blocks_total + word_bits()
        &&& self.region_start + self.number_of_blocks_total * self.block_size <= usize::MAX
        &&& forall|j: int| self.number_of_blocks_total <= j < self.blocks_used@.len() * word_bits() ==> !gbit(self.blocks_used@, j)
    }

    /// Construct a new allocator covering `num_blocks` blocks of `block_size` bytes (aligned to
    /// `block_align`) in the region of memory starting at `region_start`. All blocks start free.
    pub fn new(num_blocks: usize, block_size: usize, block_align: usize, region_start: usize) -> (r: Self)
        requires
            block_size > 0,
            num_blocks + usize::BITS <= usize::MAX,
            region_start + num_blocks * block_size <= usize::MAX,
        ensures
            r.wf(),
            r@ == Seq::new(num_blocks as nat, |i: int| false),
            r.free_count() == num_blocks,
            r.start() == region_start,
            r.block_bytes() == block_size,
            r.block_alignment() == block_align,
            r.words().len() == (num_blocks + word_bits() - 1) / word_bits(),
            forall|k: int| 0 <= k < r.words().len() ==> r.words()[k] == 0,
    {
        let numbits = usize::BITS as usize;
        let num_words = if num_blocks % numbits == 0 { num_blocks / numbits } else { num_blocks / numbits + 1 };
        proof {
            assert(numbits as int == word_bits());
            vstd::arithmetic::div_mod::lemma_fundamental_div_mod(num_blocks as int, numbits as int);
        }
        let mut blocks_used: Vec<usize> = Vec::with_capacity(num_words);
        let mut w: usize = 0;
        while w < num_words
            invariant
                w <= num_words,
                blocks_used@.len() == w,
                forall|k: int| 0 <= k < w ==> blocks_used@[k] == 0,
            decreases num_words - w,
        {
            blocks_used.push(0usize);
            w = w + 1;
        }
        proof {
            lemma_zero_word();
            assert forall|j: int| 0 <= j < blocks_used@.len() * word_bits() implies !gbit(blocks_used@, j) by {
                lemma_split_index(j);
                lemma_index_in_words(j, blocks_used@.len() as int);
            }
        }
        let r = Self {
            region_start,
            block_size,
            block_align,
            blocks_used,
            number_of_blocks_total: num_blocks,
            num_free_blocks: num_blocks,
        };
        assert(r@ =~= Seq::new(num_blocks as nat, |i: int| false));
        r
    }

    /// Allocate a block for `size` bytes aligned to `align`. It fails when the count of free
    /// blocks is zero, when the block alignment or size is too small, or when no block is free.
    /// Otherwise the lowest free block is handed out.
    pub fn run_allocation(&mut self, size: usize, align: usize) -> (r: Result<MemoryBlock, AllocError>)
        requires
            old(self).wf(),
        ensures
            final(self).wf(),
            final(self).start() == old(self).start(),
            final(self).block_bytes() == old(self).block_bytes(),
            final(self).block_alignment() == old(self).block_alignment(),
            (old(self).free_count() == 0 || old(self).block_alignment() < align || old(self).block_bytes() < size
                || forall|i: int| 0 <= i < old(self)@.len() ==> #[trigger] old(self)@[i]) ==> {
                &&& r is Err
                &&& final(self)@ == old(self)@
                &&& final(self).free_count() == old(self).free_count()
            },
            r is Err ==> final(self)@ == old(self)@ && final(self).free_count() == old(self).free_count(),
            old(self).free_count() > 0 && old(self).block_alignment() >= align && old(self).block_bytes()
                >= size && (exists|i: int| 0 <= i < old(self)@.len() && !#[trigger] old(self)@[i])
                ==> r is Ok,
            r matches Ok(b) ==> exists|i: int| #[trigger] is_first_unused(old(self)@, i)
                && b == (MemoryBlock { addr: old(self).block_addr(i) as usize, len: old(self).block_bytes() as usize })
                && final(self)@ == old(self)@.update(i, true)
                && old(self).free_count() > 0
                && old(self).block_alignment() >= align
                && old(self).block_bytes() >= size
                && final(self).free_count() == old(self).free_count() - 1,
    {
        if self.num_free_blocks == 0 {
            return Err(AllocError);
        }
        if self.block_align < align {
            return Err(AllocError);
        }
        if self.block_size < size {
            return Err(AllocError);
        }
        let bits = usize::BITS as usize;
        let mut i: usize = 0;
        while i < self.number_of_blocks_total
            invariant
                self.wf(),
                *self == *old(self),
                bits == usize::BITS,
                self.num_free_blocks > 0,
                self.block_align >= align,
                self.block_size >= size,
                i <= self.number_of_blocks_total,
                forall|j: int| 0 <= j < i ==> #[trigger] self@[j],
            decreases self.number_of_blocks_total - i,
        {
            let word = i / bits;
            let bit = i % bits;
            proof {
                assert(bits as int == word_bits());
                lemma_split_index(i as int);
                lemma_index_in_words(i as int, self.blocks_used@.len() as int);
                lemma_word_test_bit(self.blocks_used@[word as int], bit);
                assert(word as int * word_bits() + bit as int == i as int);
            }
            if (self.blocks_used[word] & (1usize << bit)) == 0 {
                let nw = self.blocks_used[word] | (1usize << bit);
                proof {
                    lemma_word_set_bit(self.blocks_used@[word as int], bit);
                    lemma_update_word(self.blocks_used@, word as int, bit as int, nw);
                }
                let ghost before = self.blocks_used@;
                self.blocks_used.set(word, nw);
                self.num_free_blocks = self.num_free_blocks - 1;
                proof {
                    assert forall|j: int| self.number_of_blocks_total <= j < self.blocks_used@.len() * word_bits() implies !gbit(self.blocks_used@, j) by {
                        assert(gbit(self.blocks_used@, j) == gbit(before, j));
                    }
                    assert(self@ =~= old(self)@.update(i as int, true));
                    assert(is_first_unused(old(self)@, i as int));
                    assert(!old(self)@[i as int]);
                    lemma_mul_inequality(i as int, self.number_of_blocks_total as int, self.block_size as int);
                }
                let b = MemoryBlock { addr: self.region_start + i * self.block_size, len: self.block_size };
                assert(b == (MemoryBlock { addr: old(self).block_addr(i as int) as usize, len: old(self).block_bytes() as usize }));
                return Ok(b);
            }
            i = i + 1;
        }
        Err(AllocError)
    }

    /// Deallocate the block holding `ptr`: when it is one of the blocks, it is marked unused and
    /// the count of free blocks goes up by one.
    pub fn run_deallocation(&mut self, ptr: usize)
        requires
            old(self).wf(),
            ptr >= old(self).start(),
            old(self).free_count() < usize::MAX,
        ensures
            final(self).wf(),
            final(self).start() == old(self).start(),
            final(self).block_bytes() == old(self).block_bytes(),
            final(self).block_alignment() == old(self).block_alignment(),
            ({
                let i = (ptr - old(self).start()) / (old(self).block_bytes() as int);
                &&& i < old(self)@.len() ==> final(self)@ == old(self)@.update(i, false) && final(self).free_count() == old(self).free_count() + 1
                &&& i >= old(self)@.len() ==> final(self)@ == old(self)@ && final(self).free_count() == old(self).free_count()
            }),
    {
        let offset = (ptr - self.region_start) / self.block_size;
        if offset < self.number_of_blocks_total {
            let bits = usize::BITS as usize;
            let word = offset / bits;
            let bit = offset % bits;
            proof {
                assert(bits as int == word_bits());
                lemma_split_index(offset as int);
                lemma_index_in_words(offset as int, self.blocks_used@.len() as int);
                assert(word as int * word_bits() + bit as int == offset as int);
                lemma_word_clear_bit(self.blocks_used@[word as int], bit);
            }
            let nw = self.blocks_used[word] & !(1usize << bit);
            proof {
                lemma_update_word(self.blocks_used@, word as int, bit as int, nw);
            }
            let ghost before = self.blocks_used@;
            self.blocks_used.set(word, nw);
            self.num_free_blocks += 1;
            proof {
                assert forall|j: int| self.number_of_blocks_total <= j < self.blocks_used@.len() * word_bits() implies !gbit(self.blocks_used@, j) by {
                    assert(gbit(self.blocks_used@, j) == gbit(before, j));
                }
                assert(self@ =~= old(self)@.update(offset as int, false));
            }
        }
    }
}

/// Deallocating the block an allocation handed out marks it unused again and gives back its
/// count: the allocator is as it was.
pub proof fn lemma_deallocate_restores(a: FixedSizeAllocator, i: int)
    requires
        a.wf(),
        is_first_unused(a@, i),
    ensures
        (a.block_addr(i) - a.start()) / (a.block_bytes() as int) == i,
        a@.update(i, true).update(i, false) == a@,
{
    let bs = a.block_bytes() as int;
    assert(bs > 0);
    vstd::arithmetic::div_mod::lemma_div_multiples_vanish(i, bs);
    vstd::arithmetic::mul::lemma_mul_is_commutative(i, bs);
    assert(a@.update(i, true).update(i, false) =~= a@);
}

/// Deallocating the block that an allocation handed out leaves the allocator as it was before
/// the allocation: the same blocks in use and the same count of free blocks. `a0` is the
/// allocator before `run_allocation` handed out block `i` at `b`, `a1` after it, and `a2` after
/// `run_deallocation` of the block's address.
pub proof fn lemma_allocate_then_deallocate(
    a0: FixedSizeAllocator,
    a1: FixedSizeAllocator,
    a2: FixedSizeAllocator,
    i: int,
    b: MemoryBlock,
)
    requires
        a0.wf(),
        is_first_unused(a0@, i),
        b == (MemoryBlock { addr: a0.block_addr(i) as usize, len: a0.block_bytes() as usize }),
        a1@ == a0@.update(i, true),
        a1.free_count() == a0.free_count() - 1,
        a1.start() == a0.start(),
        a1.block_bytes() == a0.block_bytes(),
        ({
            let j = (b.addr - a1.start()) / (a1.block_bytes() as int);
            &&& j < a1@.len() ==> a2@ == a1@.update(j, false) && a2.free_count() == a1.free_count() + 1
            &&& j >= a1@.len() ==> a2@ == a1@ && a2.free_count() == a1.free_count()
        }),
    ensures
        a2@ == a0@,
        a2.free_count() == a0.free_count(),
{
    lemma_deallocate_restores(a0, i);
    lemma_mul_inequality(i, a0.number_of_blocks_total as int, a0.block_size as int);
    assert(b.addr == a0.block_addr(i));
}

} // verus!
