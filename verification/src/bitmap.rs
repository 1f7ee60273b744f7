//! Bitmaps of free blocks, and the simple physical memory manager built from them.

use vstd::prelude::*;
use vstd::arithmetic::div_mod::{lemma_fundamental_div_mod, lemma_fundamental_div_mod_converse};
use vstd::arithmetic::mul::{lemma_mul_inequality, lemma_mul_is_distributive_add_other_way};
use crate::bits::{word_bit, word_bits, lemma_word_set_bit, lemma_word_clear_bit, lemma_zero_word, lemma_word_test_bit, lemma_word_scan};
use crate::bump::BumpAllocator;
use crate::{AllocError, MemoryBlock};

verus! {

/// The size of a physical memory page.
pub const PAGE_SIZE: usize = 4096;

/// Bit `j` of a sequence of words, counting from bit 0 of the first word.
pub open spec fn gbit(words: Seq<usize>, j: int) -> bool {
    word_bit(words[j / word_bits()], j % word_bits())
}

/// Splitting a bit position into its word and its bit within the word.
pub proof fn lemma_split_index(j: int)
    requires
        j >= 0,
    ensures
        j == (j / word_bits()) * word_bits() + j % word_bits(),
        0 <= j % word_bits() < word_bits(),
        j / word_bits() >= 0,
{
    lemma_fundamental_div_mod(j, word_bits());
}

/// A word and a bit within it name one bit position.
pub proof fn lemma_join_index(k: int, b: int)
    requires
        k >= 0,
        0 <= b < word_bits(),
    ensures
        (k * word_bits() + b) / word_bits() == k,
        (k * word_bits() + b) % word_bits() == b,
{
    lemma_fundamental_div_mod_converse(k * word_bits() + b, word_bits(), k, b);
}

/// A bit position below `len` words lies in one of those words.
pub proof fn lemma_index_in_words(j: int, len: int)
    requires
        0 <= j < len * word_bits(),
    ensures
        j / word_bits() < len,
{
    lemma_split_index(j);
    if j / word_bits() >= len {
        lemma_mul_inequality(len, j / word_bits(), word_bits());
    }
}

/// Replacing word `k` by a word that differs from it in bit `b` alone changes bit position
/// `k * bits + b` alone.
pub proof fn lemma_update_word(words: Seq<usize>, k: int, b: int, w: usize)
    requires
        0 <= k < words.len(),
        0 <= b < word_bits(),
        forall|j: int| 0 <= j < word_bits() && j != b ==> word_bit(w, j) == word_bit(words[k], j),
    ensures
        forall|j: int| 0 <= j < words.len() * word_bits() && j != k * word_bits() + b ==> gbit(#[trigger] words.update(k, w), j) == gbit(words, j),
        gbit(words.update(k, w), k * word_bits() + b) == word_bit(w, b),
{
    lemma_join_index(k, b);
    assert forall|j: int| 0 <= j < words.len() * word_bits() && j != k * word_bits() + b implies gbit(#[trigger] words.update(k, w), j) == gbit(words, j) by {
        lemma_split_index(j);
        lemma_index_in_words(j, words.len() as int);
        if j / word_bits() == k {
            assert(j % word_bits() != b);
        }
    }
}

/// A structure for managing which blocks are free in a run of contiguous, equally sized
/// blocks of memory.
pub struct Bitmap {
    /// The actual bitmap of available blocks, one bit per block
    pub blocks_free: Vec<usize>,
    /// The start address of the addresses covered by the bitmap
    start: usize,
    /// The number of blocks covered by the bitmap
    num_blocks: usize,
    /// The size of one block in bytes
    block_size: usize,
}

impl Bitmap {
    /// The first address covered.
    pub closed spec fn start_addr(&self) -> usize {
        self.start
    }

    /// The number of blocks covered.
    pub closed spec fn len(&self) -> nat {
        self.num_blocks as nat
    }

    /// The size of one block in bytes.
    pub closed spec fn block_bytes(&self) -> nat {
        self.block_size as nat
    }

    /// The words of the bitmap, one bit per block.
    pub closed spec fn words(&self) -> Seq<usize> {
        self.blocks_free@
    }

    /// Which blocks are free, by block index.
    pub closed spec fn view(&self) -> Seq<bool> {
        Seq::new(self.num_blocks as nat, |i: int| gbit(self.blocks_free@, i))
    }

    /// The address of block `i`.
    pub open spec fn block_addr(&self, i: int) -> int {
        self.start_addr() + i * self.block_bytes()
    }

    /// The block that holds address `addr`.
    pub open spec fn block_of(&self, addr: usize) -> int {
        (addr - self.start_addr()) / (self.block_bytes() as int)
    }

    /// The address `addr` falls inside the blocks covered.
    pub open spec fn covers(&self, addr: usize) -> bool {
        self.start_addr() <= addr < self.start_addr() + self.len() * self.block_bytes()
    }

    /// The words hold exactly one bit per block, no bit past the last block is set, and the
    /// covered addresses lie in the address space.
    pub closed spec fn wf(&self) -> bool {
        &&& self.block_size > 0
        &&& self.num_blocks + word_bits() <= usize::MAX
        &&& self.blocks_free@.len() * word_bits() >= self.num_blocks
        &&& self.blocks_free@.len() * word_bits() < self.num_blocks + word_bits()
        &&& self.start + self.num_blocks * self.block_size <= usize::MAX
        &&& forall|j: int| self.num_blocks <= j < self.blocks_free@.len() * word_bits() ==> !gbit(self.blocks_free@, j)
    }

    /// What a well formed bitmap promises about its geometry.
    pub proof fn lemma_wf_facts(&self)
        requires
            self.wf(),
        ensures
            self@.len() == self.len(),
            self.block_bytes() > 0,
            self.start_addr() + self.len() * self.block_bytes() <= usize::MAX,
    {
    }

    /// The block holding an address of the covered range is one of the blocks.
    pub proof fn lemma_block_of_covered(&self, addr: usize)
        requires
            self.wf(),
            self.covers(addr),
        ensures
            0 <= self.block_of(addr) < self.len(),
            self.block_addr(self.block_of(addr)) <= addr,
    {
        let off = addr - self.start;
        let bs = self.block_size as int;
        lemma_fundamental_div_mod(off, bs);
        if off / bs >= self.num_blocks {
            lemma_mul_inequality(self.num_blocks as int, off / bs, bs);
        }
        vstd::arithmetic::mul::lemma_mul_is_commutative(off / bs, bs);
    }

    /// Create a new bitmap that covers a run of contiguous blocks, all of them free.
    /// # Arguments
    /// * start - The physical address to start allocations
    /// * len - The length of the area to allocate from
    /// * block_size - The size of one block
    pub fn initialize(start: usize, len: usize, block_size: usize) -> (s: Self)
        requires
            block_size > 0,
            start + len <= usize::MAX,
            len / block_size + usize::BITS <= usize::MAX,
        ensures
            s.wf(),
            s.start_addr() == start,
            s.len() == len / block_size,
            s.block_bytes() == block_size,
            s@ == Seq::new(s.len(), |i: int| true),
            s.words().len() == (s.len() + word_bits() - 1) / word_bits(),
            forall|j: int|
                0 <= j < s.words().len() * word_bits() ==> gbit(s.words(), j) == (j < s.len()),
    {
        let num_pages = len / block_size;
        let bits = usize::BITS as usize;
        let num_words = (num_pages + (bits - 1)) / bits;
        let mut blocks_free: Vec<usize> = Vec::with_capacity(num_words);
        proof {
            assert(bits as int == word_bits());
            lemma_fundamental_div_mod(num_pages + (bits - 1), bits as int);
            lemma_fundamental_div_mod(len as int, block_size as int);
            lemma_mul_inequality(num_pages as int, (len / block_size) as int, block_size as int);
            vstd::arithmetic::mul::lemma_mul_is_commutative(block_size as int, (len / block_size) as int);
        }
        let mut w: usize = 0;
        while w < num_words
            invariant
                w <= num_words,
                blocks_free@.len() == w,
                forall|k: int| 0 <= k < w ==> blocks_free@[k] == 0,
            decreases num_words - w,
        {
            blocks_free.push(0);
            w = w + 1;
        }
        proof {
            lemma_zero_word();
            assert forall|j: int| 0 <= j < blocks_free@.len() * word_bits() implies !gbit(blocks_free@, j) by {
                lemma_split_index(j);
                lemma_index_in_words(j, blocks_free@.len() as int);
            }
        }
        let mut i: usize = 0;
        while i < num_pages
            invariant
                i <= num_pages,
                bits == usize::BITS,
                blocks_free@.len() == num_words,
                num_words * word_bits() >= num_pages,
                forall|j: int| 0 <= j < num_words * word_bits() ==> gbit(blocks_free@, j) == (j < i),
            decreases num_pages - i,
        {
            let index = i / bits;
            let offset = i % bits;
            proof {
                lemma_split_index(i as int);
                lemma_index_in_words(i as int, num_words as int);
                lemma_word_set_bit(blocks_free@[index as int], offset);
                lemma_update_word(blocks_free@, index as int, offset as int, blocks_free@[index as int] | (1usize << offset));
                assert(bits as int == word_bits());
                assert(index as int * word_bits() + offset as int == i as int);
            }
            let word = blocks_free[index] | (1usize << offset);
            let ghost before = blocks_free@;
            blocks_free.set(index, word);
            proof {
                assert forall|j: int| 0 <= j < num_words * word_bits() implies gbit(blocks_free@, j) == (j < i + 1) by {
                    if j != i {
                        assert(gbit(blocks_free@, j) == gbit(before, j));
                    }
                }
            }
            i = i + 1;
        }
        let s = Self { blocks_free, start, num_blocks: num_pages, block_size };
        assert(s@ =~= Seq::new(s.len(), |i: int| true));
        s
    }

    /// Count the number of free blocks
    pub fn num_free_blocks(&self) -> (c: usize)
        requires
            self.wf(),
        ensures
            c == count_free(self@),
    {
        let mut c: usize = 0;
        let bits = usize::BITS as usize;
        let mut i: usize = 0;
        while i < self.num_blocks
            invariant
                self.wf(),
                bits == usize::BITS,
                i <= self.num_blocks,
                c == count_free(self@.subrange(0, i as int)),
                c <= i,
            decreases self.num_blocks - i,
        {
            let index = i / bits;
            let offset = i % bits;
            proof {
                lemma_split_index(i as int);
                lemma_index_in_words(i as int, self.blocks_free@.len() as int);
                lemma_word_test_bit(self.blocks_free@[index as int], offset);
                assert(self@.subrange(0, i + 1).drop_last() =~= self@.subrange(0, i as int));
            }
            let val = self.blocks_free[index] & (1usize << offset);
            if val != 0 {
                c += 1;
            }
            i = i + 1;
        }
        assert(self@.subrange(0, self.num_blocks as int) =~= self@);
        c
    }

    /// Mark the block holding `addr` as used (taken from the pool)
    pub fn steal_block(&mut self, addr: usize)
        requires
            old(self).wf(),
            old(self).covers(addr),
        ensures
            final(self).wf(),
            final(self).start_addr() == old(self).start_addr(),
            final(self).len() == old(self).len(),
            final(self).block_bytes() == old(self).block_bytes(),
            final(self)@ == old(self)@.update(old(self).block_of(addr), false),
    {
        self.set_block(addr, false)
    }

    /// Return the block holding `addr` to the pool, marking it as available
    pub fn return_block(&mut self, addr: usize)
        requires
            old(self).wf(),
            old(self).covers(addr),
        ensures
            final(self).wf(),
            final(self).start_addr() == old(self).start_addr(),
            final(self).len() == old(self).len(),
            final(self).block_bytes() == old(self).block_bytes(),
            final(self)@ == old(self)@.update(old(self).block_of(addr), true),
    {
        self.set_block(addr, true)
    }

    /// Set whether the block holding `addr` is free.
    fn set_block(&mut self, addr: usize, free: bool)
        requires
            old(self).wf(),
            old(self).covers(addr),
        ensures
            final(self).wf(),
            final(self).start_addr() == old(self).start_addr(),
            final(self).len() == old(self).len(),
            final(self).block_bytes() == old(self).block_bytes(),
            final(self)@ == old(self)@.update(old(self).block_of(addr), free),
    {
        proof {
            self.lemma_block_of_covered(addr);
        }
        let start = self.start;
        let i = (addr - start) / self.block_size;
        let bits = usize::BITS as usize;
        let index = i / bits;
        let offset = i % bits;
        proof {
            assert(bits as int == word_bits());
            lemma_split_index(i as int);
            assert(index as int * word_bits() + offset as int == i as int);
            assert(i as int == old(self).block_of(addr));
            lemma_index_in_words(i as int, self.blocks_free@.len() as int);
        }
        let word = if free {
            proof {
                lemma_word_set_bit(self.blocks_free@[index as int], offset);
            }
            self.blocks_free[index] | (1usize << offset)
        } else {
            proof {
                lemma_word_clear_bit(self.blocks_free@[index as int], offset);
            }
            self.blocks_free[index] & !(1usize << offset)
        };
        proof {
            lemma_update_word(self.blocks_free@, index as int, offset as int, word);
        }
        self.blocks_free.set(index, word);
        proof {
            assert forall|j: int| self.num_blocks <= j < self.blocks_free@.len() * word_bits() implies !gbit(self.blocks_free@, j) by {
                assert(gbit(self.blocks_free@, j) == gbit(old(self).blocks_free@, j));
            }
        }
        assert(self@ =~= old(self)@.update(old(self).block_of(addr), free));
    }

    /// Retrieve the first available block from the bitmap, marking it used, and return its
    /// address
    pub fn get_block(&mut self) -> (r: Option<usize>)
        requires
            old(self).wf(),
        ensures
            final(self).wf(),
            final(self).start_addr() == old(self).start_addr(),
            final(self).len() == old(self).len(),
            final(self).block_bytes() == old(self).block_bytes(),
            r is None ==> *final(self) == *old(self) && forall|i: int| 0 <= i < old(self)@.len() ==> !old(self)@[i],
            r matches Some(a) ==> exists|i: int| is_first_free(old(self)@, i) && a == old(self).block_addr(i)
                && final(self)@ == old(self)@.update(i, false),
    {
        let bits = usize::BITS as usize;
        let mut index: usize = 0;
        let ghost nw = self.blocks_free@.len();
        while index < self.blocks_free.len()
            invariant
                self.wf(),
                *self == *old(self),
                bits == usize::BITS,
                nw == self.blocks_free@.len(),
                index <= nw,
                forall|j: int| 0 <= j < index * word_bits() ==> !gbit(self.blocks_free@, j),
            decreases nw - index,
        {
            let d = self.blocks_free[index];
            if d != 0 {
                let mut i: usize = 0;
                assert((d >> 0usize) << 0usize == d) by (bit_vector);
                while i < bits
                    invariant
                        self.wf(),
                        *self == *old(self),
                        bits == usize::BITS,
                        nw == self.blocks_free@.len(),
                        index < nw,
                        d == self.blocks_free@[index as int],
                        d != 0,
                        i < bits,
                        (d >> i) << i == d,
                        forall|j: int| 0 <= j < index * word_bits() ==> !gbit(self.blocks_free@, j),
                        forall|b: int| 0 <= b < i ==> !word_bit(d, b),
                    decreases bits - i,
                {
                    proof {
                        lemma_word_test_bit(d, i);
                    }
                    if (d & (1usize << i)) != 0 {
                        proof {
                            lemma_mul_inequality(index as int + 1, nw as int, word_bits());
                        }
                        let which = index * bits + i;
                        proof {
                            lemma_join_index(index as int, i as int);
                            assert(gbit(self.blocks_free@, which as int));
                            assert(which < self.num_blocks);
                            assert forall|j: int| 0 <= j < which implies !(#[trigger] old(self)@[j]) by {
                                lemma_split_index(j);
                                if j >= index * word_bits() {
                                    assert(j / word_bits() >= index) by {
                                        if j / word_bits() < index {
                                            lemma_mul_inequality(j / word_bits() + 1, index as int, word_bits());
                                        }
                                    }
                                    assert(j / word_bits() <= index) by {
                                        if j / word_bits() > index {
                                            lemma_mul_inequality(index as int + 1, j / word_bits(), word_bits());
                                        }
                                    }
                                }
                            }
                            lemma_mul_inequality(which as int, self.num_blocks as int, self.block_size as int);
                            lemma_word_clear_bit(d, i);
                            lemma_update_word(self.blocks_free@, index as int, i as int, d & !(1usize << i));
                        }
                        let nd = d & !(1usize << i);
                        let ghost before = self.blocks_free@;
                        self.blocks_free.set(index, nd);
                        proof {
                            assert forall|j: int| self.num_blocks <= j < self.blocks_free@.len() * word_bits() implies !gbit(self.blocks_free@, j) by {
                                assert(gbit(self.blocks_free@, j) == gbit(before, j));
                            }
                            assert(self@ =~= old(self)@.update(which as int, false));
                            assert(is_first_free(old(self)@, which as int));
                        }
                        let a = self.start + which * self.block_size;
                        assert(is_first_free(old(self)@, which as int) && a == old(self).block_addr(which as int)
                            && self@ == old(self)@.update(which as int, false));
                        return Some(a);
                    }
                    proof {
                        lemma_word_scan(d, i);
                    }
                    i = i + 1;
                }
            }
            proof {
                lemma_zero_word();
                assert forall|j: int| 0 <= j < (index + 1) * word_bits() implies !gbit(self.blocks_free@, j) by {
                    lemma_split_index(j);
                    if j >= index * word_bits() {
                        assert(j / word_bits() == index) by {
                            if j / word_bits() < index {
                                lemma_mul_inequality(j / word_bits() + 1, index as int, word_bits());
                            }
                            if j / word_bits() > index {
                                lemma_mul_inequality(index as int + 1, j / word_bits(), word_bits());
                            }
                        }
                    }
                }
            }
            index = index + 1;
        }
        None
    }

    /// Check to see if a block exists in this map
    pub fn page_exists(&self, d: usize) -> (r: bool)
        requires
            self.wf(),
        ensures
            r == self.covers(d),
    {
        let start = self.start;
        let end = start + self.num_blocks * self.block_size;
        d >= start && d < end
    }

    /// The address just past the last block covered.
    pub fn end_address(&self) -> (r: usize)
        requires
            self.wf(),
        ensures
            r == self.start_addr() + self.len() * self.block_bytes(),
    {
        self.start + self.num_blocks * self.block_size
    }
}

/// Block `i` is the lowest free block.
pub open spec fn is_first_free(map: Seq<bool>, i: int) -> bool {
    &&& 0 <= i < map.len()
    &&& map[i]
    &&& forall|j: int| 0 <= j < i ==> !#[trigger] map[j]
}

/// The number of free blocks.
pub open spec fn count_free(map: Seq<bool>) -> nat
    decreases map.len(),
{
    if map.len() == 0 {
        0
    } else {
        count_free(map.drop_last()) + if map.last() { 1nat } else { 0nat }
    }
}

} // verus!
