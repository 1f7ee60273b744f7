//! Facts about bitwise operations shared by the allocators and table code.

use vstd::prelude::*;

verus! {

/// A mask keeps no more than its own bits.
pub proof fn lemma_and_le(x: usize, m: usize)
    ensures
        x & m <= m,
        x & m <= x,
{
    assert(x & m <= m) by (bit_vector);
    assert(x & m <= x) by (bit_vector);
}

} // verus!

verus! {

/// `a` is a power of two.
pub open spec fn is_pow2(a: usize) -> bool {
    a > 0 && a & ((a - 1) as usize) == 0
}

/// `x` is a multiple of the power of two `a`.
pub open spec fn is_aligned(x: usize, a: usize) -> bool {
    x & ((a - 1) as usize) == 0
}

/// Padding `x` up by `a` minus its misalignment gives a multiple of `a`.
pub proof fn lemma_pad_aligns(x: usize, a: usize)
    requires
        is_pow2(a),
        x & ((a - 1) as usize) != 0 ==> x + (a - (x & ((a - 1) as usize))) <= usize::MAX,
    ensures
        x & ((a - 1) as usize) != 0 ==> is_aligned((x + (a - (x & ((a - 1) as usize)))) as usize, a),
        x & ((a - 1) as usize) == 0 ==> is_aligned(x, a),
{
    let m = (a - 1) as usize;
    let err = x & m;
    if err != 0 {
        lemma_and_le(x, m);
        let y = (x + (a - err)) as usize;
        assert(y & m == 0) by (bit_vector)
            requires
                a > 0,
                a & m == 0,
                m == a - 1,
                err == x & m,
                err <= m,
                y == x + (a - err),
        ;
    }
}

} // verus!

verus! {

/// The number of bits in a word.
pub open spec fn word_bits() -> int {
    usize::BITS as int
}

/// Bit `b` of the word `w` is set.
pub open spec fn word_bit(w: usize, b: int) -> bool {
    (w >> (b as usize)) & 1 == 1
}

/// Setting bit `b` of a word sets it and leaves the other bits.
pub proof fn lemma_word_set_bit(w: usize, b: usize)
    requires
        b < usize::BITS,
    ensures
        word_bit(w | (1usize << b), b as int),
        forall|j: int| 0 <= j < word_bits() && j != b ==> word_bit(#[trigger] (w | (1usize << b)), j) == word_bit(w, j),
{
    assert(((w | (1usize << b)) >> b) & 1 == 1) by (bit_vector)
        requires
            b < usize::BITS,
    ;
    assert forall|j: int| 0 <= j < word_bits() && j != b implies word_bit(#[trigger] (w | (1usize << b)), j) == word_bit(w, j) by {
        let jj = j as usize;
        assert(((w | (1usize << b)) >> jj) & 1 == (w >> jj) & 1) by (bit_vector)
            requires
                b < usize::BITS,
                jj < usize::BITS,
                jj != b,
        ;
    }
}

/// Clearing bit `b` of a word clears it and leaves the other bits.
pub proof fn lemma_word_clear_bit(w: usize, b: usize)
    requires
        b < usize::BITS,
    ensures
        !word_bit(w & !(1usize << b), b as int),
        forall|j: int| 0 <= j < word_bits() && j != b ==> word_bit(#[trigger] (w & !(1usize << b)), j) == word_bit(w, j),
{
    assert(((w & !(1usize << b)) >> b) & 1 == 0) by (bit_vector)
        requires
            b < usize::BITS,
    ;
    assert forall|j: int| 0 <= j < word_bits() && j != b implies word_bit(#[trigger] (w & !(1usize << b)), j) == word_bit(w, j) by {
        let jj = j as usize;
        assert(((w & !(1usize << b)) >> jj) & 1 == (w >> jj) & 1) by (bit_vector)
            requires
                b < usize::BITS,
                jj < usize::BITS,
                jj != b,
        ;
    }
}

/// The zero word has no bit set.
pub proof fn lemma_zero_word()
    ensures
        forall|j: int| 0 <= j < word_bits() ==> !word_bit(0usize, j),
{
    assert forall|j: int| 0 <= j < word_bits() implies !word_bit(0usize, j) by {
        let jj = j as usize;
        assert((0usize >> jj) & 1 == 0) by (bit_vector);
    }
}

/// Testing a bit with a mask agrees with the bit.
pub proof fn lemma_word_test_bit(w: usize, b: usize)
    requires
        b < usize::BITS,
    ensures
        (w & (1usize << b) != 0) == word_bit(w, b as int),
{
    assert((w & (1usize << b) != 0) == ((w >> b) & 1 == 1)) by (bit_vector)
        requires
            b < usize::BITS,
    ;
}

/// Scanning a word from its low end: when its low `b` bits are clear and bit `b` is clear too,
/// its low `b + 1` bits are clear; a word whose bits are all clear is zero.
pub proof fn lemma_word_scan(w: usize, b: usize)
    requires
        b < usize::BITS,
        (w >> b) << b == w,
        !word_bit(w, b as int),
    ensures
        b + 1 < usize::BITS ==> (w >> ((b + 1) as usize)) << ((b + 1) as usize) == w,
        b + 1 == usize::BITS ==> w == 0,
{
    let b1 = (b + 1) as usize;
    if b + 1 < usize::BITS {
        assert((w >> b1) << b1 == w) by (bit_vector)
            requires
                b < usize::BITS,
                b1 == b + 1,
                b1 < usize::BITS,
                (w >> b) << b == w,
                (w >> b) & 1 != 1,
        ;
    } else {
        assert(w == 0) by (bit_vector)
            requires
                b < usize::BITS,
                b + 1 == usize::BITS,
                (w >> b) << b == w,
                (w >> b) & 1 != 1,
        ;
    }
}

} // verus!
