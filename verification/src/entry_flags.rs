//! The flag bits of an x86 page table entry.

use vstd::prelude::*;

verus! {

/// Bit `k` of `bits` is set.
pub open spec fn bit_set(bits: u16, k: u16) -> bool {
    (bits >> k) & 1 == 1
}

/// `bits` with bit `k` set to `v`.
pub open spec fn with_bit(bits: u16, k: u16, v: bool) -> u16 {
    if v { bits | (1u16 << k) } else { bits & !(1u16 << k) }
}

/// Setting a bit changes that bit alone.
pub proof fn lemma_with_bit(bits: u16, k: u16, v: bool)
    requires
        k < 16,
    ensures
        bit_set(with_bit(bits, k, v), k) == v,
        forall|j: u16| j < 16 && j != k ==> bit_set(#[trigger] with_bit(bits, k, v), j) == bit_set(bits, j),
{
    if v {
        assert(((bits | (1u16 << k)) >> k) & 1 == 1) by (bit_vector)
            requires
                k < 16,
        ;
        assert forall|j: u16| j < 16 && j != k implies ((bits | (1u16 << k)) >> j) & 1 == (bits >> j) & 1 by {
            assert(((bits | (1u16 << k)) >> j) & 1 == (bits >> j) & 1) by (bit_vector)
                requires
                    k < 16,
                    j < 16,
                    j != k,
            ;
        }
    } else {
        assert(((bits & !(1u16 << k)) >> k) & 1 == 0) by (bit_vector)
            requires
                k < 16,
        ;
        assert forall|j: u16| j < 16 && j != k implies ((bits & !(1u16 << k)) >> j) & 1 == (bits >> j) & 1 by {
            assert(((bits & !(1u16 << k)) >> j) & 1 == (bits >> j) & 1) by (bit_vector)
                requires
                    k < 16,
                    j < 16,
                    j != k,
            ;
        }
    }
}

/// The possible flags for a page table entry.
#[derive(Clone, Copy, Debug, PartialEq, Eq)]
pub struct PageTableEntryFlags(pub u16);

/// Bit of the present flag.
pub const PRESENT_BIT: u16 = 0;
/// Bit of the writable flag.
pub const WRITABLE_BIT: u16 = 1;
/// Bit of the user access flag.
pub const USER_ACCESS_BIT: u16 = 2;
/// Bit of the page level write-through flag.
pub const PWT_BIT: u16 = 3;
/// Bit of the page level cache disable flag.
pub const PCD_BIT: u16 = 4;
/// Bit of the accessed flag.
pub const ACCESS_BIT: u16 = 5;
/// Bit of the large page flag.
pub const HUGE_BIT: u16 = 7;

impl PageTableEntryFlags {
    fn get(&self, k: u16) -> (r: bool)
        requires
            k < 16,
        ensures
            r == bit_set(self.0, k),
    {
        (self.0 >> k) & 1 == 1
    }

    fn put(&mut self, k: u16, v: bool)
        requires
            k < 16,
        ensures
            final(self).0 == with_bit(old(self).0, k, v),
    {
        if v {
            self.0 = self.0 | (1u16 << k);
        } else {
            self.0 = self.0 & !(1u16 << k);
        }
    }

    /// Is the item this table refers to present?
    pub fn present(&self) -> (r: bool)
        ensures
            r == bit_set(self.0, PRESENT_BIT),
    {
        self.get(PRESENT_BIT)
    }

    /// Set the present flag.
    pub fn set_present(&mut self, v: bool)
        ensures
            final(self).0 == with_bit(old(self).0, PRESENT_BIT, v),
    {
        self.put(PRESENT_BIT, v)
    }

    /// Is the reference writable?
    pub fn writable(&self) -> (r: bool)
        ensures
            r == bit_set(self.0, WRITABLE_BIT),
    {
        self.get(WRITABLE_BIT)
    }

    /// Set the writable flag.
    pub fn set_writable(&mut self, v: bool)
        ensures
            final(self).0 == with_bit(old(self).0, WRITABLE_BIT, v),
    {
        self.put(WRITABLE_BIT, v)
    }

    /// Is user access allowed?
    pub fn user_access(&self) -> (r: bool)
        ensures
            r == bit_set(self.0, USER_ACCESS_BIT),
    {
        self.get(USER_ACCESS_BIT)
    }

    /// Set the user access flag.
    pub fn set_user_access(&mut self, v: bool)
        ensures
            final(self).0 == with_bit(old(self).0, USER_ACCESS_BIT, v),
    {
        self.put(USER_ACCESS_BIT, v)
    }

    /// Page level write-through
    pub fn pwt(&self) -> (r: bool)
        ensures
            r == bit_set(self.0, PWT_BIT),
    {
        self.get(PWT_BIT)
    }

    /// Set the page level write-through flag.
    pub fn set_pwt(&mut self, v: bool)
        ensures
            final(self).0 == with_bit(old(self).0, PWT_BIT, v),
    {
        self.put(PWT_BIT, v)
    }

    /// Page level cache disable
    pub fn pcd(&self) -> (r: bool)
        ensures
            r == bit_set(self.0, PCD_BIT),
    {
        self.get(PCD_BIT)
    }

    /// Set the page level cache disable flag.
    pub fn set_pcd(&mut self, v: bool)
        ensures
            final(self).0 == with_bit(old(self).0, PCD_BIT, v),
    {
        self.put(PCD_BIT, v)
    }

    /// Has the page been accessed?
    pub fn access(&self) -> (r: bool)
        ensures
            r == bit_set(self.0, ACCESS_BIT),
    {
        self.get(ACCESS_BIT)
    }

    /// Set the accessed flag.
    pub fn set_access(&mut self, v: bool)
        ensures
            final(self).0 == with_bit(old(self).0, ACCESS_BIT, v),
    {
        self.put(ACCESS_BIT, v)
    }

    /// Does the entry refer to a larger single chunk of memory?
    pub fn huge(&self) -> (r: bool)
        ensures
            r == bit_set(self.0, HUGE_BIT),
    {
        self.get(HUGE_BIT)
    }

    /// Set the large page flag.
    pub fn set_huge(&mut self, v: bool)
        ensures
            final(self).0 == with_bit(old(self).0, HUGE_BIT, v),
    {
        self.put(HUGE_BIT, v)
    }

    /// The flags of a present, writable entry, as the paging code builds them.
    pub fn present_writable() -> (r: Self)
        ensures
            r.0 == 3,
            bit_set(r.0, PRESENT_BIT),
            bit_set(r.0, WRITABLE_BIT),
    {
        let mut flags = PageTableEntryFlags(0);
        flags.set_writable(true);
        flags.set_present(true);
        assert(((0u16 | (1u16 << 1u16)) | (1u16 << 0u16)) == 3) by (bit_vector);
        assert(((3u16 >> 0u16) & 1 == 1) && ((3u16 >> 1u16) & 1 == 1)) by (bit_vector);
        flags
    }

    /// The flags of a present, read only entry, as the paging code builds them.
    pub fn present_read_only() -> (r: Self)
        ensures
            r.0 == 1,
            bit_set(r.0, PRESENT_BIT),
            !bit_set(r.0, WRITABLE_BIT),
    {
        let mut flags = PageTableEntryFlags(0);
        flags.set_writable(false);
        flags.set_present(true);
        assert(((0u16 & !(1u16 << 1u16)) | (1u16 << 0u16)) == 1) by (bit_vector);
        assert(((1u16 >> 0u16) & 1 == 1) && ((1u16 >> 1u16) & 1 == 0)) by (bit_vector);
        flags
    }
}

} // verus!
