use doors::bump::{BumpAllocator, BumpAllocatorInner};
use doors::entry_flags::PageTableEntryFlags;
use doors::paging64::{PageTable, PageTableModifier};
use doors::MemoryBlock;

#[test]
fn bump_new_and_peek() {
    let mut b = BumpAllocatorInner::new(0x1000);
    assert_eq!(b.start, 0x1000);
    assert_eq!(b.end, 0x1000);
    assert_eq!(b.peek(), 0x1001);
    assert!(b.last.iter().all(|l| l.is_none()));
}

#[test]
fn bump_allocation_is_aligned_and_grows_end() {
    let mut b = BumpAllocator::new(0x1000);
    let r = b.allocate(0x10, 8).unwrap();
    assert_eq!(r, MemoryBlock { addr: 0x1008, len: 0x10 });
    assert_eq!(b.0.end, 0x1017);
    assert_eq!(b.0.last[0].unwrap().addr, 0x1008);
    assert_eq!(b.0.last[0].unwrap().bumpsize, 0x17);
}

#[test]
fn bump_deallocate_undoes_newest_allocation() {
    let mut b = BumpAllocator::new(0x1000);
    let first = b.allocate(0x20, 1).unwrap();
    let second = b.allocate(0x10, 1).unwrap();
    assert_eq!(first.addr, 0x1001);
    assert_eq!(second.addr, 0x1021);
    // an address other than the newest allocation changes nothing
    b.deallocate(first.addr);
    assert_eq!(b.0.end, 0x1030);
    b.deallocate(second.addr);
    assert_eq!(b.0.end, 0x1020);
    b.deallocate(first.addr);
    assert_eq!(b.0.end, 0x1000);
}

#[test]
fn bump_nonram_memory_wastes_up_to_alignment() {
    let mut b = BumpAllocator::new(0x1000);
    let r = b.allocate_nonram_memory(0x100, 0x1000).unwrap();
    assert_eq!(r, MemoryBlock { addr: 0x2000, len: 0x100 });
    assert_eq!(b.0.end, 0x20ff);
    // the waste is remembered as an empty record behind the allocation
    assert_eq!(b.0.last[0].unwrap().addr, 0x2000);
    assert!(b.0.last[1].is_none());
}

#[test]
fn bump_stop_allocating_rounds_end_to_page() {
    let mut b = BumpAllocator::new(0x1000);
    b.start_allocating(PageTable::new());
    b.allocate(0x400000, 1).unwrap();
    assert_eq!(b.0.end, 0x401000);
    let pt = b.stop_allocating(0x1fffff).unwrap();
    assert_eq!(pt.entries[0], 0);
    assert_eq!(pt.entries[1], 0x200000 | 0x83);
    assert_eq!(pt.entries[2], 0x400000 | 0x83);
    assert_eq!(pt.entries[3], 0);
    assert_eq!(b.0.end, 0x5fffff);
    assert!(b.stop_allocating(0x1fffff).is_none());
}

#[test]
fn bump_relocate_moves_empty_allocator() {
    let mut b = BumpAllocator::new(0x1000);
    b.relocate(0x8000, 0x9000);
    assert_eq!(b.0.start, 0x8000);
    assert_eq!(b.0.end, 0x9000);
}

#[test]
fn page_table_entry_reads_back() {
    let mut t = PageTable::new();
    assert_eq!(t.get_entry(5), None);
    let a = t.set_entry(5, 0x1234000, PageTableEntryFlags::present_writable());
    assert_eq!(a, 0x1234000);
    assert_eq!(t.entries[5], 0x1234003);
    assert_eq!(t.get_entry(5), Some(0x1234000));
    t.set_entry(6, 0x5000, PageTableEntryFlags(0));
    assert_eq!(t.get_entry(6), None);
}

#[test]
fn page_table_modifier_address() {
    let mut m = PageTableModifier { table: PageTable::new(), entry: 0, entry_address: 0xffff_f000 };
    assert_eq!(m.get_physical_address(), None);
    m.set_physical_address(0x7000);
    assert_eq!(m.entry, 0x7003);
    assert_eq!(m.get_physical_address(), Some(0x7000));
    assert_eq!(m.get_virtual_address(), 0xffff_f000);
}

#[test]
fn entry_flags_bits() {
    let mut f = PageTableEntryFlags(0);
    assert!(!f.present());
    f.set_present(true);
    f.set_user_access(true);
    f.set_huge(true);
    assert_eq!(f.0, 0b1000_0101);
    assert!(f.present() && f.user_access() && f.huge());
    assert!(!f.writable() && !f.pwt() && !f.pcd() && !f.access());
    f.set_present(false);
    assert_eq!(f.0, 0b1000_0100);
    f.set_pwt(true);
    f.set_pcd(true);
    f.set_access(true);
    assert_eq!(f.0, 0b1011_1100);
    assert_eq!(PageTableEntryFlags::present_writable().0, 3);
    assert_eq!(PageTableEntryFlags::present_read_only().0, 1);
}
