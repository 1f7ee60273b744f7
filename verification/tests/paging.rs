use doors::bitmap::PAGE_SIZE;
use doors::memory_manager::{MemoryArea, MemoryAreaType, SimpleMemoryManager};
use doors::paging_manager::{PagingTableManager, TableStore};

fn manager() -> (PagingTableManager, TableStore) {
    let store = TableStore::new();
    let mut m = PagingTableManager::new();
    m.setup_from_existing(4096);
    (m, store)
}

#[test]
fn mapped_range_reads_back() {
    let (mut m, mut store) = manager();
    assert_eq!(m.map_addresses_read_write(&mut store, 0x400000, 0x1234000, 0x3000), Ok(()));
    assert_eq!(m.lookup_physical_address(&store, 0x400000), Some(0x1234000));
    assert_eq!(m.lookup_physical_address(&store, 0x401abc), Some(0x1235abc));
    assert_eq!(m.lookup_physical_address(&store, 0x402fff), Some(0x1236fff));
    // the next page of the same table is not mapped
    assert_eq!(m.lookup_physical_address(&store, 0x403000), None);
}

#[test]
fn mapping_a_mapped_page_fails() {
    let (mut m, mut store) = manager();
    m.map_addresses_read_write(&mut store, 0x400000, 0x1000000, 0x2000).unwrap();
    assert_eq!(m.map_addresses_read_write(&mut store, 0x401000, 0x2000000, 0x1000), Err(()));
    assert_eq!(m.lookup_physical_address(&store, 0x401000), Some(0x1001000));
}

#[test]
fn read_only_mapping_keeps_existing_pages() {
    let (mut m, mut store) = manager();
    m.map_addresses_read_write(&mut store, 0x400000, 0x1000000, 0x1000).unwrap();
    assert_eq!(m.map_addresses_read_only(&mut store, 0x400000, 0x5000000, 0x2000), Ok(()));
    assert_eq!(m.lookup_physical_address(&store, 0x400010), Some(0x1000010));
    assert_eq!(m.lookup_physical_address(&store, 0x401010), Some(0x5001010));
}

#[test]
fn unmapped_pages_no_longer_resolve() {
    let (mut m, mut store) = manager();
    m.map_addresses_read_write(&mut store, 0x400000, 0x1000000, 0x3000).unwrap();
    m.unmap_mapped_pages(&mut store, 0x401000, 0x1000);
    assert_eq!(m.lookup_physical_address(&store, 0x400000), Some(0x1000000));
    assert_eq!(m.lookup_physical_address(&store, 0x401000), None);
    assert_eq!(m.lookup_physical_address(&store, 0x402000), Some(0x1002000));
    // the page can be mapped again
    assert_eq!(m.map_addresses_read_write(&mut store, 0x401000, 0x7000000, 0x1000), Ok(()));
    assert_eq!(m.lookup_physical_address(&store, 0x401234), Some(0x7000234));
}

#[test]
fn physical_mask_from_address_size() {
    let mut m = PagingTableManager::new();
    assert_eq!(m.physical_mask, usize::MAX);
    m.set_physical_address_size(36);
    assert_eq!(m.physical_mask, (1usize << 36) - 1);
}

#[test]
fn new_table_shares_kernel_map() {
    let (mut m, mut store) = manager();
    m.map_addresses_read_write(&mut store, 0x400000, 0x1000000, 0x1000).unwrap();
    let other = m.new_table(&mut store);
    assert_ne!(other.cr3, m.cr3);
    assert_eq!(other.lookup_physical_address(&store, 0x400000), Some(0x1000000));
}

#[test]
fn new_page_comes_from_memory_manager() {
    let (mut m, mut store) = manager();
    let area = MemoryArea { start_address: 0x200000, size: 0x4000, typ: MemoryAreaType::Available };
    let mut mm = SimpleMemoryManager::new();
    mm.init(&[area]);
    mm.add_memory_area(&area);
    assert_eq!(m.map_new_page(&mut store, &mut mm, 0x800000), Ok(()));
    assert_eq!(m.lookup_physical_address(&store, 0x800123), Some(0x200123));
    assert_eq!(mm.total_free_pages(), 3);
    // a mapped address fails, and the page taken for it stays taken
    assert_eq!(m.map_new_page(&mut store, &mut mm, 0x800000), Err(()));
    assert_eq!(mm.total_free_pages(), 2);
    assert_eq!(PAGE_SIZE, 0x1000);
}
