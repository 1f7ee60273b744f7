use doors::bitmap::PAGE_SIZE;
use doors::bump::BumpAllocator;
use doors::devices::{
    DisplayHandler, GpioHandler, IrqNumbers, NullSystem, OwnedDevice, RngHandler, SerialHandler, System, TaskId,
    TimerHandler,
};
use doors::dma::{DestructuredPhysicalMemory, PciMemory};
use doors::mapper::VirtualMemoryMapper;
use doors::memory_manager::{MemoryArea, MemoryAreaType, SimpleMemoryManager};
use doors::paging64::Page;
use doors::paging_manager::{PagingTableManager, TableStore};
use doors::process::{create_process, ProcessLoad, TextSection, USER_SPACE_START};

#[test]
fn serial_ports_are_taken_and_given_back() {
    let mut s = SerialHandler::new();
    s.register_serial("com1");
    s.register_serial("com2");
    assert!(s.has_module(1));
    assert!(!s.has_module(2));
    let d = s.take_device(1).unwrap();
    assert_eq!(d.module, Some("com2"));
    assert_eq!(d.home, Some(1));
    assert!(!s.has_module(1));
    assert!(s.take_device(1).is_none());
    assert!(s.take_device(7).is_none());
    s.return_module(1, d.module.unwrap());
    assert!(s.has_module(1));
    // a slot that holds a module keeps it
    s.return_module(0, "other");
    assert_eq!(s.borrow_module(0), &Some("com1"));
    assert_eq!(s.iter().len(), 2);
}

#[test]
fn device_lists_register_in_order() {
    let mut g = GpioHandler::new();
    g.register_gpios(10u32);
    g.register_gpios(11u32);
    assert_eq!(*g.module(1), 11);
    let mut t = TimerHandler::new();
    t.register_timer('t');
    assert_eq!(*t.module(0), 't');
    let mut d = DisplayHandler::new();
    assert!(!d.has_module(0));
    d.register_display("vga");
    assert!(d.has_module(0));
    assert_eq!(*d.module(0), "vga");
    let mut r = RngHandler::new();
    r.register_rng(4u8);
    assert!(r.has_module(0) && !r.has_module(1));
    assert_eq!(*r.module(0), 4);
}

#[test]
fn owned_device_conversion() {
    let d = OwnedDevice::free_range(21u32);
    assert_eq!(d.home, None);
    let c = d.convert(|x| x * 2, Some(3));
    assert_eq!(c.module, Some(42u32));
    assert_eq!(c.home, Some(3));
    let empty: OwnedDevice<u32> = OwnedDevice { module: None, home: None };
    assert_eq!(empty.convert(|x| x + 1, None).module, None);
}

#[test]
fn irq_numbers_iterate_in_order() {
    let many = IrqNumbers::Many(vec![3, 5, 7]);
    let mut it = many.iter();
    assert_eq!(it.next(), Some(3));
    assert_eq!(it.next(), Some(5));
    assert_eq!(it.next(), Some(7));
    assert_eq!(it.next(), None);
    let two = IrqNumbers::Only2([1, 2]);
    let mut it2 = two.iter();
    assert_eq!((it2.next(), it2.next(), it2.next()), (Some(1), Some(2), None));
    let one = IrqNumbers::Only1(9);
    let mut it1 = one.iter();
    assert_eq!((it1.next(), it1.next()), (Some(9), None));
    let none = IrqNumbers::NoIrq;
    assert_eq!(none.iter().next(), None);
}

#[test]
fn small_kernel_values() {
    assert_eq!(TaskId(5).value(), 5);
    assert!(matches!(NullSystem::new_sys(), System::NullSys(_)));
    assert_eq!(DestructuredPhysicalMemory::new(0x4000).address(), 0x4000);
    assert!(Page::alternating_bits().data.iter().all(|b| *b == 0xaa));
    assert!(Page::default().data.iter().all(|b| *b == 0));
}

#[test]
fn pci_memory_is_mapped() {
    let mut store = TableStore::new();
    let mut paging = PagingTableManager::new();
    paging.setup_from_existing(4096);
    let mut extra = BumpAllocator::new(0x8000_0000);
    let mut vmem = BumpAllocator::new(0x4000_0000);
    let p = PciMemory::new(0x2000, &mut extra, &mut vmem, &mut paging, &mut store).unwrap();
    assert_eq!(p.size(), 0x2000);
    assert_eq!(p.phys(), 0x8000_2000);
    assert_eq!(p.virt(), 0x4000_1000);
    assert_eq!(paging.lookup_physical_address(&store, 0x4000_1004), Some(0x8000_2004));
    assert_eq!(paging.lookup_physical_address(&store, 0x4000_2ff0), Some(0x8000_3ff0));
}

#[test]
fn mapper_gives_each_page_its_own_frame() {
    let mut store = TableStore::new();
    let mut paging = PagingTableManager::new();
    paging.setup_from_existing(4096);
    let area = MemoryArea { start_address: 0x300000, size: 0x4000, typ: MemoryAreaType::Available };
    let mut mm = SimpleMemoryManager::new();
    mm.init(&[area]);
    mm.add_memory_area(&area);
    let mut m = VirtualMemoryMapper::new(paging);
    assert_eq!(m.allocate_physical_pages(&mut store, &mut mm, 0x600000, 3 * PAGE_SIZE - 10), Ok(()));
    assert_eq!(mm.total_free_pages(), 1);
    assert_eq!(m.ptm.lookup_physical_address(&store, 0x600010), Some(0x300010));
    assert_eq!(m.ptm.lookup_physical_address(&store, 0x601010), Some(0x301010));
    assert_eq!(m.ptm.lookup_physical_address(&store, 0x602010), Some(0x302010));
    assert_eq!(m.allocate_physical_pages(&mut store, &mut mm, 0x602000, 1), Err(()));
}

fn kernel_with_memory() -> (PagingTableManager, TableStore, SimpleMemoryManager) {
    let mut store = TableStore::new();
    let mut kernel = PagingTableManager::new();
    kernel.setup_from_existing(4096);
    kernel.map_addresses_read_write(&mut store, 0x100000, 0x100000, 0x1000).unwrap();
    let area = MemoryArea { start_address: 0x800000, size: 0x8000, typ: MemoryAreaType::Available };
    let mut mm = SimpleMemoryManager::new();
    mm.init(&[area]);
    mm.add_memory_area(&area);
    (kernel, store, mm)
}

#[test]
fn process_decisions_on_text() {
    let (mut kernel, mut store, mut mm) = kernel_with_memory();
    assert!(matches!(create_process(&mut kernel, &mut store, &mut mm, None, 0), ProcessLoad::NoText));
    let elsewhere = Some(TextSection { address: 0x1000, data_len: Some(10) });
    assert!(matches!(create_process(&mut kernel, &mut store, &mut mm, elsewhere, 0), ProcessLoad::TextElsewhere(0x1000)));
    let unreadable = Some(TextSection { address: USER_SPACE_START as u64, data_len: None });
    assert!(matches!(create_process(&mut kernel, &mut store, &mut mm, unreadable, 0), ProcessLoad::TextUnreadable));
}

#[test]
fn process_pages_are_mapped_in_new_tables() {
    let (mut kernel, mut store, mut mm) = kernel_with_memory();
    let text = Some(TextSection { address: USER_SPACE_START as u64, data_len: Some(0x1800) });
    let entry = USER_SPACE_START as u64 + 0x10;
    match create_process(&mut kernel, &mut store, &mut mm, text, entry) {
        ProcessLoad::Loaded { mapper, entry_in_range } => {
            assert!(entry_in_range);
            assert_ne!(mapper.ptm.cr3, kernel.cr3);
            assert_eq!(mapper.ptm.lookup_physical_address(&store, USER_SPACE_START + 4), Some(0x800004));
            assert_eq!(mapper.ptm.lookup_physical_address(&store, USER_SPACE_START + 0x1004), Some(0x801004));
            // the kernel's own mappings are shared
            assert_eq!(mapper.ptm.lookup_physical_address(&store, 0x100020), Some(0x100020));
        }
        _ => panic!("the program loads"),
    }
    assert_eq!(mm.total_free_pages(), 6);
    // the user pages went into the table that the kernel's map shares, so a second program
    // at the same place cannot be mapped
    assert_eq!(kernel.lookup_physical_address(&store, USER_SPACE_START), Some(0x800000));
    let again = Some(TextSection { address: USER_SPACE_START as u64, data_len: Some(0x10) });
    assert!(matches!(create_process(&mut kernel, &mut store, &mut mm, again, 0x10), ProcessLoad::MapFailed));
}

#[test]
fn process_entry_outside_text() {
    let (mut kernel, mut store, mut mm) = kernel_with_memory();
    let text = Some(TextSection { address: USER_SPACE_START as u64, data_len: Some(0x10) });
    match create_process(&mut kernel, &mut store, &mut mm, text, USER_SPACE_START as u64 + 0x10) {
        ProcessLoad::Loaded { entry_in_range, .. } => assert!(!entry_in_range),
        _ => panic!("the program loads"),
    }
}

#[test]
fn failed_mapping_keeps_the_pages_before_it() {
    let mut store = TableStore::new();
    let mut paging = PagingTableManager::new();
    paging.setup_from_existing(4096);
    paging.map_addresses_read_write(&mut store, 0x502000, 0x900000, 0x1000).unwrap();
    assert_eq!(paging.map_addresses_read_write(&mut store, 0x500000, 0x700000, 0x4000), Err(()));
    assert_eq!(paging.lookup_physical_address(&store, 0x500008), Some(0x700008));
    assert_eq!(paging.lookup_physical_address(&store, 0x501008), Some(0x701008));
    assert_eq!(paging.lookup_physical_address(&store, 0x502008), Some(0x900008));
    assert_eq!(paging.lookup_physical_address(&store, 0x503008), None);
}
