use doors::bitmap::{Bitmap, PAGE_SIZE};
use doors::bump::BumpAllocator;
use doors::descriptor_tables::{make_gdt_table, GlobalDescriptorTable, InterruptDescriptorTable};
use doors::fixed_size::FixedSizeAllocator;
use doors::ioports::IoPortManager;
use doors::memory_manager::{MemoryArea, MemoryAreaType, SimpleMemoryManager};
use doors::multiboot::{Multiboot, MULTIBOOT2_MAGIC};
use doors::{AllocError, MemoryBlock};

#[test]
fn bitmap_hands_out_lowest_free_block() {
    let mut b = Bitmap::initialize(0x10000, 0x5000, PAGE_SIZE);
    assert_eq!(b.num_free_blocks(), 5);
    assert_eq!(b.end_address(), 0x15000);
    assert!(b.page_exists(0x14fff));
    assert!(!b.page_exists(0x15000));
    assert!(!b.page_exists(0xffff));
    b.steal_block(0x10000);
    b.steal_block(0x11234);
    assert_eq!(b.num_free_blocks(), 3);
    assert_eq!(b.get_block(), Some(0x12000));
    assert_eq!(b.get_block(), Some(0x13000));
    b.return_block(0x10800);
    assert_eq!(b.get_block(), Some(0x10000));
    assert_eq!(b.get_block(), Some(0x14000));
    assert_eq!(b.get_block(), None);
    assert_eq!(b.num_free_blocks(), 0);
}

#[test]
fn bitmap_over_many_words() {
    let mut b = Bitmap::initialize(0, 200 * 16, 16);
    assert_eq!(b.num_free_blocks(), 200);
    for i in 0..150 {
        assert_eq!(b.get_block(), Some(i * 16));
    }
    assert_eq!(b.num_free_blocks(), 50);
    b.return_block(70 * 16);
    assert_eq!(b.get_block(), Some(70 * 16));
}

#[test]
fn fixed_size_allocates_lowest_block() {
    let mut a = FixedSizeAllocator::new(3, 64, 16, 0x4000);
    assert_eq!(a.run_allocation(32, 8), Ok(MemoryBlock { addr: 0x4000, len: 64 }));
    assert_eq!(a.run_allocation(64, 16), Ok(MemoryBlock { addr: 0x4040, len: 64 }));
    // too large or too strictly aligned requests are refused
    assert_eq!(a.run_allocation(65, 8), Err(AllocError));
    assert_eq!(a.run_allocation(8, 32), Err(AllocError));
    a.run_deallocation(0x4000);
    assert_eq!(a.run_allocation(1, 1), Ok(MemoryBlock { addr: 0x4000, len: 64 }));
    assert_eq!(a.run_allocation(1, 1), Ok(MemoryBlock { addr: 0x4080, len: 64 }));
    assert_eq!(a.run_allocation(1, 1), Err(AllocError));
    // an address past the last block changes nothing
    a.run_deallocation(0x5000);
    assert_eq!(a.run_allocation(1, 1), Err(AllocError));
}

#[test]
fn fixed_size_with_no_blocks_refuses() {
    let mut a = FixedSizeAllocator::new(0, 64, 16, 0x4000);
    assert_eq!(a.run_allocation(1, 1), Err(AllocError));
}

fn manager_with(areas: &[MemoryArea]) -> SimpleMemoryManager {
    let mut m = SimpleMemoryManager::new();
    m.init(areas);
    for a in areas {
        if a.typ == MemoryAreaType::Available {
            m.add_memory_area(a);
        }
    }
    m
}

#[test]
fn memory_manager_before_init_refuses() {
    let mut m = SimpleMemoryManager::new();
    assert_eq!(m.allocate(16), Err(AllocError));
    assert_eq!(m.total_free_pages(), 0);
    assert_eq!(m.extra_mem.0.start, 0x100000);
}

#[test]
fn memory_manager_hands_out_pages_in_order() {
    let areas = [
        MemoryArea { start_address: 0, size: 0x3000, typ: MemoryAreaType::Available },
        MemoryArea { start_address: 0x9f000, size: 0x1000, typ: MemoryAreaType::Reserved },
        MemoryArea { start_address: 0x100000, size: 0x2000, typ: MemoryAreaType::Available },
    ];
    let mut m = manager_with(&areas);
    // the area at address zero gives up its first page
    assert_eq!(m.total_free_pages(), 4);
    assert_eq!(m.allocate(PAGE_SIZE + 1), Err(AllocError));
    assert_eq!(m.allocate(8), Ok(MemoryBlock { addr: 0x1000, len: PAGE_SIZE }));
    assert_eq!(m.allocate(PAGE_SIZE), Ok(MemoryBlock { addr: 0x2000, len: PAGE_SIZE }));
    assert_eq!(m.allocate(1), Ok(MemoryBlock { addr: 0x100000, len: PAGE_SIZE }));
    m.deallocate(0x2000);
    assert_eq!(m.allocate(1), Ok(MemoryBlock { addr: 0x2000, len: PAGE_SIZE }));
    assert_eq!(m.allocate(1), Ok(MemoryBlock { addr: 0x101000, len: PAGE_SIZE }));
    assert_eq!(m.allocate(1), Err(AllocError));
    assert_eq!(m.total_free_pages(), 0);
}

#[test]
fn memory_manager_marks_areas_used() {
    let areas = [MemoryArea { start_address: 0x100000, size: 0x8000, typ: MemoryAreaType::Available }];
    let mut m = manager_with(&areas);
    m.set_area_used(0x100800, 0x1000);
    // the region touches the first two pages
    assert_eq!(m.total_free_pages(), 6);
    assert_eq!(m.allocate(1), Ok(MemoryBlock { addr: 0x102000, len: PAGE_SIZE }));
    let mut kernel = BumpAllocator::new(0x103000);
    kernel.allocate(0x1800, 1).unwrap();
    m.set_kernel_memory_used(&kernel);
    assert_eq!(m.total_free_pages(), 3);
    assert_eq!(m.allocate(1), Ok(MemoryBlock { addr: 0x105000, len: PAGE_SIZE }));
}

#[test]
fn memory_manager_moves_extra_memory_past_ram() {
    let areas = [
        MemoryArea { start_address: 0x100000, size: 0x8000, typ: MemoryAreaType::Available },
        MemoryArea { start_address: 0x200000, size: 0x1000, typ: MemoryAreaType::Available },
    ];
    let mut m = manager_with(&areas);
    m.done_adding_memory_areas();
    assert_eq!(m.extra_mem.0.start, 0x201000);
    assert_eq!(m.extra_mem.0.end, 0x201000);
    let mut kernel = BumpAllocator::new(0x1000);
    let page = m.get_complete_virtual_page(&mut kernel);
    assert_eq!(page, 0x2000);
}

#[test]
fn io_ports_are_handed_out_once() {
    let mut m = IoPortManager::new();
    let p = m.get_port(0x3f8).unwrap();
    assert_eq!(p.address(), 0x3f8);
    assert!(m.get_port(0x3f8).is_none());
    assert!(m.get_ports(0x3f0, 16).is_none());
    let a = m.get_ports(0x60, 5).unwrap();
    assert_eq!(a.get_base(), 0x60);
    assert_eq!(a.port(3).address(), 0x63);
    assert!(m.get_port(0x64).is_none());
    m.return_ports(&a);
    assert_eq!(m.get_port(0x64).unwrap().address(), 0x64);
}

#[test]
fn gdt_grows_and_reports_limit() {
    let mut g = GlobalDescriptorTable::new();
    assert_eq!(g.len(), 1);
    assert_eq!(g.limit(), 7);
    g.const_add_entry(0x00af9a000000ffff);
    g.const_add_entry(0x00cf92000000ffff);
    assert_eq!(g.len(), 3);
    assert_eq!(g.limit(), 23);
}

#[test]
fn idt_gate_holds_handler_address() {
    let mut t = InterruptDescriptorTable::new();
    assert_eq!(t.gate(32), [0, 0]);
    t.set_handler(32, 0x12345678);
    assert_eq!(t.gate(32), [0x0008_5678, 0x1234_8e00]);
    t.set_handler_without_arg(255, 0xabcd);
    let g = t.gate(255);
    assert_eq!((g[0] & 0xffff) | (g[1] & 0xffff_0000), 0xabcd);
}

#[test]
fn multiboot_header_sums_to_zero() {
    let m = Multiboot::new();
    assert_eq!(m.magic, MULTIBOOT2_MAGIC);
    assert_eq!(m.length, 0x10);
    assert_eq!(m.magic.wrapping_add(m.arch).wrapping_add(m.length).wrapping_add(m.checksum), 0);
}

#[test]
fn boot_gdt_has_code_and_data_segments() {
    let g = make_gdt_table();
    assert_eq!(g.len(), 3);
    assert_eq!(g.limit(), 23);
}
