use doors::heap::{HeapManager, HeapNode};

#[test]
fn with_ptr_rounds_size_up_to_node_alignment() {
    let n = HeapNode::with_ptr(0x1000, 13);
    assert_eq!(n.start, 0x1000);
    assert_eq!(n.size, 16);
    let m = HeapNode::with_ptr(0x2000, 24);
    assert_eq!(m.size, 24);
    assert_eq!(m.next_address(), 0x2018);
    assert_eq!(m.start(), 0x2000);
}

#[test]
fn calc_alignment_pads_front_and_back() {
    let n = HeapNode { start: 0x1004, size: 100 };
    let a = n.calc_alignment(10, 16);
    assert_eq!(a.pre_align, 12);
    assert_eq!(a.post_align, 6);
    assert_eq!(a.size_needed, 28);
    let b = HeapNode { start: 0x1000, size: 100 }.calc_alignment(8, 8);
    assert_eq!(b.pre_align, 0);
    assert_eq!(b.post_align, 0);
    assert_eq!(b.size_needed, 8);
    let c = HeapNode { start: 0, size: 100 }.calc_alignment(5, 8);
    assert_eq!(c.post_align, 3);
    assert_eq!(c.size_needed, c.pre_align + 5 + c.post_align);
}

#[test]
fn empty_heap_returns_null() {
    let mut h = HeapManager::new();
    assert_eq!(h.allocate(16, 8), 0);
    assert!(h.free_nodes(0).is_empty());
}

#[test]
fn allocation_splits_the_node() {
    let mut h = HeapManager::new();
    h.init(0, 0x1000, 0x100);
    assert_eq!(h.allocate(16, 8), 0x1000);
    assert_eq!(h.free_nodes(0), &vec![HeapNode { start: 0x1010, size: 0xf0 }]);
    // a small alignment is raised to the node alignment
    assert_eq!(h.allocate(3, 1), 0x1010);
    assert_eq!(h.free_nodes(0), &vec![HeapNode { start: 0x1018, size: 0xe8 }]);
}

#[test]
fn init_twice_keeps_first_area() {
    let mut h = HeapManager::new();
    h.init(1, 0x1000, 0x100);
    h.init(1, 0x5000, 0x100);
    assert_eq!(h.free_nodes(1), &vec![HeapNode { start: 0x1000, size: 0x100 }]);
}

#[test]
fn first_area_with_room_serves() {
    let mut h = HeapManager::new();
    h.init(0, 0x1000, 0x10);
    h.init(1, 0x2000, 0x100);
    assert_eq!(h.allocate(0x20, 8), 0x2000);
    assert_eq!(h.free_nodes(0), &vec![HeapNode { start: 0x1000, size: 0x10 }]);
    assert_eq!(h.free_nodes(1), &vec![HeapNode { start: 0x2020, size: 0xe0 }]);
}

#[test]
fn node_too_small_to_keep_is_removed() {
    let mut h = HeapManager::new();
    h.init(0, 0x1000, 0x20);
    assert_eq!(h.allocate(0x1c, 8), 0x1000);
    assert!(h.free_nodes(0).is_empty());
    assert_eq!(h.allocate(8, 8), 0);
}

#[test]
fn remainder_of_one_header_is_kept() {
    let mut h = HeapManager::new();
    h.init(0, 0x1000, 0x20);
    assert_eq!(h.allocate(0x18, 8), 0x1000);
    assert_eq!(h.free_nodes(0), &vec![HeapNode { start: 0x1018, size: 8 }]);
}

#[test]
fn aligned_allocation_skips_front_padding() {
    let mut h = HeapManager::new();
    h.init(0, 0x100c, 0x100);
    let p = h.allocate(10, 16);
    assert_eq!(p, 0x1010);
    assert_eq!(p % 16, 0);
    assert_eq!(h.free_nodes(0), &vec![HeapNode { start: 0x1020, size: 0xec }]);
}

#[test]
fn dealloc_leaves_heap_alone() {
    let mut h = HeapManager::new();
    h.init(0, 0x1000, 0x100);
    let p = h.allocate(16, 8);
    h.run_dealloc(p, 16);
    assert_eq!(h.free_nodes(0), &vec![HeapNode { start: 0x1010, size: 0xf0 }]);
}

#[test]
fn heap_report_lists_areas() {
    let mut h = HeapManager::new();
    assert_eq!(h.print(), "Heap is empty\r\nHeap is empty\r\nHeap is empty\r\n");
    h.init(1, 0x1000, 0x100);
    assert_eq!(
        h.print(),
        "Heap is empty\r\nhead: 0x1000\r\nheap node is size 100 10ff\r\nHeap is empty\r\n"
    );
}
