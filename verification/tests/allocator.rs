use nekos_mem::addr::PhysicalAddr;
use nekos_mem::page_allocator::{
    allocate_pages, deallocate_pages, AllocError, FreeListAllocator,
};
use nekos_mem::PAGE_SIZE;

fn total_free(a: &FreeListAllocator) -> u64 {
    let mut sum: u64 = 0;
    let mut i: usize = 0;
    while let Some(node) = a.region_at(i) {
        sum += node.num_frames;
        i += 1;
    }
    sum
}

fn assert_no_adjacent_regions(a: &FreeListAllocator) {
    let mut i: usize = 0;
    loop {
        let (left, right) = match (a.region_at(i), a.region_at(i + 1)) {
            (Some(l), Some(r)) => (l, r),
            _ => break,
        };
        assert_ne!(
            left.base.raw() + left.num_frames * PAGE_SIZE,
            right.base.raw(),
            "two adjacent free regions were left uncoalesced"
        );
        i += 1;
    }
}

#[test]
fn seed_single_region() {
    let mut a = FreeListAllocator::new();
    assert!(a.head().is_none());
    a.seed(PhysicalAddr::new(0x1000_0000), 16);
    let head = a.head().unwrap();
    assert_eq!(head.base.raw(), 0x1000_0000);
    assert_eq!(head.num_frames, 16);
    assert_eq!(a.region_count(), 1);
}

#[test]
fn seed_merges_adjacent_tail() {
    let mut a = FreeListAllocator::new();
    a.seed(PhysicalAddr::new(0x1000_0000), 4);
    a.seed(PhysicalAddr::new(0x1000_0000 + 4 * PAGE_SIZE), 4);
    assert_eq!(a.region_count(), 1);
    assert_eq!(a.head().unwrap().num_frames, 8);
    assert_no_adjacent_regions(&a);
}

#[test]
fn seed_keeps_gap_regions_separate() {
    let mut a = FreeListAllocator::new();
    a.seed(PhysicalAddr::new(0x1000_0000), 4);
    a.seed(PhysicalAddr::new(0x1000_0000 + 8 * PAGE_SIZE), 4);
    assert_eq!(a.region_count(), 2);
    assert_no_adjacent_regions(&a);
}

#[test]
fn allocate_on_empty_list_is_out_of_memory() {
    let mut a = FreeListAllocator::new();
    assert_eq!(a.allocate(1), Err(AllocError::OutOfMemory));
}

#[test]
fn allocate_too_large_is_out_of_memory_and_changes_nothing() {
    let mut a = FreeListAllocator::new();
    a.seed(PhysicalAddr::new(0x1000_0000), 8);
    assert_eq!(a.allocate(9), Err(AllocError::OutOfMemory));
    assert_eq!(a.region_count(), 1);
    assert_eq!(a.head().unwrap().num_frames, 8);
}

#[test]
fn allocate_exact_match_removes_region() {
    let mut a = FreeListAllocator::new();
    a.seed(PhysicalAddr::new(0x1000_0000), 8);
    let got = a.allocate(8).unwrap();
    assert_eq!(got.raw(), 0x1000_0000);
    assert_eq!(a.region_count(), 0);
    assert_eq!(a.allocate(1), Err(AllocError::OutOfMemory));
}

#[test]
fn allocate_carves_from_region_end() {
    let mut a = FreeListAllocator::new();
    a.seed(PhysicalAddr::new(0x1000_0000), 16);
    let got = a.allocate(4).unwrap();
    assert_eq!(got.raw(), 0x1000_0000 + 12 * PAGE_SIZE);
    let head = a.head().unwrap();
    assert_eq!(head.base.raw(), 0x1000_0000);
    assert_eq!(head.num_frames, 12);
}

#[test]
fn allocate_is_first_fit_from_the_head() {
    let mut a = FreeListAllocator::new();
    a.seed(PhysicalAddr::new(0x1000_0000), 2);
    a.seed(PhysicalAddr::new(0x2000_0000), 8);
    let got = a.allocate(4).unwrap();
    assert_eq!(got.raw(), 0x2000_0000 + 4 * PAGE_SIZE);
    assert_eq!(a.region_count(), 2);
    assert_eq!(a.region_at(0).unwrap().num_frames, 2);
    assert_eq!(a.region_at(1).unwrap().num_frames, 4);
}

#[test]
fn sixteen_frame_scenario_round_trip() {
    let mut a = FreeListAllocator::new();
    a.seed(PhysicalAddr::new(0x1000_0000), 16);
    let got = a.allocate(4).unwrap();
    assert_eq!(got.raw(), 0x1000_0000 + 12 * PAGE_SIZE);
    assert_eq!(total_free(&a), 12);
    a.deallocate(got, 4);
    assert_eq!(a.region_count(), 1);
    let head = a.head().unwrap();
    assert_eq!(head.base.raw(), 0x1000_0000);
    assert_eq!(head.num_frames, 16);
    assert_no_adjacent_regions(&a);
}

#[test]
fn deallocate_coalesces_with_both_neighbours() {
    let mut a = FreeListAllocator::new();
    a.seed(PhysicalAddr::new(0x1000_0000), 4);
    a.seed(PhysicalAddr::new(0x1000_0000 + 8 * PAGE_SIZE), 4);
    assert_eq!(a.region_count(), 2);
    a.deallocate(PhysicalAddr::new(0x1000_0000 + 4 * PAGE_SIZE), 4);
    assert_eq!(a.region_count(), 1);
    let head = a.head().unwrap();
    assert_eq!(head.base.raw(), 0x1000_0000);
    assert_eq!(head.num_frames, 12);
    assert_no_adjacent_regions(&a);
}

#[test]
fn deallocate_in_address_order_position() {
    let mut a = FreeListAllocator::new();
    a.seed(PhysicalAddr::new(0x1000_0000), 2);
    a.seed(PhysicalAddr::new(0x3000_0000), 2);
    a.deallocate(PhysicalAddr::new(0x2000_0000), 2);
    assert_eq!(a.region_count(), 3);
    assert_eq!(a.region_at(0).unwrap().base.raw(), 0x1000_0000);
    assert_eq!(a.region_at(1).unwrap().base.raw(), 0x2000_0000);
    assert_eq!(a.region_at(2).unwrap().base.raw(), 0x3000_0000);
    assert_no_adjacent_regions(&a);
}

#[test]
fn conservation_over_a_request_sequence() {
    let mut a = FreeListAllocator::new();
    let mut expected: i64 = 0;
    a.seed(PhysicalAddr::new(0x1000_0000), 16);
    expected += 16;
    a.seed(PhysicalAddr::new(0x4000_0000), 32);
    expected += 32;
    let p1 = a.allocate(5).unwrap();
    expected -= 5;
    let p2 = a.allocate(16).unwrap();
    expected -= 16;
    assert_eq!(total_free(&a) as i64, expected);
    a.deallocate(p1, 5);
    expected += 5;
    assert_eq!(a.allocate(64), Err(AllocError::OutOfMemory));
    a.deallocate(p2, 16);
    expected += 16;
    assert_eq!(total_free(&a) as i64, expected);
    assert_eq!(expected, 48);
    assert_no_adjacent_regions(&a);
}

#[test]
fn module_level_allocation_api() {
    let mut a = FreeListAllocator::new();
    a.seed(PhysicalAddr::new(0x1000_0000), 8);
    let got = allocate_pages(&mut a, 3).unwrap();
    assert_eq!(got.raw(), 0x1000_0000 + 5 * PAGE_SIZE);
    deallocate_pages(&mut a, got, 3);
    assert_eq!(total_free(&a), 8);
    assert_eq!(a.region_count(), 1);
}

#[test]
fn free_list_node_end_and_adjacency() {
    let left = nekos_mem::page_allocator::FreeListNode {
        base: PhysicalAddr::new(0x1000_0000),
        num_frames: 4,
    };
    let right = nekos_mem::page_allocator::FreeListNode {
        base: PhysicalAddr::new(0x1000_0000 + 4 * PAGE_SIZE),
        num_frames: 1,
    };
    assert_eq!(left.end().raw(), 0x1000_0000 + 4 * PAGE_SIZE);
    assert!(left.is_adjacent(&right));
    assert!(!right.is_adjacent(&left));
}
