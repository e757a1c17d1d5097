use nekos_mem::addr::{PhysicalAddr, VirtualAddr};
use nekos_mem::flags::VirtualMemoryFlags;
use nekos_mem::page_allocator::FreeListAllocator;
use nekos_mem::page_table::{
    choose_page_size, PageMapErr, PageTableMemory, PagingMode, SIZE_1G, SIZE_2M,
};
use nekos_mem::pte::PageTableEntry;
use nekos_mem::PAGE_SIZE;

/// An allocator seeded with plenty of low physical memory, and a fresh,
/// empty root table taken from it.
fn setup() -> (PageTableMemory, FreeListAllocator, PhysicalAddr) {
    let mut allocator = FreeListAllocator::new();
    allocator.seed(PhysicalAddr::new(0x8000_0000), 64);
    let mut memory = PageTableMemory::new();
    let root = memory.allocate_table(&mut allocator).unwrap();
    (memory, allocator, root)
}

fn leaf_word(pa: u64) -> u64 {
    // Valid + Readable, the flags the mapper always forces for an empty
    // capability set.
    ((pa >> 12) << 10) | 0x3
}

#[test]
fn unaligned_virtual_address_is_rejected_untouched() {
    let (mut memory, mut allocator, root) = setup();
    let tables_before = memory.table_count();
    let r = memory.map_range(
        &mut allocator,
        root,
        VirtualAddr::new(0x4000_0123),
        PhysicalAddr::new(0x8000_0000),
        PAGE_SIZE,
        VirtualMemoryFlags::empty(),
        PagingMode::Sv39,
    );
    assert_eq!(r, Err(PageMapErr::UnalignedVirtualAddr));
    assert_eq!(memory.table_count(), tables_before);
    assert_eq!(memory.read_entry_at(root, 0), Some(0));
}

#[test]
fn unaligned_physical_address_is_rejected_untouched() {
    let (mut memory, mut allocator, root) = setup();
    let r = memory.map_range(
        &mut allocator,
        root,
        VirtualAddr::new(0x4000_0000),
        PhysicalAddr::new(0x8000_0fff),
        PAGE_SIZE,
        VirtualMemoryFlags::empty(),
        PagingMode::Sv39,
    );
    assert_eq!(r, Err(PageMapErr::UnalignedPhysicalAddr));
    assert_eq!(memory.table_count(), 1);
}

#[test]
fn unaligned_length_is_rejected_untouched() {
    let (mut memory, mut allocator, root) = setup();
    let r = memory.map_range(
        &mut allocator,
        root,
        VirtualAddr::new(0x4000_0000),
        PhysicalAddr::new(0x8000_0000),
        PAGE_SIZE + 1,
        VirtualMemoryFlags::empty(),
        PagingMode::Sv39,
    );
    assert_eq!(r, Err(PageMapErr::UnalignedSize));
    assert_eq!(memory.table_count(), 1);
}

#[test]
fn greedy_choice_prefers_the_largest_supported_size() {
    // 1 GiB + 4 KiB starting 1-GiB-aligned: first a 1 GiB chunk, then a
    // 4 KiB chunk; never 2 MiB.
    let len = SIZE_1G + PAGE_SIZE;
    let first = choose_page_size(0x4000_0000, 0x8000_0000, len);
    assert_eq!(first, SIZE_1G);
    let second = choose_page_size(0x4000_0000 + first, 0x8000_0000 + first, len - first);
    assert_eq!(second, PAGE_SIZE);
    // 2 MiB is picked when 1 GiB is out of reach but 2 MiB alignment holds.
    assert_eq!(choose_page_size(0x4020_0000, 0x8020_0000, SIZE_2M), SIZE_2M);
    // Misaligned cursors force the base page size.
    assert_eq!(choose_page_size(0x4000_1000, 0x8000_0000, SIZE_1G), PAGE_SIZE);
}

#[test]
fn one_gigapage_plus_one_page_yields_two_leaves() {
    let (mut memory, mut allocator, root) = setup();
    let r = memory.map_range(
        &mut allocator,
        root,
        VirtualAddr::new(0x4000_0000),
        PhysicalAddr::new(0x10_0000_0000),
        SIZE_1G + PAGE_SIZE,
        VirtualMemoryFlags::empty(),
        PagingMode::Sv39,
    );
    assert_eq!(r, Ok(()));
    // The 1 GiB leaf sits directly in the root at index 1 (bits 30..39 of
    // 0x4000_0000).
    assert_eq!(memory.read_entry_at(root, 1), Some(leaf_word(0x10_0000_0000)));
    // The trailing 4 KiB page needed two intermediate tables below root
    // index 2.
    assert_eq!(memory.table_count(), 3);
    let l1_ptr = memory.read_entry_at(root, 2).unwrap();
    let l1 = PageTableEntry(l1_ptr).ppn().as_physical_addr();
    let l0_ptr = memory.read_entry_at(l1, 0).unwrap();
    let l0 = PageTableEntry(l0_ptr).ppn().as_physical_addr();
    assert_eq!(memory.read_entry_at(l0, 0), Some(leaf_word(0x10_0000_0000 + SIZE_1G)));
}

#[test]
fn two_gigapages_in_sv39_touch_only_the_root() {
    let (mut memory, mut allocator, root) = setup();
    let r = memory.map_range(
        &mut allocator,
        root,
        VirtualAddr::new(0x4000_0000),
        PhysicalAddr::new(0x8000_0000),
        2 * SIZE_1G,
        VirtualMemoryFlags::empty(),
        PagingMode::Sv39,
    );
    assert_eq!(r, Ok(()));
    // In Sv39 the root is the gigapage level: no intermediate tables, two
    // leaves in neighbouring root slots.
    assert_eq!(memory.table_count(), 1);
    assert_eq!(memory.read_entry_at(root, 1), Some(leaf_word(0x8000_0000)));
    assert_eq!(memory.read_entry_at(root, 2), Some(leaf_word(0x8000_0000 + SIZE_1G)));
    assert_eq!(memory.read_entry_at(root, 0), Some(0));
    assert_eq!(memory.read_entry_at(root, 3), Some(0));
}

#[test]
fn two_gigapages_in_sv48_share_one_intermediate_table() {
    let (mut memory, mut allocator, root) = setup();
    let r = memory.map_range(
        &mut allocator,
        root,
        VirtualAddr::new(0x4000_0000),
        PhysicalAddr::new(0x8000_0000),
        2 * SIZE_1G,
        VirtualMemoryFlags::empty(),
        PagingMode::Sv48,
    );
    assert_eq!(r, Ok(()));
    // One level sits above the gigapage level in Sv48; both leaves share
    // the single table it allocates.
    assert_eq!(memory.table_count(), 2);
    let l2_ptr = memory.read_entry_at(root, 0).unwrap();
    assert_ne!(l2_ptr, 0);
    let l2 = PageTableEntry(l2_ptr).ppn().as_physical_addr();
    assert_eq!(memory.read_entry_at(l2, 1), Some(leaf_word(0x8000_0000)));
    assert_eq!(memory.read_entry_at(l2, 2), Some(leaf_word(0x8000_0000 + SIZE_1G)));
}

#[test]
fn map_page_builds_the_whole_walk() {
    let (mut memory, mut allocator, root) = setup();
    let r = memory.map_page(
        &mut allocator,
        root,
        VirtualAddr::new(0x0000_0000),
        PhysicalAddr::new(0x9000_0000),
        VirtualMemoryFlags::new(true, false, false, false),
        PagingMode::Sv39,
    );
    assert_eq!(r, Ok(()));
    assert_eq!(memory.table_count(), 3);
    let l1 = PageTableEntry(memory.read_entry_at(root, 0).unwrap()).ppn().as_physical_addr();
    let l0 = PageTableEntry(memory.read_entry_at(l1, 0).unwrap()).ppn().as_physical_addr();
    // Valid + Readable + Writable.
    assert_eq!(memory.read_entry_at(l0, 0), Some(((0x9000_0000u64 >> 12) << 10) | 0x7));
}

#[test]
fn map_page_in_sv57_walks_five_levels() {
    let (mut memory, mut allocator, root) = setup();
    let r = memory.map_page(
        &mut allocator,
        root,
        VirtualAddr::new(0x4000_0000),
        PhysicalAddr::new(0x9000_0000),
        VirtualMemoryFlags::empty(),
        PagingMode::Sv57,
    );
    assert_eq!(r, Ok(()));
    // Four intermediate tables below the root.
    assert_eq!(memory.table_count(), 5);
}

#[test]
fn allocation_failure_leaves_partial_walk_installed() {
    let mut allocator = FreeListAllocator::new();
    // Exactly two frames: one for the root, one for the first intermediate
    // table. The walk to a 4 KiB leaf in Sv39 needs two intermediates, so
    // it must fail halfway through.
    allocator.seed(PhysicalAddr::new(0x8000_0000), 2);
    let mut memory = PageTableMemory::new();
    let root = memory.allocate_table(&mut allocator).unwrap();
    let r = memory.map_page(
        &mut allocator,
        root,
        VirtualAddr::new(0),
        PhysicalAddr::new(0x9000_0000),
        VirtualMemoryFlags::empty(),
        PagingMode::Sv39,
    );
    assert_eq!(r, Err(PageMapErr::PageFrameAllocError));
    // The intermediate built before the failure stays installed.
    assert_eq!(memory.table_count(), 2);
    assert_ne!(memory.read_entry_at(root, 0), Some(0));
}

#[test]
fn remapping_overwrites_the_previous_leaf() {
    let (mut memory, mut allocator, root) = setup();
    let va = VirtualAddr::new(0x4000_0000);
    let r1 = memory.map_range(
        &mut allocator,
        root,
        va,
        PhysicalAddr::new(0x8000_0000),
        SIZE_1G,
        VirtualMemoryFlags::empty(),
        PagingMode::Sv39,
    );
    assert_eq!(r1, Ok(()));
    let r2 = memory.map_range(
        &mut allocator,
        root,
        va,
        PhysicalAddr::new(0xC000_0000),
        SIZE_1G,
        VirtualMemoryFlags::empty(),
        PagingMode::Sv39,
    );
    assert_eq!(r2, Ok(()));
    assert_eq!(memory.read_entry_at(root, 1), Some(leaf_word(0xC000_0000)));
}

#[test]
fn mapping_spends_one_frame_per_new_table() {
    let (mut memory, mut allocator, root) = setup();
    let free_before: u64 = {
        let mut sum: u64 = 0;
        let mut i: usize = 0;
        while let Some(n) = allocator.region_at(i) {
            sum += n.num_frames;
            i += 1;
        }
        sum
    };
    let tables_before = memory.table_count() as u64;
    memory
        .map_page(
            &mut allocator,
            root,
            VirtualAddr::new(0),
            PhysicalAddr::new(0x9000_0000),
            VirtualMemoryFlags::empty(),
            PagingMode::Sv39,
        )
        .unwrap();
    let free_after: u64 = {
        let mut sum: u64 = 0;
        let mut i: usize = 0;
        while let Some(n) = allocator.region_at(i) {
            sum += n.num_frames;
            i += 1;
        }
        sum
    };
    let tables_after = memory.table_count() as u64;
    assert_eq!(free_before - free_after, tables_after - tables_before);
}
