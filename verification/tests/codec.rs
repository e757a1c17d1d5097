use nekos_mem::addr::{KernelMemoryManager, PhysicalAddr, VirtualAddr};
use nekos_mem::flags::VirtualMemoryFlags;
use nekos_mem::misc::{align_down, align_up};
use nekos_mem::page_table::{PagingMode, VPN};
use nekos_mem::pte::{
    PageTableEntry, PageTableFlags, PPN, PTE_EXECUTABLE, PTE_READABLE, PTE_USER, PTE_VALID,
    PTE_WRITABLE,
};
use nekos_mem::PAGE_SIZE;

#[test]
fn alignment_predicate_matches_modulo() {
    assert!(VirtualAddr::new(0x4000_0000).is_aligned_with(PAGE_SIZE));
    assert!(!VirtualAddr::new(0x4000_0001).is_aligned_with(PAGE_SIZE));
    assert!(PhysicalAddr::new(0).is_aligned_with(PAGE_SIZE));
    assert!(PhysicalAddr::new(4096).is_aligned_with(PAGE_SIZE));
    assert!(!PhysicalAddr::new(4095).is_aligned_with(PAGE_SIZE));
    assert!(PhysicalAddr::new(6).is_aligned_with(3));
}

#[test]
fn align_up_and_down_exact_values() {
    assert_eq!(align_up(0, 4096), 0);
    assert_eq!(align_up(1, 4096), 4096);
    assert_eq!(align_up(4096, 4096), 4096);
    assert_eq!(align_up(4097, 4096), 8192);
    assert_eq!(align_down(0, 4096), 0);
    assert_eq!(align_down(4095, 4096), 0);
    assert_eq!(align_down(4096, 4096), 4096);
    assert_eq!(align_down(8191, 4096), 4096);
}

#[test]
fn hhdm_translation_adds_the_offset() {
    let v = KernelMemoryManager::translate_hhdm(PhysicalAddr::new(0x8000_0000), 0xFFFF_8000_0000_0000);
    assert_eq!(v.raw(), 0xFFFF_8000_8000_0000);
}

#[test]
fn flag_translation_always_forces_valid_and_readable() {
    assert_eq!(PageTableFlags::new(VirtualMemoryFlags::empty()).bits(), PTE_VALID | PTE_READABLE);
    assert_eq!(
        PageTableFlags::new(VirtualMemoryFlags::new(true, false, false, false)).bits(),
        PTE_VALID | PTE_READABLE | PTE_WRITABLE
    );
    assert_eq!(
        PageTableFlags::new(VirtualMemoryFlags::new(false, true, false, false)).bits(),
        PTE_VALID | PTE_READABLE | PTE_EXECUTABLE
    );
    assert_eq!(
        PageTableFlags::new(VirtualMemoryFlags::new(false, false, true, false)).bits(),
        PTE_VALID | PTE_READABLE | PTE_USER
    );
    assert_eq!(
        PageTableFlags::new(VirtualMemoryFlags::new(true, true, true, false)).bits(),
        PTE_VALID | PTE_READABLE | PTE_WRITABLE | PTE_EXECUTABLE | PTE_USER
    );
    // The MMIO capability has no bit in this hardware encoding.
    assert_eq!(
        PageTableFlags::new(VirtualMemoryFlags::new(false, false, false, true)).bits(),
        PTE_VALID | PTE_READABLE
    );
}

#[test]
fn entry_encodes_ppn_and_flag_byte() {
    let ppn = PPN::new(0x12345);
    let flags = PageTableFlags::from_bits(PTE_VALID | PTE_WRITABLE);
    let e = PageTableEntry::new(ppn, flags);
    assert_eq!(e.0, (0x12345 << 10) | 0x5);
    assert_eq!(e.ppn().value(), 0x12345);
    assert_eq!(e.flags().bits(), 0x5);
    assert!(e.has_flag(PageTableFlags::from_bits(PTE_VALID)));
    assert!(e.has_flag(PageTableFlags::from_bits(PTE_WRITABLE)));
    assert!(!e.has_flag(PageTableFlags::from_bits(PTE_READABLE)));
}

#[test]
fn set_flags_replaces_only_the_flag_byte() {
    let mut e = PageTableEntry::new(PPN::new(0x777), PageTableFlags::from_bits(PTE_VALID));
    e.set_flags(PageTableFlags::from_bits(PTE_VALID | PTE_READABLE | PTE_WRITABLE));
    assert_eq!(e.ppn().value(), 0x777);
    assert_eq!(e.flags().bits(), 0x7);
}

#[test]
fn ppn_round_trips_page_aligned_addresses() {
    let addr = PhysicalAddr::new(0x8000_0000);
    let ppn = PPN::from_physical_addr(addr);
    assert_eq!(ppn.value(), 0x8000_0000u64 >> 12);
    assert_eq!(ppn.as_physical_addr().raw(), 0x8000_0000);
}

#[test]
fn vpn_parse_slices_nine_bits_per_level() {
    // Bits chosen so every slice differs: vpn0 = 1, vpn1 = 2, vpn2 = 3,
    // vpn3 = 4, vpn4 = 5.
    let va = VirtualAddr::new(
        (1u64 << 12) | (2u64 << 21) | (3u64 << 30) | (4u64 << 39) | (5u64 << 48),
    );
    let sv39 = VPN::parse(PagingMode::Sv39, va);
    assert_eq!(sv39.vpn0, 1);
    assert_eq!(sv39.vpn1, 2);
    assert_eq!(sv39.vpn2, 3);
    assert_eq!(sv39.vpn3, None);
    assert_eq!(sv39.vpn4, None);
    let sv48 = VPN::parse(PagingMode::Sv48, va);
    assert_eq!(sv48.vpn3, Some(4));
    assert_eq!(sv48.vpn4, None);
    let sv57 = VPN::parse(PagingMode::Sv57, va);
    assert_eq!(sv57.vpn3, Some(4));
    assert_eq!(sv57.vpn4, Some(5));
    assert_eq!(VPN::extract(va, 12), 1);
}

#[test]
fn paging_modes_name_their_depth() {
    assert_eq!(PagingMode::Sv39.levels(), 3);
    assert_eq!(PagingMode::Sv48.levels(), 4);
    assert_eq!(PagingMode::Sv57.levels(), 5);
}
