//! Access to the active address space: where its root table lives and how
//! physical addresses are reached from kernel code.

use vstd::prelude::*;

use crate::addr::{PhysicalAddr, VirtualAddr};

verus! {

/// Translation of a physical address through the direct map, wrapping
/// around the 64-bit address space as the hardware adder would.
pub open spec fn spec_hhdm_translate(physical: u64, offset: u64) -> u64 {
    if physical + offset > u64::MAX {
        (physical + offset - 0x1_0000_0000_0000_0000) as u64
    } else {
        (physical + offset) as u64
    }
}

/// A page directory: the root of an address space, and the translation
/// that makes physical memory reachable from kernel code.
pub trait PageDirectory {
    /// The translation `translate` implements, as a mathematical function.
    spec fn spec_translate(&self, physical: u64) -> u64;

    /// Kernel-accessible address of the root page table.
    fn root_page_table_addr(&self) -> (r: VirtualAddr);

    /// Kernel-accessible address of any physical address.
    fn translate(&self, physical_addr: PhysicalAddr) -> (r: VirtualAddr)
        ensures
            r@ == self.spec_translate(physical_addr@),
    ;
}

/// The directory the bootloader hands over: a root table address and a
/// direct-map offset.
#[derive(Clone, Copy, Debug)]
pub struct LiminePageDirectory {
    pub hhdm_offset: u64,
    pub root_page_table: PhysicalAddr,
}

impl LiminePageDirectory {
    pub fn new(hhdm_offset: u64, root_page_table: PhysicalAddr) -> (r: Self)
        ensures
            r.hhdm_offset == hhdm_offset,
            r.root_page_table == root_page_table,
    {
        LiminePageDirectory { hhdm_offset, root_page_table }
    }
}

impl PageDirectory for LiminePageDirectory {
    open spec fn spec_translate(&self, physical: u64) -> u64 {
        spec_hhdm_translate(physical, self.hhdm_offset)
    }

    fn translate(&self, physical_addr: PhysicalAddr) -> (r: VirtualAddr)
        ensures
            r@ == self.spec_translate(physical_addr@),
    {
        VirtualAddr::new(physical_addr.raw().wrapping_add(self.hhdm_offset))
    }

    fn root_page_table_addr(&self) -> (r: VirtualAddr) {
        self.translate(self.root_page_table)
    }
}

} // verus!
