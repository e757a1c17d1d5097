//! Typed, non-interchangeable wrappers for physical and virtual addresses,
//! with alignment predicates and the direct-map (HHDM) translation.

use vstd::prelude::*;

verus! {

/// An address in the kernel's virtual address space.
#[derive(Clone, Copy, Debug, PartialEq, Eq, Structural)]
pub struct VirtualAddr(pub u64);

impl View for VirtualAddr {
    type V = u64;

    open spec fn view(&self) -> u64 {
        self.0
    }
}

impl VirtualAddr {
    pub fn new(value: u64) -> (r: Self)
        ensures
            r@ == value,
    {
        VirtualAddr(value)
    }

    pub fn raw(&self) -> (r: u64)
        ensures
            r == self@,
    {
        self.0
    }

    /// Whether this address is a multiple of `align`.
    pub fn is_aligned_with(&self, align: u64) -> (r: bool)
        requires
            align >= 1,
        ensures
            r <==> self@ % align == 0,
    {
        self.0 % align == 0
    }
}

/// An address in physical memory.
#[derive(Clone, Copy, Debug, PartialEq, Eq, Structural)]
pub struct PhysicalAddr(pub u64);

impl View for PhysicalAddr {
    type V = u64;

    open spec fn view(&self) -> u64 {
        self.0
    }
}

impl PhysicalAddr {
    pub fn new(value: u64) -> (r: Self)
        ensures
            r@ == value,
    {
        PhysicalAddr(value)
    }

    pub fn raw(&self) -> (r: u64)
        ensures
            r == self@,
    {
        self.0
    }

    /// Whether this address is a multiple of `align`.
    pub fn is_aligned_with(&self, align: u64) -> (r: bool)
        requires
            align >= 1,
        ensures
            r <==> self@ % align == 0,
    {
        self.0 % align == 0
    }
}

pub struct KernelMemoryManager;

impl KernelMemoryManager {
    /// Translate a physical address through the bootloader's direct map
    /// (HHDM): every physical address is visible at a fixed virtual offset.
    pub fn translate_hhdm(physical: PhysicalAddr, hhdm_offset: u64) -> (r: VirtualAddr)
        requires
            physical@ + hhdm_offset <= u64::MAX,
        ensures
            r@ == physical@ + hhdm_offset,
    {
        VirtualAddr::new(physical.0 + hhdm_offset)
    }
}

} // verus!
