//! Bit-level encoding of hardware page-table entries: a 44-bit physical
//! page number in bits 10 and up, and a flag byte in the low 8 bits.

use vstd::prelude::*;

use crate::addr::PhysicalAddr;
use crate::flags::VirtualMemoryFlags;

verus! {

/// Entry is installed; translation may proceed through it.
pub const PTE_VALID: u64 = 0x01;

/// Mapped memory may be read.
pub const PTE_READABLE: u64 = 0x02;

/// Mapped memory may be written.
pub const PTE_WRITABLE: u64 = 0x04;

/// Mapped memory may be executed.
pub const PTE_EXECUTABLE: u64 = 0x08;

/// Mapped memory is reachable from user mode.
pub const PTE_USER: u64 = 0x10;

/// Mapping is global across address spaces.
pub const PTE_GLOBAL: u64 = 0x20;

/// Hardware has read through the mapping.
pub const PTE_ACCESSED: u64 = 0x40;

/// Hardware has written through the mapping.
pub const PTE_DIRTY: u64 = 0x80;

/// Mask of the 44-bit physical-page-number field after shifting.
pub const PPN_MASK: u64 = 0x0FFF_FFFF_FFFF;

/// The hardware translation of a capability set: Valid and Readable always,
/// the write/execute/user bits when requested. The MMIO capability has no
/// bit of its own in this encoding.
pub open spec fn spec_hardware_flags(f: VirtualMemoryFlags) -> u64 {
    ((PTE_VALID + PTE_READABLE) + (if f.writeable {
        PTE_WRITABLE as int
    } else {
        0
    }) + (if f.executable {
        PTE_EXECUTABLE as int
    } else {
        0
    }) + (if f.user_accessible {
        PTE_USER as int
    } else {
        0
    })) as u64
}

/// Hardware page-table-entry flag bits.
#[derive(Clone, Copy, Debug, PartialEq, Eq, Structural)]
pub struct PageTableFlags(pub u64);

impl View for PageTableFlags {
    type V = u64;

    open spec fn view(&self) -> u64 {
        self.0
    }
}

impl PageTableFlags {
    /// Translate a hardware-independent capability set into hardware flag
    /// bits, always forcing Valid and Readable.
    pub fn new(virtual_memory_flags: VirtualMemoryFlags) -> (r: Self)
        ensures
            r@ == spec_hardware_flags(virtual_memory_flags),
    {
        let mut bits: u64 = PTE_VALID + PTE_READABLE;
        if virtual_memory_flags.writeable {
            bits = bits + PTE_WRITABLE;
        }
        if virtual_memory_flags.executable {
            bits = bits + PTE_EXECUTABLE;
        }
        if virtual_memory_flags.user_accessible {
            bits = bits + PTE_USER;
        }
        PageTableFlags(bits)
    }

    pub fn from_bits(bits: u64) -> (r: Self)
        ensures
            r@ == bits,
    {
        PageTableFlags(bits)
    }

    pub fn bits(&self) -> (r: u64)
        ensures
            r == self@,
    {
        self.0
    }

    /// Whether every bit of `other` is set in `self`.
    pub fn contains(&self, other: PageTableFlags) -> (r: bool)
        ensures
            r <==> self@ & other@ == other@,
    {
        self.0 & other.0 == other.0
    }
}

/// A physical page number: a page-aligned physical address shifted right by
/// the page-offset width.
#[derive(Clone, Copy, Debug, PartialEq, Eq, Structural)]
pub struct PPN(pub u64);

impl View for PPN {
    type V = u64;

    open spec fn view(&self) -> u64 {
        self.0
    }
}

impl PPN {
    pub fn new(value: u64) -> (r: Self)
        ensures
            r@ == value,
    {
        PPN(value)
    }

    pub fn from_physical_addr(addr: PhysicalAddr) -> (r: Self)
        ensures
            r@ == addr@ >> 12u64,
    {
        PPN(addr.0 >> 12u64)
    }

    pub fn as_physical_addr(&self) -> (r: PhysicalAddr)
        ensures
            r@ == self@ << 12u64,
    {
        PhysicalAddr(self.0 << 12u64)
    }

    pub fn value(&self) -> (r: u64)
        ensures
            r == self@,
    {
        self.0
    }
}

/// A raw hardware page-table entry.
#[derive(Clone, Copy, Debug, PartialEq, Eq, Structural)]
pub struct PageTableEntry(pub u64);

impl View for PageTableEntry {
    type V = u64;

    open spec fn view(&self) -> u64 {
        self.0
    }
}

impl PageTableEntry {
    /// Encode a physical page number and flag byte into one entry word.
    pub fn new(ppn: PPN, flags: PageTableFlags) -> (r: Self)
        ensures
            r@ == (ppn@ << 10u64) | flags@,
    {
        PageTableEntry((ppn.0 << 10u64) | flags.0)
    }

    /// The physical-page-number field of the entry.
    pub fn ppn(&self) -> (r: PPN)
        ensures
            r@ == (self@ >> 10u64) & PPN_MASK,
    {
        PPN((self.0 >> 10u64) & PPN_MASK)
    }

    /// The flag byte of the entry.
    pub fn flags(&self) -> (r: PageTableFlags)
        ensures
            r@ == self@ & 0xFFu64,
    {
        PageTableFlags(self.0 & 0xFFu64)
    }

    /// Replace the flag byte, leaving the physical-page-number field alone.
    pub fn set_flags(&mut self, flags: PageTableFlags)
        ensures
            final(self)@ == (old(self)@ & 0xFFFF_FFFF_FFFF_FF00u64) | flags@,
    {
        self.0 = (self.0 & 0xFFFF_FFFF_FFFF_FF00u64) | flags.0;
    }

    /// Whether every bit of `flag` is set in the entry's flag byte.
    pub fn has_flag(&self, flag: PageTableFlags) -> (r: bool)
        ensures
            r <==> (self@ & 0xFFu64) & flag@ == flag@,
    {
        self.flags().contains(flag)
    }
}

/// Encoding then decoding an entry recovers the page number and the flag
/// byte, for any page number that fits the 44-bit field.
pub proof fn lemma_entry_round_trip(ppn: u64, flags: u64)
    by (bit_vector)
    requires
        ppn <= PPN_MASK,
        flags <= 0xFF,
    ensures
        (((ppn << 10u64) | flags) >> 10u64) & PPN_MASK == ppn,
        ((ppn << 10u64) | flags) & 0xFFu64 == flags,
{
}

/// A page-aligned physical address survives the round trip through its page
/// number, and any page number resolves to a page-aligned physical address
/// — the invariant of the physical-page-number field of every entry.
pub proof fn lemma_ppn_round_trip(addr: u64, ppn: u64)
    by (bit_vector)
    requires
        addr % 4096 == 0,
    ensures
        (addr >> 12u64) << 12u64 == addr,
        (ppn << 12u64) % 4096 == 0,
        addr < 0x100_0000_0000_0000u64 ==> addr >> 12u64 <= PPN_MASK,
{
}

} // verus!
