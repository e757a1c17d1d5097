//! Memory-management core of a small 64-bit RISC-V kernel: typed physical and
//! virtual addresses, a coalescing first-fit physical frame allocator, and a
//! multi-level page-table mapper with huge-page support.

use vstd::prelude::*;

pub mod addr;
pub mod misc;
pub mod directory;
pub mod flags;
pub mod page_allocator;
pub mod page_table;
pub mod pte;
pub mod trap;

verus! {

/// Size in bytes of one physical page frame, the allocator's granularity.
pub const PAGE_SIZE: u64 = 4096;

} // verus!
