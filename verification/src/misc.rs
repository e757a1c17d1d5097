//! Address-rounding helpers.

use vstd::prelude::*;

verus! {

/// The least multiple of `align` that is at least `addr`.
pub open spec fn spec_align_up(addr: int, align: int) -> int {
    ((addr + align - 1) / align) * align
}

/// The greatest multiple of `align` that is at most `addr`.
pub open spec fn spec_align_down(addr: int, align: int) -> int {
    (addr / align) * align
}

/// Round `addr` up to a multiple of `align`.
pub fn align_up(addr: u64, align: u64) -> (r: u64)
    requires
        align >= 1,
        addr + align - 1 <= u64::MAX,
    ensures
        r == spec_align_up(addr as int, align as int),
        r % align == 0,
        addr <= r < addr + align,
{
    proof {
        lemma_align_up_properties(addr as int, align as int);
    }
    let q = (addr + (align - 1)) / align;
    proof {
        assert(q * align == spec_align_up(addr as int, align as int));
    }
    q * align
}

/// Round `addr` down to a multiple of `align`.
pub fn align_down(addr: u64, align: u64) -> (r: u64)
    requires
        align >= 1,
    ensures
        r == spec_align_down(addr as int, align as int),
        r % align == 0,
        addr - align < r <= addr,
{
    proof {
        lemma_align_down_properties(addr as int, align as int);
    }
    (addr / align) * align
}

proof fn lemma_align_up_properties(addr: int, align: int)
    by (nonlinear_arith)
    requires
        align >= 1,
        addr >= 0,
    ensures
        spec_align_up(addr, align) % align == 0,
        addr <= spec_align_up(addr, align) < addr + align,
{
}

proof fn lemma_align_down_properties(addr: int, align: int)
    by (nonlinear_arith)
    requires
        align >= 1,
        addr >= 0,
    ensures
        spec_align_down(addr, align) % align == 0,
        addr - align < spec_align_down(addr, align) <= addr,
{
}

} // verus!
