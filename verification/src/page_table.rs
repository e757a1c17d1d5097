//! Multi-level radix page tables. Physical memory holding the tables is
//! modelled explicitly: `PageTableMemory` records which page-aligned frames
//! hold tables and the 512 raw entries of each, exactly as the kernel sees
//! them through the direct map.

use vstd::prelude::*;

use crate::addr::{PhysicalAddr, VirtualAddr};
use crate::flags::VirtualMemoryFlags;
use crate::page_allocator::{
    allocate_result, covers, free_list_wf, has_fit, total_free_frames, AllocError,
    FreeListAllocator, FreeListNode,
};
use crate::pte::{PageTableEntry, PageTableFlags, PPN, PPN_MASK, PTE_VALID};
use crate::PAGE_SIZE;

verus! {

/// Size in bytes of a 2 MiB huge page.
pub const SIZE_2M: u64 = 0x20_0000;

/// Size in bytes of a 1 GiB huge page.
pub const SIZE_1G: u64 = 0x4000_0000;

/// Highest physical address the page-table entries can encode: the 44-bit
/// physical-page-number field covers a 56-bit physical address space.
pub const PHYS_LIMIT: u64 = 0x100_0000_0000_0000;

/// How deep the active hardware translation mode walks.
#[derive(Clone, Copy, Debug, PartialEq, Eq, Structural)]
pub enum PagingMode {
    Sv39,
    Sv48,
    Sv57,
}

impl PagingMode {
    /// Number of page-table levels the mode uses.
    pub open spec fn spec_levels(self) -> int {
        match self {
            PagingMode::Sv39 => 3,
            PagingMode::Sv48 => 4,
            PagingMode::Sv57 => 5,
        }
    }

    /// Number of page-table levels the mode uses.
    pub fn levels(&self) -> (r: usize)
        ensures
            r == self.spec_levels(),
    {
        match self {
            PagingMode::Sv39 => 3,
            PagingMode::Sv48 => 4,
            PagingMode::Sv57 => 5,
        }
    }
}

/// Why a mapping request failed.
#[derive(Clone, Copy, Debug, PartialEq, Eq, Structural)]
pub enum PageMapErr {
    /// The virtual start address is not page aligned.
    UnalignedVirtualAddr,
    /// The physical start address is not page aligned.
    UnalignedPhysicalAddr,
    /// The length is not a whole number of pages.
    UnalignedSize,
    /// The frame allocator ran out of memory while building an intermediate
    /// table; tables installed before the failure remain in place.
    PageFrameAllocError,
}

/// The nine virtual-address bits that index the table at `level`.
pub open spec fn spec_vpn(va: u64, level: int) -> u64 {
    (va >> ((12 + 9 * level) as u64)) & 0x1FFu64
}

/// Flat position of entry `idx` of table `ti`.
pub open spec fn entry_at(entries: Seq<u64>, ti: int, idx: int) -> u64 {
    entries[512 * ti + idx]
}

/// An installed entry that points at a further table level: Valid is set
/// and none of Readable/Writable/Executable is.
pub open spec fn is_pointer_entry(e: u64) -> bool {
    e & 0x01u64 == 0x01u64 && e & 0x0Eu64 == 0
}

/// The physical table address a pointer entry names.
pub open spec fn pointer_target(e: u64) -> u64 {
    ((e >> 10u64) & PPN_MASK) << 12u64
}

/// The entry word that points at the table frame `base`.
pub open spec fn pointer_entry(base: u64) -> u64 {
    ((base >> 12u64) << 10u64) | PTE_VALID
}

/// The terminal entry word for a mapping to `pa` with the given flag byte.
pub open spec fn leaf_entry(pa: u64, flag_bits: u64) -> u64 {
    ((pa >> 12u64) << 10u64) | flag_bits
}

/// Whether some registered table sits at physical address `b`.
pub open spec fn has_base(bases: Seq<u64>, b: u64) -> bool {
    exists|i: int| 0 <= i < bases.len() && bases[i] == b
}

/// Index of the table at physical address `b` (`bases.len()` when absent).
pub open spec fn index_of_base(bases: Seq<u64>, b: u64) -> int
    decreases bases.len(),
{
    if bases.len() == 0 {
        0
    } else if bases[0] == b {
        0
    } else {
        1 + index_of_base(bases.subrange(1, bases.len() as int), b)
    }
}

proof fn lemma_index_of_base(bases: Seq<u64>, b: u64)
    ensures
        0 <= index_of_base(bases, b) <= bases.len(),
        index_of_base(bases, b) < bases.len() <==> has_base(bases, b),
        index_of_base(bases, b) < bases.len() ==> bases[index_of_base(bases, b)] == b,
        forall|j: int| 0 <= j < index_of_base(bases, b) ==> bases[j] != b,
    decreases bases.len(),
{
    if bases.len() == 0 {
    } else if bases[0] == b {
    } else {
        let tail = bases.subrange(1, bases.len() as int);
        lemma_index_of_base(tail, b);
        assert(forall|j: int| 1 <= j < bases.len() ==> bases[j] == tail[j - 1]);
        if has_base(bases, b) {
            let w = choose|i: int| 0 <= i < bases.len() && bases[i] == b;
            assert(tail[w - 1] == b);
            assert(has_base(tail, b));
        }
        if has_base(tail, b) {
            let w = choose|i: int| 0 <= i < tail.len() && tail[i] == b;
            assert(bases[w + 1] == b);
        }
    }
}

/// Every valid non-leaf entry of every table points at a registered table.
pub open spec fn pointers_closed(bases: Seq<u64>, entries: Seq<u64>) -> bool {
    forall|ti: int, idx: int|
        0 <= ti < bases.len() && 0 <= idx < 512 && is_pointer_entry(
            #[trigger] entry_at(entries, ti, idx),
        ) ==> has_base(bases, pointer_target(entry_at(entries, ti, idx)))
}

/// Invariant of the modelled table memory: one whole page of entries per
/// table, distinct page-aligned table frames, and no pointer entry leading
/// outside the model.
pub open spec fn page_tables_wf(bases: Seq<u64>, entries: Seq<u64>) -> bool {
    &&& entries.len() == 512 * bases.len()
    &&& (forall|i: int, j: int|
        #![trigger bases[i], bases[j]]
        0 <= i < j < bases.len() ==> bases[i] != bases[j])
    &&& (forall|i: int| 0 <= i < bases.len() ==> #[trigger] bases[i] % PAGE_SIZE == 0)
    &&& pointers_closed(bases, entries)
}

/// No table frame lies inside a free region of the allocator: the frames
/// holding tables are owned by the mapper, not the free pool.
pub open spec fn tables_not_free(bases: Seq<u64>, nodes: Seq<FreeListNode>) -> bool {
    forall|i: int| 0 <= i < bases.len() ==> !covers(nodes, #[trigger] bases[i] as int)
}

/// Every free region lies below the physical-address limit the entries can
/// encode.
pub open spec fn frames_addressable(nodes: Seq<FreeListNode>) -> bool {
    forall|i: int| 0 <= i < nodes.len() ==> (#[trigger] nodes[i]).spec_end() <= PHYS_LIMIT
}

/// A freshly installed table: 512 invalid entries.
pub open spec fn zero_table() -> Seq<u64> {
    Seq::new(512, |i: int| 0u64)
}

/// Two distinct entry slots occupy distinct flat positions.
proof fn lemma_slot_injective(t1: int, i1: int, t2: int, i2: int)
    by (nonlinear_arith)
    requires
        0 <= i1 < 512,
        0 <= i2 < 512,
        512 * t1 + i1 == 512 * t2 + i2,
    ensures
        t1 == t2,
        i1 == i2,
{
}

proof fn lemma_pointer_entry_decodes(base: u64)
    by (bit_vector)
    requires
        base % 4096 == 0,
        base < 0x100_0000_0000_0000u64,
    ensures
        ((((base >> 12u64) << 10u64) | 0x01u64) >> 10u64) & 0x0FFF_FFFF_FFFFu64 == base >> 12u64,
        (base >> 12u64) << 12u64 == base,
        (((base >> 12u64) << 10u64) | 0x01u64) & 0x01u64 == 0x01u64,
        (((base >> 12u64) << 10u64) | 0x01u64) & 0x0Eu64 == 0,
{
}

/// A pointer entry built for an addressable, page-aligned table frame is
/// recognised as a pointer and decodes back to that frame.
pub proof fn lemma_pointer_entry_round_trip(base: u64)
    requires
        base % PAGE_SIZE == 0,
        base < PHYS_LIMIT,
    ensures
        is_pointer_entry(pointer_entry(base)),
        pointer_target(pointer_entry(base)) == base,
{
    lemma_pointer_entry_decodes(base);
}

proof fn lemma_leaf_entry_bits(pa: u64, flag_bits: u64)
    by (bit_vector)
    requires
        flag_bits & 0x0Eu64 != 0,
    ensures
        (((pa >> 12u64) << 10u64) | flag_bits) & 0x0Eu64 != 0,
{
}

/// A leaf entry always carries at least one of the Readable, Writable or
/// Executable bits, so it is never mistaken for a pointer to a table.
pub proof fn lemma_leaf_entry_not_pointer(pa: u64, flag_bits: u64)
    requires
        flag_bits & 0x0Eu64 != 0,
    ensures
        !is_pointer_entry(leaf_entry(pa, flag_bits)),
{
    lemma_leaf_entry_bits(pa, flag_bits);
}

/// The physical frames holding page tables, and their entries. Table `i`
/// occupies one page at `table_bases()[i]`; its 512 entries are the flat
/// slice `table_entries()[512*i .. 512*i + 512]`.
pub struct PageTableMemory {
    bases: Vec<u64>,
    entries: Vec<u64>,
}

impl PageTableMemory {
    /// Physical base address of each registered table, in installation
    /// order.
    pub closed spec fn table_bases(&self) -> Seq<u64> {
        self.bases@
    }

    /// All table entries, 512 per table, flattened in table order.
    pub closed spec fn table_entries(&self) -> Seq<u64> {
        self.entries@
    }

    pub open spec fn wf(&self) -> bool {
        page_tables_wf(self.table_bases(), self.table_entries())
    }

    /// Whether a table is registered at `table`.
    pub open spec fn spec_contains_table(&self, table: u64) -> bool {
        has_base(self.table_bases(), table)
    }

    /// No tables at all.
    pub fn new() -> (r: Self)
        ensures
            r.wf(),
            r.table_bases() == Seq::<u64>::empty(),
            r.table_entries() == Seq::<u64>::empty(),
    {
        let r = PageTableMemory { bases: Vec::new(), entries: Vec::new() };
        proof {
            assert(r.table_bases() =~= Seq::<u64>::empty());
            assert(r.table_entries() =~= Seq::<u64>::empty());
        }
        r
    }

    /// How many tables are registered.
    pub fn table_count(&self) -> (r: usize)
        ensures
            r == self.table_bases().len(),
    {
        self.bases.len()
    }

    /// Whether a table is registered at `table`.
    pub fn contains_table(&self, table: PhysicalAddr) -> (r: bool)
        ensures
            r == self.spec_contains_table(table@),
    {
        match self.find_table(table.raw()) {
            Some(_) => true,
            None => false,
        }
    }

    /// Position of the table at physical address `base`, if registered.
    fn find_table(&self, base: u64) -> (r: Option<usize>)
        ensures
            match r {
                Some(i) => i == index_of_base(self.table_bases(), base) && i
                    < self.table_bases().len() && self.table_bases()[i as int] == base,
                None => !has_base(self.table_bases(), base),
            },
    {
        proof {
            lemma_index_of_base(self.table_bases(), base);
        }
        let ghost bs = self.table_bases();
        let mut i: usize = 0;
        while i < self.bases.len()
            invariant
                self.table_bases() == bs,
                i <= bs.len(),
                forall|j: int| 0 <= j < i ==> bs[j] != base,
            decreases bs.len() - i,
        {
            if self.bases[i] == base {
                proof {
                    let q = index_of_base(bs, base);
                    lemma_index_of_base(bs, base);
                    if q < i as int {
                        assert(bs[q] != base);
                    }
                    if q > i as int {
                        assert(bs[i as int] != base);
                    }
                }
                return Some(i);
            }
            i += 1;
        }
        None
    }

    /// The raw entry word at position `index` of the table at `table`, if
    /// such a table is registered and the index is in range.
    pub fn read_entry_at(&self, table: PhysicalAddr, index: usize) -> (r: Option<u64>)
        requires
            self.wf(),
        ensures
            match r {
                Some(e) => self.spec_contains_table(table@) && index < 512 && e == entry_at(
                    self.table_entries(),
                    index_of_base(self.table_bases(), table@),
                    index as int,
                ),
                None => !self.spec_contains_table(table@) || index >= 512,
            },
    {
        if index >= 512 {
            return None;
        }
        match self.find_table(table.raw()) {
            None => None,
            Some(ti) => Some(self.read_entry(ti, index)),
        }
    }

    /// The raw entry word at slot (`ti`, `idx`).
    fn read_entry(&self, ti: usize, idx: usize) -> (r: u64)
        requires
            self.wf(),
            ti < self.table_bases().len(),
            idx < 512,
        ensures
            r == entry_at(self.table_entries(), ti as int, idx as int),
    {
        let total = self.entries.len();
        proof {
            assert(512 * (ti as int) + 512 <= 512 * self.table_bases().len()) by (nonlinear_arith)
                requires
                    ti as int + 1 <= self.table_bases().len(),
            ;
            assert(512 * (ti as int) + (idx as int) < total as int);
        }
        let slot = 512 * ti + idx;
        self.entries[slot]
    }

    /// Overwrite the entry at slot (`ti`, `idx`). A pointer entry may only
    /// be written when its target table is registered.
    fn write_entry(&mut self, ti: usize, idx: usize, e: u64)
        requires
            old(self).wf(),
            ti < old(self).table_bases().len(),
            idx < 512,
            is_pointer_entry(e) ==> has_base(old(self).table_bases(), pointer_target(e)),
        ensures
            final(self).wf(),
            final(self).table_bases() == old(self).table_bases(),
            final(self).table_entries() == old(self).table_entries().update(
                512 * (ti as int) + idx as int,
                e,
            ),
    {
        let total = self.entries.len();
        proof {
            assert(512 * (ti as int) + 512 <= 512 * self.table_bases().len()) by (nonlinear_arith)
                requires
                    ti as int + 1 <= self.table_bases().len(),
            ;
            assert(512 * (ti as int) + (idx as int) < total as int);
        }
        let slot = 512 * ti + idx;
        self.entries.set(slot, e);
        proof {
            let bs = self.table_bases();
            let es = self.table_entries();
            let oes = old(self).table_entries();
            assert forall|t2: int, i2: int|
                0 <= t2 < bs.len() && 0 <= i2 < 512 && is_pointer_entry(
                    #[trigger] entry_at(es, t2, i2),
                ) implies has_base(bs, pointer_target(entry_at(es, t2, i2))) by {
                if 512 * t2 + i2 == 512 * (ti as int) + idx as int {
                    lemma_slot_injective(t2, i2, ti as int, idx as int);
                    assert(entry_at(es, t2, i2) == e);
                } else {
                    assert(entry_at(es, t2, i2) == entry_at(oes, t2, i2));
                }
            }
        }
    }

    /// Register a zeroed table occupying the page frame at `base`.
    fn push_table(&mut self, base: u64)
        requires
            old(self).wf(),
            !has_base(old(self).table_bases(), base),
            base % PAGE_SIZE == 0,
        ensures
            final(self).wf(),
            final(self).table_bases() == old(self).table_bases().push(base),
            final(self).table_entries() == old(self).table_entries() + zero_table(),
    {
        self.bases.push(base);
        let ghost oes = self.entries@;
        let mut k: usize = 0;
        while k < 512
            invariant
                k <= 512,
                self.bases@ == old(self).table_bases().push(base),
                oes == old(self).table_entries(),
                self.entries@.len() == oes.len() + k,
                self.entries@.subrange(0, oes.len() as int) == oes,
                forall|j: int| oes.len() <= j < self.entries@.len() ==> self.entries@[j] == 0u64,
            decreases 512 - k,
        {
            self.entries.push(0u64);
            proof {
                assert(self.entries@.subrange(0, oes.len() as int) =~= oes);
            }
            k += 1;
        }
        proof {
            assert(self.table_entries() =~= oes + zero_table());
            let bs = self.table_bases();
            let es = self.table_entries();
            let obs = old(self).table_bases();
            assert(forall|j: int| 0 <= j < obs.len() ==> bs[j] == obs[j]);
            assert(es.len() == 512 * bs.len()) by (nonlinear_arith)
                requires
                    es.len() == oes.len() + 512,
                    oes.len() == 512 * obs.len(),
                    bs.len() == obs.len() + 1,
            ;
            assert forall|i: int, j: int| 0 <= i < j < bs.len() implies bs[i] != bs[j] by {
                if j == bs.len() - 1 {
                    assert(!has_base(obs, base));
                    assert(obs[i] != base);
                }
            }
            assert forall|t2: int, i2: int|
                0 <= t2 < bs.len() && 0 <= i2 < 512 && is_pointer_entry(
                    #[trigger] entry_at(es, t2, i2),
                ) implies has_base(bs, pointer_target(entry_at(es, t2, i2))) by {
                if t2 < obs.len() {
                    assert(512 * t2 + 512 <= 512 * obs.len()) by (nonlinear_arith)
                        requires
                            t2 + 1 <= obs.len(),
                    ;
                    assert(entry_at(es, t2, i2) == entry_at(oes, t2, i2));
                    assert(has_base(obs, pointer_target(entry_at(oes, t2, i2))));
                    let w = choose|w: int|
                        0 <= w < obs.len() && obs[w] == pointer_target(entry_at(oes, t2, i2));
                    assert(bs[w] == obs[w]);
                } else {
                    assert(t2 == obs.len());
                    assert(512 * t2 + i2 - oes.len() == i2) by (nonlinear_arith)
                        requires
                            t2 == obs.len(),
                            oes.len() == 512 * obs.len(),
                    ;
                    assert(entry_at(es, t2, i2) == zero_table()[i2]);
                    assert(entry_at(es, t2, i2) == 0u64);
                    assert(!is_pointer_entry(0u64)) by (bit_vector);
                }
            }
        }
    }

    /// Take one frame from the allocator and register it as a zeroed table.
    /// Fails, leaving everything unchanged, exactly when the allocator has
    /// no region left at all.
    pub fn allocate_table(&mut self, allocator: &mut FreeListAllocator) -> (r: Result<
        PhysicalAddr,
        AllocError,
    >)
        requires
            old(self).wf(),
            old(allocator).wf(),
            tables_not_free(old(self).table_bases(), old(allocator)@),
            frames_addressable(old(allocator)@),
        ensures
            final(self).wf(),
            final(allocator).wf(),
            tables_not_free(final(self).table_bases(), final(allocator)@),
            frames_addressable(final(allocator)@),
            match r {
                Ok(t) => {
                    &&& has_fit(old(allocator)@, 1)
                    &&& t@ % PAGE_SIZE == 0
                    &&& t@ < PHYS_LIMIT
                    &&& !has_base(old(self).table_bases(), t@)
                    &&& t@ == allocate_result(old(allocator)@, 1).1
                    &&& final(allocator)@ == allocate_result(old(allocator)@, 1).0
                    &&& final(self).table_bases() == old(self).table_bases().push(t@)
                    &&& final(self).table_entries() == old(self).table_entries() + zero_table()
                    &&& total_free_frames(final(allocator)@) == total_free_frames(
                        old(allocator)@,
                    ) - 1
                },
                Err(e) => {
                    &&& e == AllocError::OutOfMemory
                    &&& !has_fit(old(allocator)@, 1)
                    &&& final(self).table_bases() == old(self).table_bases()
                    &&& final(self).table_entries() == old(self).table_entries()
                    &&& final(allocator)@ == old(allocator)@
                },
            },
    {
        match allocator.allocate(1) {
            Err(e) => Err(e),
            Ok(frame) => {
                proof {
                    lemma_fresh_frame_facts(
                        old(self).table_bases(),
                        old(allocator)@,
                        allocator@,
                        frame@,
                    );
                }
                self.push_table(frame.raw());
                Ok(frame)
            },
        }
    }
}

/// What a frame fresh from the allocator guarantees to the table model:
/// it is no registered table, it is no longer free, remaining free regions
/// stay addressable, and tables that were not free stay not free.
proof fn lemma_fresh_frame_facts(
    bases: Seq<u64>,
    nodes_before: Seq<FreeListNode>,
    nodes_after: Seq<FreeListNode>,
    frame: u64,
)
    requires
        tables_not_free(bases, nodes_before),
        frames_addressable(nodes_before),
        free_list_wf(nodes_after),
        frame % PAGE_SIZE == 0,
        frame + PAGE_SIZE <= u64::MAX,
        crate::page_allocator::range_disjoint(nodes_after, frame as int, 1),
        forall|x: int| frame <= x < frame + PAGE_SIZE ==> covers(nodes_before, x),
        forall|x: int| covers(nodes_after, x) ==> covers(nodes_before, x),
    ensures
        !has_base(bases, frame),
        frame < PHYS_LIMIT,
        frames_addressable(nodes_after),
        tables_not_free(bases.push(frame), nodes_after),
{
    assert(covers(nodes_before, frame as int));
    if has_base(bases, frame) {
        let w = choose|i: int| 0 <= i < bases.len() && bases[i] == frame;
        assert(!covers(nodes_before, bases[w] as int));
    }
    let k = choose|i: int|
        0 <= i < nodes_before.len() && (#[trigger] nodes_before[i]).base@ <= (frame as int)
            && (frame as int) < nodes_before[i].spec_end();
    assert(frame < PHYS_LIMIT);
    assert forall|i: int| 0 <= i < nodes_after.len() implies (
    #[trigger] nodes_after[i]).spec_end() <= PHYS_LIMIT by {
        let x = nodes_after[i].spec_end() - 1;
        assert(nodes_after[i].base@ <= x < nodes_after[i].spec_end());
        assert(covers(nodes_after, x));
        let m = choose|m: int|
            0 <= m < nodes_before.len() && (#[trigger] nodes_before[m]).base@ <= x
                < nodes_before[m].spec_end();
        assert(x < PHYS_LIMIT);
    }
    let bs2 = bases.push(frame);
    assert forall|i: int| 0 <= i < bs2.len() implies !covers(nodes_after, #[trigger] bs2[i] as int) by {
        if i < bases.len() {
            if covers(nodes_after, bs2[i] as int) {
                assert(covers(nodes_before, bases[i] as int));
            }
        } else {
            if covers(nodes_after, frame as int) {
                let m = choose|m: int|
                    0 <= m < nodes_after.len() && (#[trigger] nodes_after[m]).base@ <= (
                    frame as int) && (frame as int) < nodes_after[m].spec_end();
                assert(nodes_after[m].spec_end() <= frame as int || frame as int + 1
                    * PAGE_SIZE <= nodes_after[m].base@);
            }
        }
    }
}

/// The table list only ever grows: every table registered before is still
/// registered at the same position.
pub open spec fn tables_preserved(before: Seq<u64>, after: Seq<u64>) -> bool {
    before.len() <= after.len() && after.subrange(0, before.len() as int) == before
}

proof fn lemma_tables_preserved_trans(a: Seq<u64>, b: Seq<u64>, c: Seq<u64>)
    requires
        tables_preserved(a, b),
        tables_preserved(b, c),
    ensures
        tables_preserved(a, c),
{
    assert forall|i: int| 0 <= i < a.len() implies c.subrange(0, a.len() as int)[i] == a[i] by {
        assert(b.subrange(0, a.len() as int)[i] == a[i]);
        assert(c.subrange(0, b.len() as int)[i] == b[i]);
    }
    assert(c.subrange(0, a.len() as int) =~= a);
}

/// One walk of the table tree, as a function of the whole machine state:
/// descend from the table at `cur` (level `level`) to the table at
/// `leaf_level`, following installed pointer entries, allocating and
/// installing a zeroed table wherever no pointer entry exists — a stale
/// huge-page leaf in the way is replaced, consistent with the rule that
/// remapping silently overwrites — and finally write the terminal entry.
/// On allocation failure the walk stops, keeping every table installed so
/// far.
pub open spec fn install_leaf_spec(
    bases: Seq<u64>,
    entries: Seq<u64>,
    nodes: Seq<FreeListNode>,
    cur: u64,
    level: int,
    leaf_level: int,
    va: u64,
    pa: u64,
    flag_bits: u64,
) -> (Result<(), PageMapErr>, Seq<u64>, Seq<u64>, Seq<FreeListNode>)
    decreases level - leaf_level,
{
    let ti = index_of_base(bases, cur);
    let idx = spec_vpn(va, level) as int;
    if level <= leaf_level {
        (Ok(()), bases, entries.update(512 * ti + idx, leaf_entry(pa, flag_bits)), nodes)
    } else {
        let e = entry_at(entries, ti, idx);
        if is_pointer_entry(e) {
            install_leaf_spec(
                bases,
                entries,
                nodes,
                pointer_target(e),
                level - 1,
                leaf_level,
                va,
                pa,
                flag_bits,
            )
        } else if !has_fit(nodes, 1) {
            (Err(PageMapErr::PageFrameAllocError), bases, entries, nodes)
        } else {
            let nodes2 = allocate_result(nodes, 1).0;
            let nb = allocate_result(nodes, 1).1;
            let bases2 = bases.push(nb);
            let entries2 = (entries + zero_table()).update(512 * ti + idx, pointer_entry(nb));
            install_leaf_spec(
                bases2,
                entries2,
                nodes2,
                nb,
                level - 1,
                leaf_level,
                va,
                pa,
                flag_bits,
            )
        }
    }
}

/// The nine virtual-address bits that index the table at `level`.
fn vpn_index(va: u64, level: usize) -> (r: usize)
    requires
        level <= 4,
    ensures
        r == spec_vpn(va, level as int),
        r < 512,
{
    let shift = 12 + 9 * (level as u64);
    proof {
        assert((va >> shift) & 0x1FFu64 < 512) by (bit_vector);
    }
    ((va >> shift) & 0x1FFu64) as usize
}

impl PageTableMemory {
    /// Walk down from the table at `cur` and write the terminal entry for
    /// `va -> pa` at `leaf_level`, allocating intermediate tables as needed.
    #[verifier::rlimit(100)]
    fn install_leaf(
        &mut self,
        allocator: &mut FreeListAllocator,
        cur: u64,
        level: usize,
        leaf_level: usize,
        va: u64,
        pa: u64,
        flag_bits: u64,
    ) -> (r: Result<(), PageMapErr>)
        requires
            old(self).wf(),
            old(allocator).wf(),
            tables_not_free(old(self).table_bases(), old(allocator)@),
            frames_addressable(old(allocator)@),
            has_base(old(self).table_bases(), cur),
            leaf_level <= level <= 4,
            flag_bits & 0x0Eu64 != 0,
        ensures
            final(self).wf(),
            final(allocator).wf(),
            tables_not_free(final(self).table_bases(), final(allocator)@),
            frames_addressable(final(allocator)@),
            tables_preserved(old(self).table_bases(), final(self).table_bases()),
            total_free_frames(final(allocator)@) == total_free_frames(old(allocator)@) - (
            final(self).table_bases().len() - old(self).table_bases().len()),
            ({
                let (rr, b2, e2, n2) = install_leaf_spec(
                    old(self).table_bases(),
                    old(self).table_entries(),
                    old(allocator)@,
                    cur,
                    level as int,
                    leaf_level as int,
                    va,
                    pa,
                    flag_bits,
                );
                &&& r == rr
                &&& final(self).table_bases() == b2
                &&& final(self).table_entries() == e2
                &&& final(allocator)@ == n2
            }),
        decreases level,
    {
        proof {
            lemma_index_of_base(old(self).table_bases(), cur);
        }
        let ghost obs = old(self).table_bases();
        let ghost oes = old(self).table_entries();
        let ghost ons = old(allocator)@;
        let ti = self.find_table(cur).unwrap();
        let idx = vpn_index(va, level);
        if level == leaf_level {
            let entry = PageTableEntry::new(
                PPN::new(pa >> 12u64),
                PageTableFlags::from_bits(flag_bits),
            );
            proof {
                lemma_leaf_entry_not_pointer(pa, flag_bits);
                assert(entry@ == leaf_entry(pa, flag_bits));
            }
            self.write_entry(ti, idx, entry.0);
            proof {
                assert(self.table_bases().subrange(0, old(self).table_bases().len() as int)
                    =~= old(self).table_bases());
                assert(install_leaf_spec(
                    obs,
                    oes,
                    ons,
                    cur,
                    level as int,
                    leaf_level as int,
                    va,
                    pa,
                    flag_bits,
                ) == (
                    Ok::<(), PageMapErr>(()),
                    obs,
                    oes.update(512 * (ti as int) + idx as int, leaf_entry(pa, flag_bits)),
                    ons,
                ));
            }
            Ok(())
        } else {
            let e = self.read_entry(ti, idx);
            if e & 0x01u64 == 0x01u64 && e & 0x0Eu64 == 0 {
                let target = ((e >> 10u64) & PPN_MASK) << 12u64;
                proof {
                    assert(is_pointer_entry(e));
                    assert(entry_at(self.table_entries(), ti as int, idx as int) == e);
                    assert(has_base(self.table_bases(), pointer_target(e)));
                    assert(install_leaf_spec(
                        obs,
                        oes,
                        ons,
                        cur,
                        level as int,
                        leaf_level as int,
                        va,
                        pa,
                        flag_bits,
                    ) == install_leaf_spec(
                        obs,
                        oes,
                        ons,
                        pointer_target(e),
                        level as int - 1,
                        leaf_level as int,
                        va,
                        pa,
                        flag_bits,
                    ));
                }
                self.install_leaf(allocator, target, level - 1, leaf_level, va, pa, flag_bits)
            } else {
                match self.allocate_table(allocator) {
                    Err(_) => {
                        proof {
                            assert(self.table_bases().subrange(
                                0,
                                old(self).table_bases().len() as int,
                            ) =~= old(self).table_bases());
                            assert(install_leaf_spec(
                                obs,
                                oes,
                                ons,
                                cur,
                                level as int,
                                leaf_level as int,
                                va,
                                pa,
                                flag_bits,
                            ) == (Err::<(), PageMapErr>(PageMapErr::PageFrameAllocError), obs, oes, ons));
                        }
                        Err(PageMapErr::PageFrameAllocError)
                    },
                    Ok(frame) => {
                        let ghost mid_bases = self.table_bases();
                        let ghost mid_entries = self.table_entries();
                        proof {
                            lemma_pointer_entry_round_trip(frame@);
                        }
                        let pe = ((frame.raw() >> 12u64) << 10u64) | PTE_VALID;
                        proof {
                            assert(pe == pointer_entry(frame@));
                            assert(mid_bases[mid_bases.len() - 1] == frame@);
                            assert(has_base(mid_bases, pointer_target(pe)));
                        }
                        self.write_entry(ti, idx, pe);
                        proof {
                            assert(has_base(self.table_bases(), frame@));
                            assert(self.table_entries() == (oes + zero_table()).update(
                                512 * (ti as int) + idx as int,
                                pointer_entry(frame@),
                            ));
                            assert(install_leaf_spec(
                                obs,
                                oes,
                                ons,
                                cur,
                                level as int,
                                leaf_level as int,
                                va,
                                pa,
                                flag_bits,
                            ) == install_leaf_spec(
                                self.table_bases(),
                                self.table_entries(),
                                allocator@,
                                frame@,
                                level as int - 1,
                                leaf_level as int,
                                va,
                                pa,
                                flag_bits,
                            ));
                        }
                        let r = self.install_leaf(
                            allocator,
                            frame.raw(),
                            level - 1,
                            leaf_level,
                            va,
                            pa,
                            flag_bits,
                        );
                        proof {
                            let obs = old(self).table_bases();
                            assert(mid_bases.subrange(0, obs.len() as int) =~= obs);
                            lemma_tables_preserved_trans(obs, mid_bases, self.table_bases());
                        }
                        r
                    },
                }
            }
        }
    }
}

/// The largest page size in {1 GiB, 2 MiB, 4 KiB} that the remaining
/// length covers and that both cursors are aligned to.
pub open spec fn chunk_size(va: u64, pa: u64, remaining: u64) -> u64 {
    if remaining >= SIZE_1G && va % SIZE_1G == 0 && pa % SIZE_1G == 0 {
        SIZE_1G
    } else if remaining >= SIZE_2M && va % SIZE_2M == 0 && pa % SIZE_2M == 0 {
        SIZE_2M
    } else {
        PAGE_SIZE
    }
}

/// Depth of the terminal entry for a page size: 0 for 4 KiB, 1 for 2 MiB,
/// 2 for 1 GiB.
pub open spec fn leaf_level_for(size: u64) -> int {
    if size == SIZE_1G {
        2
    } else if size == SIZE_2M {
        1
    } else {
        0
    }
}

/// Greedy page-size selection: the largest size the addresses and the
/// remaining length support, and never one they cannot.
pub fn choose_page_size(virtual_addr: u64, physical_addr: u64, remaining: u64) -> (r: u64)
    requires
        remaining >= PAGE_SIZE,
    ensures
        r == chunk_size(virtual_addr, physical_addr, remaining),
        r == SIZE_1G || r == SIZE_2M || r == PAGE_SIZE,
        r <= remaining,
        virtual_addr % PAGE_SIZE == 0 && physical_addr % PAGE_SIZE == 0 ==> virtual_addr % r == 0
            && physical_addr % r == 0,
        r == SIZE_1G <==> (remaining >= SIZE_1G && virtual_addr % SIZE_1G == 0 && physical_addr
            % SIZE_1G == 0),
        r == SIZE_2M ==> (remaining >= SIZE_2M && virtual_addr % SIZE_2M == 0 && physical_addr
            % SIZE_2M == 0),
{
    if remaining >= SIZE_1G && virtual_addr % SIZE_1G == 0 && physical_addr % SIZE_1G == 0 {
        SIZE_1G
    } else if remaining >= SIZE_2M && virtual_addr % SIZE_2M == 0 && physical_addr % SIZE_2M
        == 0 {
        SIZE_2M
    } else {
        PAGE_SIZE
    }
}

/// Depth of the terminal entry for a page size.
fn page_size_level(size: u64) -> (r: usize)
    ensures
        r == leaf_level_for(size),
        r <= 2,
{
    if size == SIZE_1G {
        2
    } else if size == SIZE_2M {
        1
    } else {
        0
    }
}

/// A whole mapping request as a function of the machine state: while length
/// remains, install one terminal entry for the greedily chosen page size,
/// then advance both cursors by that size. An allocation failure stops the
/// walk, leaving the tables built so far in place.
pub open spec fn map_range_spec(
    bases: Seq<u64>,
    entries: Seq<u64>,
    nodes: Seq<FreeListNode>,
    root: u64,
    va: u64,
    pa: u64,
    remaining: u64,
    flag_bits: u64,
    mode: PagingMode,
) -> (Result<(), PageMapErr>, Seq<u64>, Seq<u64>, Seq<FreeListNode>)
    decreases remaining,
{
    if remaining < PAGE_SIZE {
        (Ok(()), bases, entries, nodes)
    } else {
        let size = chunk_size(va, pa, remaining);
        let step = install_leaf_spec(
            bases,
            entries,
            nodes,
            root,
            mode.spec_levels() - 1,
            leaf_level_for(size),
            va,
            pa,
            flag_bits,
        );
        if step.0 is Err {
            step
        } else {
            map_range_spec(
                step.1,
                step.2,
                step.3,
                root,
                (va + size) as u64,
                (pa + size) as u64,
                (remaining - size) as u64,
                flag_bits,
                mode,
            )
        }
    }
}

/// One unfolding of `map_range_spec`: with length remaining, the whole
/// request equals one installed chunk followed by the rest of the request.
proof fn lemma_map_range_step(
    bases: Seq<u64>,
    entries: Seq<u64>,
    nodes: Seq<FreeListNode>,
    root: u64,
    va: u64,
    pa: u64,
    remaining: u64,
    flag_bits: u64,
    mode: PagingMode,
)
    requires
        remaining >= PAGE_SIZE,
    ensures
        ({
            let size = chunk_size(va, pa, remaining);
            let step = install_leaf_spec(
                bases,
                entries,
                nodes,
                root,
                mode.spec_levels() - 1,
                leaf_level_for(size),
                va,
                pa,
                flag_bits,
            );
            map_range_spec(bases, entries, nodes, root, va, pa, remaining, flag_bits, mode) == (
            if step.0 is Err {
                step
            } else {
                map_range_spec(
                    step.1,
                    step.2,
                    step.3,
                    root,
                    (va + size) as u64,
                    (pa + size) as u64,
                    (remaining - size) as u64,
                    flag_bits,
                    mode,
                )
            })
        }),
{
}

impl PageTableMemory {
    /// Install virtual-to-physical mappings for a whole range, choosing the
    /// largest legal page size per chunk and allocating intermediate tables
    /// on demand. Unaligned inputs are rejected with the corresponding
    /// error before any table is touched; a frame-allocation failure
    /// mid-walk surfaces `PageFrameAllocError` and leaves the tables built
    /// so far installed.
    #[verifier::rlimit(100)]
    #[verifier::spinoff_prover]
    pub fn map_range(
        &mut self,
        allocator: &mut FreeListAllocator,
        root: PhysicalAddr,
        virtual_addr: VirtualAddr,
        physical_addr: PhysicalAddr,
        length: u64,
        flags: VirtualMemoryFlags,
        mode: PagingMode,
    ) -> (r: Result<(), PageMapErr>)
        requires
            old(self).wf(),
            old(allocator).wf(),
            tables_not_free(old(self).table_bases(), old(allocator)@),
            frames_addressable(old(allocator)@),
            old(self).spec_contains_table(root@),
            virtual_addr@ + length <= 0x1_0000_0000_0000_0000,
            physical_addr@ + length <= PHYS_LIMIT,
        ensures
            final(self).wf(),
            final(allocator).wf(),
            tables_not_free(final(self).table_bases(), final(allocator)@),
            frames_addressable(final(allocator)@),
            tables_preserved(old(self).table_bases(), final(self).table_bases()),
            total_free_frames(final(allocator)@) == total_free_frames(old(allocator)@) - (
            final(self).table_bases().len() - old(self).table_bases().len()),
            virtual_addr@ % PAGE_SIZE != 0 ==> r == Err::<(), PageMapErr>(
                PageMapErr::UnalignedVirtualAddr,
            ) && final(self).table_bases() == old(self).table_bases() && final(self).table_entries() == old(self).table_entries() && final(allocator)@ == old(allocator)@,
            virtual_addr@ % PAGE_SIZE == 0 && physical_addr@ % PAGE_SIZE != 0 ==> r == Err::<
                (),
                PageMapErr,
            >(PageMapErr::UnalignedPhysicalAddr) && final(self).table_bases() == old(self).table_bases() && final(self).table_entries() == old(self).table_entries() && final(allocator)@ == old(allocator)@,
            virtual_addr@ % PAGE_SIZE == 0 && physical_addr@ % PAGE_SIZE == 0 && length % PAGE_SIZE
                != 0 ==> r == Err::<(), PageMapErr>(PageMapErr::UnalignedSize) && final(self).table_bases() == old(self).table_bases() && final(self).table_entries() == old(self).table_entries() && final(allocator)@ == old(allocator)@,
            virtual_addr@ % PAGE_SIZE == 0 && physical_addr@ % PAGE_SIZE == 0 && length % PAGE_SIZE
                == 0 ==> ({
                let (rr, b2, e2, n2) = map_range_spec(
                    old(self).table_bases(),
                    old(self).table_entries(),
                    old(allocator)@,
                    root@,
                    virtual_addr@,
                    physical_addr@,
                    length,
                    crate::pte::spec_hardware_flags(flags),
                    mode,
                );
                &&& r == rr
                &&& final(self).table_bases() == b2
                &&& final(self).table_entries() == e2
                &&& final(allocator)@ == n2
            }),
    {
        if !virtual_addr.is_aligned_with(PAGE_SIZE) {
            proof {
                assert(self.table_bases().subrange(0, self.table_bases().len() as int)
                    =~= self.table_bases());
            }
            return Err(PageMapErr::UnalignedVirtualAddr);
        }
        if !physical_addr.is_aligned_with(PAGE_SIZE) {
            proof {
                assert(self.table_bases().subrange(0, self.table_bases().len() as int)
                    =~= self.table_bases());
            }
            return Err(PageMapErr::UnalignedPhysicalAddr);
        }
        if length % PAGE_SIZE != 0 {
            proof {
                assert(self.table_bases().subrange(0, self.table_bases().len() as int)
                    =~= self.table_bases());
            }
            return Err(PageMapErr::UnalignedSize);
        }
        let pte_flags = PageTableFlags::new(flags);
        let flag_bits = pte_flags.bits();
        proof {
            assert(flag_bits == 3 || flag_bits == 7 || flag_bits == 11 || flag_bits == 15
                || flag_bits == 19 || flag_bits == 23 || flag_bits == 27 || flag_bits == 31);
            assert(flag_bits & 0x0Eu64 != 0) by (bit_vector)
                requires
                    flag_bits == 3 || flag_bits == 7 || flag_bits == 11 || flag_bits == 15
                        || flag_bits == 19 || flag_bits == 23 || flag_bits == 27 || flag_bits
                        == 31,
            ;
        }
        let mut va = virtual_addr.raw();
        let mut pa = physical_addr.raw();
        let mut remaining = length;
        let ghost obs = self.table_bases();
        let ghost oes = self.table_entries();
        let ghost ons = allocator@;
        let ghost goal = map_range_spec(
            obs,
            oes,
            ons,
            root@,
            va,
            pa,
            remaining,
            flag_bits,
            mode,
        );
        proof {
            assert(obs.subrange(0, obs.len() as int) =~= obs);
        }
        while remaining > 0
            invariant
                self.wf(),
                allocator.wf(),
                tables_not_free(self.table_bases(), allocator@),
                frames_addressable(allocator@),
                has_base(self.table_bases(), root@),
                obs == old(self).table_bases(),
                oes == old(self).table_entries(),
                ons == old(allocator)@,
                virtual_addr@ % PAGE_SIZE == 0,
                physical_addr@ % PAGE_SIZE == 0,
                length % PAGE_SIZE == 0,
                flag_bits == crate::pte::spec_hardware_flags(flags),
                goal == map_range_spec(
                    obs,
                    oes,
                    ons,
                    root@,
                    virtual_addr@,
                    physical_addr@,
                    length,
                    flag_bits,
                    mode,
                ),
                tables_preserved(obs, self.table_bases()),
                total_free_frames(allocator@) == total_free_frames(ons) - (
                self.table_bases().len() - obs.len()),
                va % PAGE_SIZE == 0,
                pa % PAGE_SIZE == 0,
                remaining % PAGE_SIZE == 0,
                va + remaining <= 0x1_0000_0000_0000_0000,
                pa + remaining <= PHYS_LIMIT,
                flag_bits & 0x0Eu64 != 0,
                map_range_spec(
                    self.table_bases(),
                    self.table_entries(),
                    allocator@,
                    root@,
                    va,
                    pa,
                    remaining,
                    flag_bits,
                    mode,
                ) == goal,
            decreases remaining,
        {
            proof {
                assert(remaining >= PAGE_SIZE) by (nonlinear_arith)
                    requires
                        remaining % PAGE_SIZE == 0,
                        remaining > 0,
                        PAGE_SIZE == 4096,
                ;
            }
            let size = choose_page_size(va, pa, remaining);
            let ll = page_size_level(size);
            let levels = mode.levels();
            let ghost pre_b = self.table_bases();
            let ghost pre_e = self.table_entries();
            let ghost pre_n = allocator@;
            let res = self.install_leaf(allocator, root.raw(), levels - 1, ll, va, pa, flag_bits);
            proof {
                lemma_tables_preserved_trans(obs, pre_b, self.table_bases());
                lemma_map_range_step(
                    pre_b,
                    pre_e,
                    pre_n,
                    root@,
                    va,
                    pa,
                    remaining,
                    flag_bits,
                    mode,
                );
            }
            match res {
                Err(e) => {
                    return Err(e);
                },
                Ok(()) => {
                    proof {
                        vstd::arithmetic::div_mod::lemma_sub_mod_noop(
                            remaining as int,
                            size as int,
                            PAGE_SIZE as int,
                        );
                        vstd::arithmetic::div_mod::lemma_add_mod_noop(
                            va as int,
                            size as int,
                            PAGE_SIZE as int,
                        );
                        vstd::arithmetic::div_mod::lemma_add_mod_noop(
                            pa as int,
                            size as int,
                            PAGE_SIZE as int,
                        );
                    }
                    remaining = remaining - size;
                    if remaining > 0 {
                        va = va + size;
                        pa = pa + size;
                    }
                },
            }
        }
        Ok(())
    }

    /// Install a single 4 KiB mapping: `map_range` for one page.
    pub fn map_page(
        &mut self,
        allocator: &mut FreeListAllocator,
        root: PhysicalAddr,
        virtual_addr: VirtualAddr,
        physical_addr: PhysicalAddr,
        flags: VirtualMemoryFlags,
        mode: PagingMode,
    ) -> (r: Result<(), PageMapErr>)
        requires
            old(self).wf(),
            old(allocator).wf(),
            tables_not_free(old(self).table_bases(), old(allocator)@),
            frames_addressable(old(allocator)@),
            old(self).spec_contains_table(root@),
            virtual_addr@ + PAGE_SIZE <= 0x1_0000_0000_0000_0000,
            physical_addr@ + PAGE_SIZE <= PHYS_LIMIT,
        ensures
            final(self).wf(),
            final(allocator).wf(),
            tables_not_free(final(self).table_bases(), final(allocator)@),
            frames_addressable(final(allocator)@),
            tables_preserved(old(self).table_bases(), final(self).table_bases()),
            virtual_addr@ % PAGE_SIZE != 0 ==> r == Err::<(), PageMapErr>(
                PageMapErr::UnalignedVirtualAddr,
            ) && final(self).table_entries() == old(self).table_entries(),
            virtual_addr@ % PAGE_SIZE == 0 && physical_addr@ % PAGE_SIZE != 0 ==> r == Err::<
                (),
                PageMapErr,
            >(PageMapErr::UnalignedPhysicalAddr) && final(self).table_entries() == old(self).table_entries(),
            virtual_addr@ % PAGE_SIZE == 0 && physical_addr@ % PAGE_SIZE == 0 ==> ({
                let (rr, b2, e2, n2) = map_range_spec(
                    old(self).table_bases(),
                    old(self).table_entries(),
                    old(allocator)@,
                    root@,
                    virtual_addr@,
                    physical_addr@,
                    PAGE_SIZE,
                    crate::pte::spec_hardware_flags(flags),
                    mode,
                );
                &&& r == rr
                &&& final(self).table_bases() == b2
                &&& final(self).table_entries() == e2
                &&& final(allocator)@ == n2
            }),
    {
        self.map_range(allocator, root, virtual_addr, physical_addr, PAGE_SIZE, flags, mode)
    }
}

/// The per-level table indices of one virtual address, as the hardware
/// slices them: nine bits per level starting at bit 12. The two highest
/// levels exist only in the deeper paging modes.
#[derive(Clone, Copy, Debug, PartialEq, Eq, Structural)]
pub struct VPN {
    pub vpn0: u16,
    pub vpn1: u16,
    pub vpn2: u16,
    pub vpn3: Option<u16>,
    pub vpn4: Option<u16>,
}

impl VPN {
    /// The nine index bits starting at `shift`.
    pub fn extract(virtual_addr: VirtualAddr, shift: u64) -> (r: u16)
        requires
            shift < 64,
        ensures
            r == ((virtual_addr@ >> shift) & 0x1FFu64) as u16,
    {
        ((virtual_addr.raw() >> shift) & 0x1FFu64) as u16
    }

    /// Slice a virtual address into the indices the paging mode uses.
    pub fn parse(mode: PagingMode, virtual_addr: VirtualAddr) -> (r: VPN)
        ensures
            r.vpn0 == ((virtual_addr@ >> 12u64) & 0x1FFu64) as u16,
            r.vpn1 == ((virtual_addr@ >> 21u64) & 0x1FFu64) as u16,
            r.vpn2 == ((virtual_addr@ >> 30u64) & 0x1FFu64) as u16,
            mode == PagingMode::Sv39 ==> r.vpn3 is None && r.vpn4 is None,
            mode == PagingMode::Sv48 ==> r.vpn3 == Some(
                ((virtual_addr@ >> 39u64) & 0x1FFu64) as u16,
            ) && r.vpn4 is None,
            mode == PagingMode::Sv57 ==> r.vpn3 == Some(
                ((virtual_addr@ >> 39u64) & 0x1FFu64) as u16,
            ) && r.vpn4 == Some(((virtual_addr@ >> 48u64) & 0x1FFu64) as u16),
    {
        let mut indices = VPN {
            vpn0: VPN::extract(virtual_addr, 12),
            vpn1: VPN::extract(virtual_addr, 21),
            vpn2: VPN::extract(virtual_addr, 30),
            vpn3: None,
            vpn4: None,
        };
        match mode {
            PagingMode::Sv39 => {},
            PagingMode::Sv48 => {
                indices.vpn3 = Some(VPN::extract(virtual_addr, 39));
            },
            PagingMode::Sv57 => {
                indices.vpn3 = Some(VPN::extract(virtual_addr, 39));
                indices.vpn4 = Some(VPN::extract(virtual_addr, 48));
            },
        }
        indices
    }
}

} // verus!
