//! Physical frame allocator: the set of free physical page frames, kept as an
//! ordered, fully coalesced list of disjoint regions.
//!
//! The list is ordered by strictly ascending base address, adjacent regions
//! are always merged immediately, and allocation is first-fit from the head;
//! when a region is larger than a request, the allocation is carved from the
//! *end* of the region, so the region keeps its base address.

use vstd::prelude::*;

use crate::addr::PhysicalAddr;
use crate::PAGE_SIZE;

verus! {

/// One maximal contiguous run of free physical frames: base address and
/// frame count.
#[derive(Clone, Copy, Debug, PartialEq, Eq, Structural)]
pub struct FreeListNode {
    pub base: PhysicalAddr,
    pub num_frames: u64,
}

/// Frame allocation failure: no free region is large enough.
#[derive(Clone, Copy, Debug, PartialEq, Eq, Structural)]
pub enum AllocError {
    OutOfMemory,
}

impl FreeListNode {
    /// The exclusive end address of the region.
    pub open spec fn spec_end(self) -> int {
        self.base@ + self.num_frames * PAGE_SIZE
    }

    /// A region is well formed when it is non-empty, page aligned, and its
    /// end address is representable.
    pub open spec fn wf(self) -> bool {
        &&& self.num_frames >= 1
        &&& self.base@ % PAGE_SIZE == 0
        &&& self.spec_end() <= u64::MAX
    }

    /// The exclusive end address of the region.
    pub fn end(&self) -> (r: PhysicalAddr)
        requires
            self.wf(),
        ensures
            r@ == self.spec_end(),
    {
        PhysicalAddr::new(self.base.0 + self.num_frames * PAGE_SIZE)
    }

    /// Whether `right` begins exactly where this region ends.
    pub fn is_adjacent(&self, right: &FreeListNode) -> (r: bool)
        requires
            self.wf(),
        ensures
            r <==> self.spec_end() == right.base@,
    {
        self.end().0 == right.base.0
    }
}

/// Every region in the list is well formed.
pub open spec fn nodes_wf(s: Seq<FreeListNode>) -> bool {
    forall|i: int| 0 <= i < s.len() ==> (#[trigger] s[i]).wf()
}

/// Regions appear in ascending address order and do not overlap.
pub open spec fn nodes_ordered(s: Seq<FreeListNode>) -> bool {
    forall|i: int| 0 <= i && i + 1 < s.len() ==> (#[trigger] s[i]).spec_end() <= s[i + 1].base@
}

/// No two consecutive regions are adjacent: every mergeable pair has been
/// merged.
pub open spec fn nodes_coalesced(s: Seq<FreeListNode>) -> bool {
    forall|i: int| 0 <= i && i + 1 < s.len() ==> (#[trigger] s[i]).spec_end() != s[i + 1].base@
}

/// Invariant of the free list as a whole.
pub open spec fn free_list_wf(s: Seq<FreeListNode>) -> bool {
    &&& nodes_wf(s)
    &&& nodes_ordered(s)
    &&& nodes_coalesced(s)
}

/// Total number of free frames described by the list.
pub open spec fn total_free_frames(s: Seq<FreeListNode>) -> int
    decreases s.len(),
{
    if s.len() == 0 {
        0
    } else {
        total_free_frames(s.drop_last()) + s.last().num_frames
    }
}

/// Whether physical address `a` lies inside some free region.
pub open spec fn covers(s: Seq<FreeListNode>, a: int) -> bool {
    exists|i: int| 0 <= i < s.len() && (#[trigger] s[i]).base@ <= a < s[i].spec_end()
}

/// The byte range `[addr, addr + num_frames * PAGE_SIZE)` overlaps no free
/// region of the list.
pub open spec fn range_disjoint(s: Seq<FreeListNode>, addr: int, num_frames: u64) -> bool {
    forall|i: int| 0 <= i < s.len() ==> ((#[trigger] s[i]).spec_end() <= addr || addr
        + num_frames * PAGE_SIZE <= s[i].base@)
}

/// In a well-formed list, every region ends strictly before a later region
/// begins.
proof fn lemma_ordered_pairwise(s: Seq<FreeListNode>, i: int, j: int)
    requires
        free_list_wf(s),
        0 <= i < j < s.len(),
    ensures
        s[i].spec_end() <= s[j].base@,
        i + 1 < j ==> s[i].spec_end() < s[j].base@,
    decreases j - i,
{
    if i + 1 == j {
    } else {
        lemma_ordered_pairwise(s, i + 1, j);
        assert(s[i].spec_end() <= s[i + 1].base@);
        assert(s[i + 1].base@ < s[i + 1].spec_end());
    }
}

proof fn lemma_total_append(a: Seq<FreeListNode>, b: Seq<FreeListNode>)
    ensures
        total_free_frames(a + b) == total_free_frames(a) + total_free_frames(b),
    decreases b.len(),
{
    if b.len() == 0 {
        assert(a + b =~= a);
    } else {
        lemma_total_append(a, b.drop_last());
        assert((a + b).drop_last() =~= a + b.drop_last());
        assert((a + b).last() == b.last());
    }
}

proof fn lemma_total_singleton(n: FreeListNode)
    ensures
        total_free_frames(seq![n]) == n.num_frames,
{
    assert(seq![n].drop_last() =~= Seq::<FreeListNode>::empty());
    assert(total_free_frames(Seq::<FreeListNode>::empty()) == 0);
}

proof fn lemma_total_update(s: Seq<FreeListNode>, i: int, n: FreeListNode)
    requires
        0 <= i < s.len(),
    ensures
        total_free_frames(s.update(i, n)) == total_free_frames(s) - s[i].num_frames
            + n.num_frames,
{
    let prefix = s.subrange(0, i);
    let suffix = s.subrange(i + 1, s.len() as int);
    assert(s =~= prefix + seq![s[i]] + suffix);
    assert(s.update(i, n) =~= prefix + seq![n] + suffix);
    lemma_total_append(prefix + seq![s[i]], suffix);
    lemma_total_append(prefix, seq![s[i]]);
    lemma_total_append(prefix + seq![n], suffix);
    lemma_total_append(prefix, seq![n]);
    lemma_total_singleton(s[i]);
    lemma_total_singleton(n);
}

proof fn lemma_total_remove(s: Seq<FreeListNode>, i: int)
    requires
        0 <= i < s.len(),
    ensures
        total_free_frames(s.remove(i)) == total_free_frames(s) - s[i].num_frames,
{
    let prefix = s.subrange(0, i);
    let suffix = s.subrange(i + 1, s.len() as int);
    assert(s =~= prefix + seq![s[i]] + suffix);
    assert(s.remove(i) =~= prefix + suffix);
    lemma_total_append(prefix + seq![s[i]], suffix);
    lemma_total_append(prefix, seq![s[i]]);
    lemma_total_append(prefix, suffix);
    lemma_total_singleton(s[i]);
}

/// Some free region can satisfy a request for `num_frames` frames.
pub open spec fn has_fit(s: Seq<FreeListNode>, num_frames: u64) -> bool {
    exists|i: int| 0 <= i < s.len() && (#[trigger] s[i]).num_frames >= num_frames
}

/// Index of the first region large enough for the request (`s.len()` when
/// none is).
pub open spec fn first_fit_index(s: Seq<FreeListNode>, num_frames: u64) -> int
    decreases s.len(),
{
    if s.len() == 0 {
        0
    } else if s[0].num_frames >= num_frames {
        0
    } else {
        1 + first_fit_index(s.subrange(1, s.len() as int), num_frames)
    }
}

proof fn lemma_first_fit_index(s: Seq<FreeListNode>, num_frames: u64)
    ensures
        0 <= first_fit_index(s, num_frames) <= s.len(),
        first_fit_index(s, num_frames) < s.len() <==> has_fit(s, num_frames),
        first_fit_index(s, num_frames) < s.len() ==> s[first_fit_index(s, num_frames)].num_frames
            >= num_frames,
        forall|j: int| 0 <= j < first_fit_index(s, num_frames) ==> (#[trigger] s[j]).num_frames
            < num_frames,
    decreases s.len(),
{
    if s.len() == 0 {
    } else if s[0].num_frames >= num_frames {
    } else {
        let tail = s.subrange(1, s.len() as int);
        lemma_first_fit_index(tail, num_frames);
        let f = first_fit_index(tail, num_frames);
        assert(forall|j: int| 1 <= j < s.len() ==> s[j] == tail[j - 1]);
        if has_fit(s, num_frames) {
            let w = choose|i: int| 0 <= i < s.len() && (#[trigger] s[i]).num_frames >= num_frames;
            assert(w >= 1);
            assert(tail[w - 1].num_frames >= num_frames);
            assert(has_fit(tail, num_frames));
        }
        if has_fit(tail, num_frames) {
            let w = choose|i: int| 0 <= i < tail.len() && (#[trigger] tail[i]).num_frames
                >= num_frames;
            assert(s[w + 1].num_frames >= num_frames);
            assert(has_fit(s, num_frames));
        }
    }
}

/// The position at which a region based at `addr` belongs: the number of
/// regions whose base is below `addr`.
pub open spec fn insert_position(s: Seq<FreeListNode>, addr: int) -> int
    decreases s.len(),
{
    if s.len() == 0 {
        0
    } else if addr <= s[0].base@ {
        0
    } else {
        1 + insert_position(s.subrange(1, s.len() as int), addr)
    }
}

proof fn lemma_insert_position(s: Seq<FreeListNode>, addr: int)
    ensures
        0 <= insert_position(s, addr) <= s.len(),
        forall|j: int| 0 <= j < insert_position(s, addr) ==> (#[trigger] s[j]).base@ < addr,
        insert_position(s, addr) < s.len() ==> addr <= s[insert_position(s, addr)].base@,
    decreases s.len(),
{
    if s.len() == 0 {
    } else if addr <= s[0].base@ {
    } else {
        let tail = s.subrange(1, s.len() as int);
        lemma_insert_position(tail, addr);
        assert(forall|j: int| 1 <= j < s.len() ==> s[j] == tail[j - 1]);
    }
}

/// The state transformation and returned address of a successful first-fit
/// allocation: the first region with room either loses `num_frames` frames
/// from its end, or is removed whole when it matches exactly.
pub open spec fn allocate_result(s: Seq<FreeListNode>, num_frames: u64) -> (Seq<FreeListNode>,
    u64)
    recommends
        has_fit(s, num_frames),
{
    let i = first_fit_index(s, num_frames);
    let node = s[i];
    if node.num_frames == num_frames {
        (s.remove(i), node.base.0)
    } else {
        (
            s.update(i, FreeListNode { base: node.base, num_frames: (node.num_frames
                - num_frames) as u64 }),
            (node.base.0 + (node.num_frames - num_frames) * PAGE_SIZE) as u64,
        )
    }
}

/// The state transformation of freeing `num_frames` frames at `addr`: the
/// region is inserted in address order and merged with either neighbour it
/// touches.
pub open spec fn deallocate_result(s: Seq<FreeListNode>, addr: u64, num_frames: u64) -> Seq<
    FreeListNode,
> {
    let p = insert_position(s, addr as int);
    let merge_left = p > 0 && s[p - 1].spec_end() == addr;
    let merge_right = p < s.len() && addr + num_frames * PAGE_SIZE == s[p].base@;
    if merge_left && merge_right {
        s.update(
            p - 1,
            FreeListNode {
                base: s[p - 1].base,
                num_frames: (s[p - 1].num_frames + num_frames + s[p].num_frames) as u64,
            },
        ).remove(p)
    } else if merge_left {
        s.update(
            p - 1,
            FreeListNode {
                base: s[p - 1].base,
                num_frames: (s[p - 1].num_frames + num_frames) as u64,
            },
        )
    } else if merge_right {
        s.update(
            p,
            FreeListNode {
                base: PhysicalAddr(addr),
                num_frames: (num_frames + s[p].num_frames) as u64,
            },
        )
    } else {
        s.insert(p, FreeListNode { base: PhysicalAddr(addr), num_frames })
    }
}

/// The state transformation of seeding a region at the tail of the list,
/// merging with the previous region when adjacent.
pub open spec fn seed_result(s: Seq<FreeListNode>, base: u64, num_frames: u64) -> Seq<
    FreeListNode,
> {
    if s.len() > 0 && s.last().spec_end() == base {
        s.update(
            s.len() - 1,
            FreeListNode {
                base: s.last().base,
                num_frames: (s.last().num_frames + num_frames) as u64,
            },
        )
    } else {
        s.push(FreeListNode { base: PhysicalAddr(base), num_frames })
    }
}

proof fn lemma_total_insert(s: Seq<FreeListNode>, i: int, n: FreeListNode)
    requires
        0 <= i <= s.len(),
    ensures
        total_free_frames(s.insert(i, n)) == total_free_frames(s) + n.num_frames,
{
    let prefix = s.subrange(0, i);
    let suffix = s.subrange(i, s.len() as int);
    assert(s =~= prefix + suffix);
    assert(s.insert(i, n) =~= prefix + seq![n] + suffix);
    lemma_total_append(prefix, suffix);
    lemma_total_append(prefix + seq![n], suffix);
    lemma_total_append(prefix, seq![n]);
    lemma_total_singleton(n);
}

/// Seeding a well-formed list with a region that starts at or after its end
/// keeps it well formed and adds exactly the seeded frames.
pub proof fn lemma_seed_result(s: Seq<FreeListNode>, base: u64, num_frames: u64)
    requires
        free_list_wf(s),
        num_frames >= 1,
        base % PAGE_SIZE == 0,
        base + num_frames * PAGE_SIZE <= u64::MAX,
        s.len() > 0 ==> s.last().spec_end() <= base,
    ensures
        free_list_wf(seed_result(s, base, num_frames)),
        total_free_frames(seed_result(s, base, num_frames)) == total_free_frames(s) + num_frames,
{
    let s2 = seed_result(s, base, num_frames);
    if s.len() > 0 && s.last().spec_end() == base {
        let k = s.len() - 1;
        let last = s[k as int];
        assert(last.wf());
        let f = last.num_frames + num_frames;
        assert(f * PAGE_SIZE == last.num_frames * PAGE_SIZE + num_frames * PAGE_SIZE);
        assert(last.base@ + f * PAGE_SIZE == base + num_frames * PAGE_SIZE);
        assert(f <= f * PAGE_SIZE);
        let merged = FreeListNode { base: last.base, num_frames: f as u64 };
        assert(s2 == s.update(k as int, merged));
        assert(merged.wf());
        assert(nodes_wf(s2));
        assert(nodes_ordered(s2));
        assert(nodes_coalesced(s2));
        lemma_total_update(s, k as int, merged);
    } else {
        let fresh = FreeListNode { base: PhysicalAddr(base), num_frames };
        assert(s2 == s.push(fresh));
        assert(fresh.wf());
        assert(forall|i: int| 0 <= i < s.len() ==> s2[i] == s[i]);
        assert(s2[s.len() as int] == fresh);
        assert(nodes_wf(s2));
        if s.len() > 0 {
            assert(s[s.len() - 1].spec_end() <= base && s[s.len() - 1].spec_end() != base);
        }
        assert(nodes_ordered(s2));
        assert(nodes_coalesced(s2));
        assert(s2.drop_last() =~= s);
        assert(total_free_frames(s2) == total_free_frames(s) + num_frames);
    }
}

/// A successful first-fit allocation keeps the list well formed, removes
/// exactly the requested frames, and returns an aligned range that was free
/// before the call and is free no longer.
pub proof fn lemma_allocate_result(s: Seq<FreeListNode>, num_frames: u64)
    requires
        free_list_wf(s),
        num_frames >= 1,
        has_fit(s, num_frames),
    ensures
        ({
            let (s2, a) = allocate_result(s, num_frames);
            &&& free_list_wf(s2)
            &&& total_free_frames(s2) == total_free_frames(s) - num_frames
            &&& a % PAGE_SIZE == 0
            &&& a + num_frames * PAGE_SIZE <= u64::MAX
            &&& range_disjoint(s2, a as int, num_frames)
            &&& (forall|x: int| a <= x < a + num_frames * PAGE_SIZE ==> covers(s, x))
            &&& (forall|x: int| covers(s2, x) ==> covers(s, x))
        }),
{
    lemma_first_fit_index(s, num_frames);
    let i = first_fit_index(s, num_frames);
    let node = s[i];
    assert(node.wf());
    assert(num_frames * PAGE_SIZE <= node.num_frames * PAGE_SIZE);
    if node.num_frames == num_frames {
        let s2 = s.remove(i);
        let a = node.base.0;
        assert(s2 =~= s.subrange(0, i) + s.subrange(i + 1, s.len() as int));
        assert(forall|j: int| 0 <= j < i ==> s2[j] == s[j]);
        assert(forall|j: int| i <= j < s2.len() ==> s2[j] == s[j + 1]);
        assert(nodes_wf(s2));
        assert forall|j: int| 0 <= j && j + 1 < s2.len() implies s2[j].spec_end() <= s2[j
            + 1].base@ && s2[j].spec_end() != s2[j + 1].base@ by {
            if j + 1 < i {
                assert(s[j].spec_end() <= s[j + 1].base@ && s[j].spec_end() != s[j + 1].base@);
            } else if j == i - 1 {
                lemma_ordered_pairwise(s, i - 1, i + 1);
            } else {
                assert(s[j + 1].spec_end() <= s[j + 2].base@ && s[j + 1].spec_end() != s[j
                    + 2].base@);
            }
        }
        lemma_total_remove(s, i);
        assert forall|j: int| 0 <= j < s2.len() implies (s2[j].spec_end() <= a || a + num_frames
            * PAGE_SIZE <= s2[j].base@) by {
            if j < i {
                lemma_ordered_pairwise(s, j, i);
            } else {
                lemma_ordered_pairwise(s, i, j + 1);
            }
        }
        assert forall|x: int| a <= x < a + num_frames * PAGE_SIZE implies covers(s, x) by {
            assert(s[i].base@ <= x < s[i].spec_end());
        }
        assert forall|x: int| covers(s2, x) implies covers(s, x) by {
            let j = choose|j: int| 0 <= j < s2.len() && (#[trigger] s2[j]).base@ <= x < s2[
                j].spec_end();
            if j < i {
                assert(s[j].base@ <= x < s[j].spec_end());
            } else {
                assert(s[j + 1].base@ <= x < s[j + 1].spec_end());
            }
        }
    } else {
        assert(node.num_frames > num_frames);
        let rest = (node.num_frames - num_frames) as u64;
        let shrunk = FreeListNode { base: node.base, num_frames: rest };
        let s2 = s.update(i, shrunk);
        let a = node.base@ + rest * PAGE_SIZE;
        assert(a + num_frames * PAGE_SIZE == node.spec_end());
        vstd::arithmetic::div_mod::lemma_mod_multiples_vanish(
            rest as int,
            node.base@ as int,
            PAGE_SIZE as int,
        );
        assert(a % (PAGE_SIZE as int) == (node.base@ as int) % (PAGE_SIZE as int));
        assert(shrunk.wf());
        assert(nodes_wf(s2));
        assert forall|j: int| 0 <= j && j + 1 < s2.len() implies s2[j].spec_end() <= s2[j
            + 1].base@ && s2[j].spec_end() != s2[j + 1].base@ by {
            assert(s[j].spec_end() <= s[j + 1].base@ && s[j].spec_end() != s[j + 1].base@);
            assert(shrunk.spec_end() < node.spec_end());
        }
        lemma_total_update(s, i, shrunk);
        assert forall|j: int| 0 <= j < s2.len() implies (s2[j].spec_end() <= a || a + num_frames
            * PAGE_SIZE <= s2[j].base@) by {
            if j < i {
                lemma_ordered_pairwise(s, j, i);
            } else if j > i {
                lemma_ordered_pairwise(s, i, j);
            }
        }
        assert forall|x: int| a <= x < a + num_frames * PAGE_SIZE implies covers(s, x) by {
            assert(s[i].base@ <= x < s[i].spec_end());
        }
        assert forall|x: int| covers(s2, x) implies covers(s, x) by {
            let j = choose|j: int| 0 <= j < s2.len() && (#[trigger] s2[j]).base@ <= x < s2[
                j].spec_end();
            if j == i {
                assert(s[i].base@ <= x < s[i].spec_end());
            } else {
                assert(s[j].base@ <= x < s[j].spec_end());
            }
        }
    }
}

/// Freeing a page-aligned range that overlaps no free region keeps the list
/// well formed — in particular fully coalesced — and adds exactly the freed
/// frames.
/// Freeing a page-aligned range that overlaps no free region keeps the list
/// well formed — in particular fully coalesced — and adds exactly the freed
/// frames.
pub proof fn lemma_deallocate_result(s: Seq<FreeListNode>, addr: u64, num_frames: u64)
    requires
        free_list_wf(s),
        num_frames >= 1,
        addr % PAGE_SIZE == 0,
        addr + num_frames * PAGE_SIZE <= u64::MAX,
        range_disjoint(s, addr as int, num_frames),
    ensures
        free_list_wf(deallocate_result(s, addr, num_frames)),
        total_free_frames(deallocate_result(s, addr, num_frames)) == total_free_frames(s)
            + num_frames,
{
    lemma_insert_position(s, addr as int);
    let p = insert_position(s, addr as int);
    let hi = addr + num_frames * PAGE_SIZE;
    assert forall|j: int| 0 <= j < p implies (#[trigger] s[j]).spec_end() <= addr by {
        assert(s[j].base@ < addr);
        assert(s[j].spec_end() <= addr || hi <= s[j].base@);
    }
    assert forall|j: int| p <= j < s.len() implies hi <= (#[trigger] s[j]).base@ by {
        if j > p {
            lemma_ordered_pairwise(s, p, j);
        }
        assert(s[j].wf());
        assert(addr <= s[j].base@);
        assert(s[j].spec_end() <= addr || hi <= s[j].base@);
    }
    let merge_left = p > 0 && s[p - 1].spec_end() == addr;
    let merge_right = p < s.len() && hi == s[p].base@;
    if merge_left && merge_right {
        lemma_deallocate_merge_both(s, addr, num_frames, p);
    } else if merge_left {
        lemma_deallocate_merge_left(s, addr, num_frames, p);
    } else if merge_right {
        lemma_deallocate_merge_right(s, addr, num_frames, p);
    } else {
        lemma_deallocate_no_merge(s, addr, num_frames, p);
    }
}

proof fn lemma_deallocate_merge_both(s: Seq<FreeListNode>, addr: u64, num_frames: u64, p: int)
    requires
        free_list_wf(s),
        num_frames >= 1,
        addr % PAGE_SIZE == 0,
        addr + num_frames * PAGE_SIZE <= u64::MAX,
        p == insert_position(s, addr as int),
        0 < p < s.len(),
        forall|j: int| 0 <= j < p ==> (#[trigger] s[j]).spec_end() <= addr,
        forall|j: int| p <= j < s.len() ==> addr + num_frames * PAGE_SIZE <= (
        #[trigger] s[j]).base@,
        s[p - 1].spec_end() == addr,
        addr + num_frames * PAGE_SIZE == s[p].base@,
    ensures
        free_list_wf(deallocate_result(s, addr, num_frames)),
        total_free_frames(deallocate_result(s, addr, num_frames)) == total_free_frames(s)
            + num_frames,
{
    let left = s[p - 1];
    let right = s[p];
    assert(left.wf() && right.wf());
    let f = left.num_frames + num_frames + right.num_frames;
    assert(f * PAGE_SIZE == left.num_frames * PAGE_SIZE + num_frames * PAGE_SIZE
        + right.num_frames * PAGE_SIZE);
    assert(left.base@ + f * PAGE_SIZE == right.spec_end());
    assert(f <= f * PAGE_SIZE);
    let merged = FreeListNode { base: left.base, num_frames: f as u64 };
    assert(merged.wf());
    assert(merged.spec_end() == right.spec_end());
    let s3 = s.update(p - 1, merged);
    let s2 = s3.remove(p);
    assert(deallocate_result(s, addr, num_frames) == s2);
    assert(s2 =~= s3.subrange(0, p) + s3.subrange(p + 1, s3.len() as int));
    assert(forall|j: int| 0 <= j < p ==> s2[j] == s3[j]);
    assert(forall|j: int| p <= j < s2.len() ==> s2[j] == s[j + 1]);
    assert(nodes_wf(s2));
    assert forall|j: int| 0 <= j && j + 1 < s2.len() implies s2[j].spec_end() <= s2[j + 1].base@
        && s2[j].spec_end() != s2[j + 1].base@ by {
        if j + 1 < p {
            assert(s[j].spec_end() <= s[j + 1].base@ && s[j].spec_end() != s[j + 1].base@);
        } else if j == p - 1 {
            assert(s[p].spec_end() <= s[p + 1].base@ && s[p].spec_end() != s[p + 1].base@);
        } else {
            assert(s[j + 1].spec_end() <= s[j + 2].base@ && s[j + 1].spec_end() != s[j
                + 2].base@);
        }
    }
    lemma_total_update(s, p - 1, merged);
    assert(s3[p as int] == s[p as int]);
    lemma_total_remove(s3, p);
}

proof fn lemma_deallocate_merge_left(s: Seq<FreeListNode>, addr: u64, num_frames: u64, p: int)
    requires
        free_list_wf(s),
        num_frames >= 1,
        addr % PAGE_SIZE == 0,
        addr + num_frames * PAGE_SIZE <= u64::MAX,
        p == insert_position(s, addr as int),
        0 < p <= s.len(),
        forall|j: int| 0 <= j < p ==> (#[trigger] s[j]).spec_end() <= addr,
        forall|j: int| p <= j < s.len() ==> addr + num_frames * PAGE_SIZE <= (
        #[trigger] s[j]).base@,
        s[p - 1].spec_end() == addr,
        !(p < s.len() && addr + num_frames * PAGE_SIZE == s[p].base@),
    ensures
        free_list_wf(deallocate_result(s, addr, num_frames)),
        total_free_frames(deallocate_result(s, addr, num_frames)) == total_free_frames(s)
            + num_frames,
{
    let hi = addr + num_frames * PAGE_SIZE;
    let left = s[p - 1];
    assert(left.wf());
    let f = left.num_frames + num_frames;
    assert(f * PAGE_SIZE == left.num_frames * PAGE_SIZE + num_frames * PAGE_SIZE);
    assert(left.base@ + f * PAGE_SIZE == hi);
    assert(f <= f * PAGE_SIZE);
    let merged = FreeListNode { base: left.base, num_frames: f as u64 };
    assert(merged.wf());
    assert(merged.spec_end() == hi);
    let s2 = s.update(p - 1, merged);
    assert(deallocate_result(s, addr, num_frames) == s2);
    assert(nodes_wf(s2));
    assert forall|j: int| 0 <= j && j + 1 < s2.len() implies s2[j].spec_end() <= s2[j + 1].base@
        && s2[j].spec_end() != s2[j + 1].base@ by {
        assert(s[j].spec_end() <= s[j + 1].base@ && s[j].spec_end() != s[j + 1].base@);
        if j == p - 1 {
            assert(hi <= s[p].base@);
            assert(hi != s[p].base@);
        }
    }
    lemma_total_update(s, p - 1, merged);
}

proof fn lemma_deallocate_merge_right(s: Seq<FreeListNode>, addr: u64, num_frames: u64, p: int)
    requires
        free_list_wf(s),
        num_frames >= 1,
        addr % PAGE_SIZE == 0,
        addr + num_frames * PAGE_SIZE <= u64::MAX,
        p == insert_position(s, addr as int),
        0 <= p < s.len(),
        forall|j: int| 0 <= j < p ==> (#[trigger] s[j]).spec_end() <= addr,
        forall|j: int| p <= j < s.len() ==> addr + num_frames * PAGE_SIZE <= (
        #[trigger] s[j]).base@,
        !(p > 0 && s[p - 1].spec_end() == addr),
        addr + num_frames * PAGE_SIZE == s[p].base@,
    ensures
        free_list_wf(deallocate_result(s, addr, num_frames)),
        total_free_frames(deallocate_result(s, addr, num_frames)) == total_free_frames(s)
            + num_frames,
{
    let right = s[p as int];
    assert(right.wf());
    let f = num_frames + right.num_frames;
    assert(f * PAGE_SIZE == num_frames * PAGE_SIZE + right.num_frames * PAGE_SIZE);
    assert(addr + f * PAGE_SIZE == right.spec_end());
    assert(f <= f * PAGE_SIZE);
    let merged = FreeListNode { base: PhysicalAddr(addr), num_frames: f as u64 };
    assert(merged.wf());
    assert(merged.spec_end() == right.spec_end());
    let s2 = s.update(p as int, merged);
    assert(deallocate_result(s, addr, num_frames) == s2);
    assert(nodes_wf(s2));
    assert forall|j: int| 0 <= j && j + 1 < s2.len() implies s2[j].spec_end() <= s2[j + 1].base@
        && s2[j].spec_end() != s2[j + 1].base@ by {
        assert(s[j].spec_end() <= s[j + 1].base@ && s[j].spec_end() != s[j + 1].base@);
        if j + 1 == p {
            assert(s[j].spec_end() <= addr);
            assert(s[j].spec_end() != addr);
        }
    }
    lemma_total_update(s, p as int, merged);
}

proof fn lemma_deallocate_no_merge(s: Seq<FreeListNode>, addr: u64, num_frames: u64, p: int)
    requires
        free_list_wf(s),
        num_frames >= 1,
        addr % PAGE_SIZE == 0,
        addr + num_frames * PAGE_SIZE <= u64::MAX,
        p == insert_position(s, addr as int),
        0 <= p <= s.len(),
        forall|j: int| 0 <= j < p ==> (#[trigger] s[j]).spec_end() <= addr,
        forall|j: int| p <= j < s.len() ==> addr + num_frames * PAGE_SIZE <= (
        #[trigger] s[j]).base@,
        !(p > 0 && s[p - 1].spec_end() == addr),
        !(p < s.len() && addr + num_frames * PAGE_SIZE == s[p].base@),
    ensures
        free_list_wf(deallocate_result(s, addr, num_frames)),
        total_free_frames(deallocate_result(s, addr, num_frames)) == total_free_frames(s)
            + num_frames,
{
    let hi = addr + num_frames * PAGE_SIZE;
    let fresh = FreeListNode { base: PhysicalAddr(addr), num_frames };
    assert(fresh.wf());
    let s2 = s.insert(p as int, fresh);
    assert(deallocate_result(s, addr, num_frames) == s2);
    assert(s2 =~= s.subrange(0, p) + seq![fresh] + s.subrange(p, s.len() as int));
    assert(forall|j: int| 0 <= j < p ==> s2[j] == s[j]);
    assert(s2[p as int] == fresh);
    assert(forall|j: int| p < j < s2.len() ==> s2[j] == s[j - 1]);
    assert(nodes_wf(s2));
    assert forall|j: int| 0 <= j && j + 1 < s2.len() implies s2[j].spec_end() <= s2[j + 1].base@
        && s2[j].spec_end() != s2[j + 1].base@ by {
        if j + 1 < p {
            assert(s[j].spec_end() <= s[j + 1].base@ && s[j].spec_end() != s[j + 1].base@);
        } else if j + 1 == p {
            assert(s[j].spec_end() <= addr);
            assert(s[j].spec_end() != addr);
        } else if j == p {
            assert(hi <= s[p as int].base@);
            assert(hi != s[p as int].base@);
        } else {
            assert(s[j - 1].spec_end() <= s[j].base@ && s[j - 1].spec_end() != s[j].base@);
        }
    }
    lemma_total_insert(s, p as int, fresh);
}

/// The physical frame allocator: an ordered, fully coalesced list of free
/// regions, first-fit allocation, address-ordered freeing with immediate
/// coalescing on both sides.
pub struct FreeListAllocator {
    nodes: Vec<FreeListNode>,
}

impl View for FreeListAllocator {
    type V = Seq<FreeListNode>;

    closed spec fn view(&self) -> Seq<FreeListNode> {
        self.nodes@
    }
}

impl FreeListAllocator {
    /// Invariant: regions ascend, are disjoint, and no mergeable pair is
    /// ever left unmerged.
    pub open spec fn wf(&self) -> bool {
        free_list_wf(self@)
    }

    /// An empty allocator: no free frames at all.
    pub fn new() -> (r: Self)
        ensures
            r@ == Seq::<FreeListNode>::empty(),
            r.wf(),
            total_free_frames(r@) == 0,
    {
        let r = FreeListAllocator { nodes: Vec::new() };
        proof {
            assert(r@ =~= Seq::<FreeListNode>::empty());
        }
        r
    }

    /// The first free region, lowest in memory, if any.
    pub fn head(&self) -> (r: Option<FreeListNode>)
        ensures
            match r {
                Some(n) => self@.len() > 0 && n == self@[0],
                None => self@.len() == 0,
            },
    {
        if self.nodes.len() == 0 {
            None
        } else {
            Some(self.nodes[0])
        }
    }

    /// How many free regions the list currently holds.
    pub fn region_count(&self) -> (r: usize)
        ensures
            r == self@.len(),
    {
        self.nodes.len()
    }

    /// A copy of the region at position `index` in address order.
    pub fn region_at(&self, index: usize) -> (r: Option<FreeListNode>)
        ensures
            match r {
                Some(n) => index < self@.len() && n == self@[index as int],
                None => index >= self@.len(),
            },
    {
        if index < self.nodes.len() {
            Some(self.nodes[index])
        } else {
            None
        }
    }

    /// Register a free region at boot time. Regions must arrive in
    /// ascending address order; the new region is appended at the tail and
    /// merged with its predecessor when adjacent.
    pub fn seed(&mut self, base: PhysicalAddr, num_frames: u64)
        requires
            old(self).wf(),
            num_frames >= 1,
            base@ % PAGE_SIZE == 0,
            base@ + num_frames * PAGE_SIZE <= u64::MAX,
            old(self)@.len() > 0 ==> old(self)@.last().spec_end() <= base@,
        ensures
            final(self)@ == seed_result(old(self)@, base@, num_frames),
            final(self).wf(),
            nodes_coalesced(final(self)@),
            total_free_frames(final(self)@) == total_free_frames(old(self)@) + num_frames,
    {
        proof {
            lemma_seed_result(old(self)@, base@, num_frames);
        }
        let len = self.nodes.len();
        if len > 0 {
            let last = self.nodes[len - 1];
            assert(last.wf());
            if last.base.0 + last.num_frames * PAGE_SIZE == base.0 {
                assert((last.num_frames + num_frames) * PAGE_SIZE == last.num_frames * PAGE_SIZE
                    + num_frames * PAGE_SIZE);
                assert(last.num_frames + num_frames <= (last.num_frames + num_frames)
                    * PAGE_SIZE);
                self.nodes.set(
                    len - 1,
                    FreeListNode { base: last.base, num_frames: last.num_frames + num_frames },
                );
                return ;
            }
        }
        self.nodes.push(FreeListNode { base, num_frames });
    }

    /// First-fit allocation of `num_frames` contiguous frames. When the
    /// chosen region is larger than the request, the frames are carved from
    /// its end so the region keeps its base; an exact match removes the
    /// region whole. Fails with `OutOfMemory` if and only if no single
    /// region is large enough.
    pub fn allocate(&mut self, num_frames: u64) -> (r: Result<PhysicalAddr, AllocError>)
        requires
            old(self).wf(),
            num_frames >= 1,
        ensures
            final(self).wf(),
            match r {
                Ok(a) => {
                    &&& has_fit(old(self)@, num_frames)
                    &&& final(self)@ == allocate_result(old(self)@, num_frames).0
                    &&& a@ == allocate_result(old(self)@, num_frames).1
                    &&& total_free_frames(final(self)@) == total_free_frames(old(self)@)
                        - num_frames
                    &&& a@ % PAGE_SIZE == 0
                    &&& a@ + num_frames * PAGE_SIZE <= u64::MAX
                    &&& range_disjoint(final(self)@, a@ as int, num_frames)
                    &&& (forall|x: int|
                        a@ <= x < a@ + num_frames * PAGE_SIZE ==> covers(old(self)@, x))
                    &&& (forall|x: int| covers(final(self)@, x) ==> covers(old(self)@, x))
                },
                Err(e) => {
                    &&& e == AllocError::OutOfMemory
                    &&& final(self)@ == old(self)@
                    &&& !has_fit(old(self)@, num_frames)
                },
            },
    {
        let ghost s = self.nodes@;
        let mut i: usize = 0;
        while i < self.nodes.len()
            invariant
                self.nodes@ == s,
                old(self)@ == s,
                free_list_wf(s),
                num_frames >= 1,
                i <= s.len(),
                forall|j: int| 0 <= j < i ==> (#[trigger] s[j]).num_frames < num_frames,
            decreases s.len() - i,
        {
            let node = self.nodes[i];
            if node.num_frames >= num_frames {
                proof {
                    lemma_first_fit_index(s, num_frames);
                    assert(has_fit(s, num_frames)) by {
                        assert(s[i as int].num_frames >= num_frames);
                    }
                    let f = first_fit_index(s, num_frames);
                    assert(f == i as int) by {
                        assert(!(f < i as int)) by {
                            assert(f < i as int ==> s[f].num_frames < num_frames);
                        }
                        assert(!(f > i as int));
                    }
                    lemma_allocate_result(s, num_frames);
                }
                if node.num_frames == num_frames {
                    self.nodes.remove(i);
                    return Ok(node.base);
                } else {
                    assert(node.wf());
                    let rest = node.num_frames - num_frames;
                    self.nodes.set(i, FreeListNode { base: node.base, num_frames: rest });
                    let addr = node.base.0 + rest * PAGE_SIZE;
                    return Ok(PhysicalAddr::new(addr));
                }
            }
            i += 1;
        }
        assert(!has_fit(s, num_frames));
        Err(AllocError::OutOfMemory)
    }

    /// Return `num_frames` frames starting at `phys_addr` to the free pool.
    /// The region is inserted in address order and coalesced with both
    /// neighbours. The caller must not free a range that overlaps memory
    /// that is already free.
    pub fn deallocate(&mut self, phys_addr: PhysicalAddr, num_frames: u64)
        requires
            old(self).wf(),
            num_frames >= 1,
            phys_addr@ % PAGE_SIZE == 0,
            phys_addr@ + num_frames * PAGE_SIZE <= u64::MAX,
            range_disjoint(old(self)@, phys_addr@ as int, num_frames),
        ensures
            final(self)@ == deallocate_result(old(self)@, phys_addr@, num_frames),
            final(self).wf(),
            nodes_coalesced(final(self)@),
            total_free_frames(final(self)@) == total_free_frames(old(self)@) + num_frames,
    {
        proof {
            lemma_deallocate_result(old(self)@, phys_addr@, num_frames);
            lemma_insert_position(old(self)@, phys_addr@ as int);
        }
        let ghost s = self.nodes@;
        let mut p: usize = 0;
        while p < self.nodes.len() && self.nodes[p].base.0 < phys_addr.0
            invariant
                self.nodes@ == s,
                old(self)@ == s,
                free_list_wf(s),
                p <= s.len(),
                forall|j: int| 0 <= j < p ==> (#[trigger] s[j]).base@ < phys_addr@,
            decreases s.len() - p,
        {
            p += 1;
        }
        proof {
            assert(p as int == insert_position(s, phys_addr@ as int)) by {
                let q = insert_position(s, phys_addr@ as int);
                if q < p as int {
                    assert(s[q].base@ < phys_addr@);
                    assert(phys_addr@ <= s[q].base@);
                }
                if (p as int) < q {
                    assert(s[p as int].base@ < phys_addr@);
                }
            }
        }
        let merge_left = p > 0 && {
            let left = self.nodes[p - 1];
            assert(left.wf());
            left.base.0 + left.num_frames * PAGE_SIZE == phys_addr.0
        };
        let hi = phys_addr.0 + num_frames * PAGE_SIZE;
        let merge_right = p < self.nodes.len() && hi == self.nodes[p].base.0;
        if merge_left && merge_right {
            let left = self.nodes[p - 1];
            let right = self.nodes[p];
            assert(left.wf() && right.wf());
            assert((left.num_frames + num_frames + right.num_frames) * PAGE_SIZE
                == left.num_frames * PAGE_SIZE + num_frames * PAGE_SIZE + right.num_frames
                * PAGE_SIZE);
            assert(left.num_frames + num_frames + right.num_frames <= (left.num_frames
                + num_frames + right.num_frames) * PAGE_SIZE);
            self.nodes.set(
                p - 1,
                FreeListNode {
                    base: left.base,
                    num_frames: left.num_frames + num_frames + right.num_frames,
                },
            );
            self.nodes.remove(p);
        } else if merge_left {
            let left = self.nodes[p - 1];
            assert(left.wf());
            assert((left.num_frames + num_frames) * PAGE_SIZE == left.num_frames * PAGE_SIZE
                + num_frames * PAGE_SIZE);
            assert(left.num_frames + num_frames <= (left.num_frames + num_frames) * PAGE_SIZE);
            self.nodes.set(
                p - 1,
                FreeListNode { base: left.base, num_frames: left.num_frames + num_frames },
            );
        } else if merge_right {
            let right = self.nodes[p];
            assert(right.wf());
            assert((num_frames + right.num_frames) * PAGE_SIZE == num_frames * PAGE_SIZE
                + right.num_frames * PAGE_SIZE);
            assert(num_frames + right.num_frames <= (num_frames + right.num_frames) * PAGE_SIZE);
            self.nodes.set(
                p,
                FreeListNode {
                    base: phys_addr,
                    num_frames: num_frames + right.num_frames,
                },
            );
        } else {
            self.nodes.insert(p, FreeListNode { base: phys_addr, num_frames });
        }
    }
}

/// One allocator request, for stating laws about whole call sequences.
#[derive(Clone, Copy, Debug)]
pub enum AllocatorOp {
    Seed { base: u64, num_frames: u64 },
    Allocate { num_frames: u64 },
    Deallocate { base: u64, num_frames: u64 },
}

/// The free list after one request. A failed allocation (no region large
/// enough) leaves the list unchanged.
pub open spec fn apply_allocator_op(s: Seq<FreeListNode>, op: AllocatorOp) -> Seq<FreeListNode> {
    match op {
        AllocatorOp::Seed { base, num_frames } => seed_result(s, base, num_frames),
        AllocatorOp::Allocate { num_frames } => if has_fit(s, num_frames) {
            allocate_result(s, num_frames).0
        } else {
            s
        },
        AllocatorOp::Deallocate { base, num_frames } => deallocate_result(s, base, num_frames),
    }
}

/// The preconditions under which the allocator accepts the request, as its
/// methods state them.
pub open spec fn allocator_op_allowed(s: Seq<FreeListNode>, op: AllocatorOp) -> bool {
    match op {
        AllocatorOp::Seed { base, num_frames } => {
            &&& num_frames >= 1
            &&& base % PAGE_SIZE == 0
            &&& base + num_frames * PAGE_SIZE <= u64::MAX
            &&& (s.len() > 0 ==> s.last().spec_end() <= base)
        },
        AllocatorOp::Allocate { num_frames } => num_frames >= 1,
        AllocatorOp::Deallocate { base, num_frames } => {
            &&& num_frames >= 1
            &&& base % PAGE_SIZE == 0
            &&& base + num_frames * PAGE_SIZE <= u64::MAX
            &&& range_disjoint(s, base as int, num_frames)
        },
    }
}

/// The free list after a whole sequence of requests.
pub open spec fn apply_allocator_ops(s: Seq<FreeListNode>, ops: Seq<AllocatorOp>) -> Seq<
    FreeListNode,
>
    decreases ops.len(),
{
    if ops.len() == 0 {
        s
    } else {
        apply_allocator_ops(apply_allocator_op(s, ops[0]), ops.subrange(1, ops.len() as int))
    }
}

/// Every request in the sequence is accepted in the state where it runs.
pub open spec fn allocator_ops_allowed(s: Seq<FreeListNode>, ops: Seq<AllocatorOp>) -> bool
    decreases ops.len(),
{
    ops.len() == 0 || (allocator_op_allowed(s, ops[0]) && allocator_ops_allowed(
        apply_allocator_op(s, ops[0]),
        ops.subrange(1, ops.len() as int),
    ))
}

/// Net change in free frames caused by one request: seeded and freed frames
/// count positive, successfully allocated frames negative.
pub open spec fn allocator_op_gain(s: Seq<FreeListNode>, op: AllocatorOp) -> int {
    match op {
        AllocatorOp::Seed { base, num_frames } => num_frames as int,
        AllocatorOp::Allocate { num_frames } => if has_fit(s, num_frames) {
            -(num_frames as int)
        } else {
            0
        },
        AllocatorOp::Deallocate { base, num_frames } => num_frames as int,
    }
}

/// Net change in free frames over a whole sequence of requests.
pub open spec fn allocator_ops_gain(s: Seq<FreeListNode>, ops: Seq<AllocatorOp>) -> int
    decreases ops.len(),
{
    if ops.len() == 0 {
        0
    } else {
        allocator_op_gain(s, ops[0]) + allocator_ops_gain(
            apply_allocator_op(s, ops[0]),
            ops.subrange(1, ops.len() as int),
        )
    }
}

/// One accepted request changes the total free frame count by exactly its
/// gain and preserves the list invariant.
pub proof fn lemma_allocator_op_conservation(s: Seq<FreeListNode>, op: AllocatorOp)
    requires
        free_list_wf(s),
        allocator_op_allowed(s, op),
    ensures
        free_list_wf(apply_allocator_op(s, op)),
        total_free_frames(apply_allocator_op(s, op)) == total_free_frames(s)
            + allocator_op_gain(s, op),
{
    match op {
        AllocatorOp::Seed { base, num_frames } => {
            lemma_seed_result(s, base, num_frames);
        },
        AllocatorOp::Allocate { num_frames } => {
            if has_fit(s, num_frames) {
                lemma_allocate_result(s, num_frames);
            }
        },
        AllocatorOp::Deallocate { base, num_frames } => {
            lemma_deallocate_result(s, base, num_frames);
        },
    }
}

/// Allocator conservation: over any accepted sequence of seed, allocate and
/// deallocate requests, the total free frame count equals the starting count
/// plus all seeded and freed frames minus all successfully allocated frames,
/// and the list invariant — no frame double-counted, no two adjacent free
/// regions — is maintained throughout.
pub proof fn lemma_allocator_conservation(s: Seq<FreeListNode>, ops: Seq<AllocatorOp>)
    requires
        free_list_wf(s),
        allocator_ops_allowed(s, ops),
    ensures
        free_list_wf(apply_allocator_ops(s, ops)),
        total_free_frames(apply_allocator_ops(s, ops)) == total_free_frames(s)
            + allocator_ops_gain(s, ops),
    decreases ops.len(),
{
    if ops.len() > 0 {
        lemma_allocator_op_conservation(s, ops[0]);
        lemma_allocator_conservation(
            apply_allocator_op(s, ops[0]),
            ops.subrange(1, ops.len() as int),
        );
    }
}

/// Allocate/free round trip: allocating `num_frames` frames and immediately
/// freeing the returned range is always permitted and restores the original
/// total of free frames.
pub proof fn lemma_allocate_deallocate_round_trip(s: Seq<FreeListNode>, num_frames: u64)
    requires
        free_list_wf(s),
        num_frames >= 1,
        has_fit(s, num_frames),
    ensures
        ({
            let (s2, a) = allocate_result(s, num_frames);
            &&& range_disjoint(s2, a as int, num_frames)
            &&& free_list_wf(deallocate_result(s2, a, num_frames))
            &&& total_free_frames(deallocate_result(s2, a, num_frames)) == total_free_frames(s)
        }),
{
    lemma_allocate_result(s, num_frames);
    let (s2, a) = allocate_result(s, num_frames);
    lemma_deallocate_result(s2, a, num_frames);
}

/// Allocate `num_pages` contiguous physical page frames.
pub fn allocate_pages(allocator: &mut FreeListAllocator, num_pages: usize) -> (r: Result<
    PhysicalAddr,
    AllocError,
>)
    requires
        old(allocator).wf(),
        num_pages >= 1,
        num_pages <= u64::MAX,
    ensures
        final(allocator).wf(),
        match r {
            Ok(a) => has_fit(old(allocator)@, num_pages as u64) && final(allocator)@
                == allocate_result(old(allocator)@, num_pages as u64).0 && a@ == allocate_result(
                old(allocator)@,
                num_pages as u64,
            ).1 && total_free_frames(final(allocator)@) == total_free_frames(old(allocator)@)
                - num_pages,
            Err(e) => e == AllocError::OutOfMemory && final(allocator)@ == old(allocator)@
                && !has_fit(old(allocator)@, num_pages as u64),
        },
{
    allocator.allocate(num_pages as u64)
}

/// Return `num_pages` frames starting at `physical_addr` to the free pool.
pub fn deallocate_pages(
    allocator: &mut FreeListAllocator,
    physical_addr: PhysicalAddr,
    num_pages: usize,
)
    requires
        old(allocator).wf(),
        num_pages >= 1,
        num_pages <= u64::MAX,
        physical_addr@ % PAGE_SIZE == 0,
        physical_addr@ + num_pages * PAGE_SIZE <= u64::MAX,
        range_disjoint(old(allocator)@, physical_addr@ as int, num_pages as u64),
    ensures
        final(allocator)@ == deallocate_result(old(allocator)@, physical_addr@, num_pages as u64),
        final(allocator).wf(),
        total_free_frames(final(allocator)@) == total_free_frames(old(allocator)@) + num_pages,
{
    allocator.deallocate(physical_addr, num_pages as u64)
}

} // verus!
