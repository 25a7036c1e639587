//! The kernel heap: a bump allocator over a run of pages, with a list of freed blocks that allocations
//! look into first.
//
// The freed blocks are kept as (address, size) pairs in address order, as the in-memory linked list of
// the blocks themselves would hold them.
use vstd::prelude::*;
use crate::memory::pages::is_canonical;
use crate::memory::{align_up_spec, is_power_of_two, lemma_frame_page_size_power_of_two, AddrOps, MemoryError, VirtualAddress, FRAME_PAGE_SIZE};
use crate::memory::frames::FrameAllocator;
use crate::memory::pages::page_table::EntryFlags;
use crate::memory::pages::paging::{lemma_near_pages_keys, pages_free, page_key, ActivePagingContext};
use crate::memory::frames::lemma_can_hand_out_le;
use crate::memory::pages::simple_page_allocator::{fits_somewhere, is_first_fit, window_free, BitmapPageAllocator, HH_END, HH_START};
use vstd::arithmetic::power2::pow2;

verus! {

/// The size of the header that a freed block holds (its size and the link to the next one); also the
/// smallest block and the alignment of every block.
pub const FREED_BLOCK_SIZE: u64 = 16;
/// The alignment of that header.
pub const FREED_BLOCK_ALIGN: u64 = 8;

/// Where a block at `addr` goes in the list: before the first block that starts above it.
pub open spec fn insert_index(s: Seq<(u64, u64)>, addr: u64) -> int
    decreases s.len(),
{
    if s.len() == 0 {
        0
    } else if s[0].0 > addr {
        0
    } else {
        1 + insert_index(s.drop_first(), addr)
    }
}

/// The first block that starts at `addr`.
pub open spec fn index_of_addr(s: Seq<(u64, u64)>, addr: u64) -> Option<int>
    decreases s.len(),
{
    if s.len() == 0 {
        None
    } else if s[0].0 == addr {
        Some(0)
    } else {
        match index_of_addr(s.drop_first(), addr) {
            Some(i) => Some(i + 1),
            None => None,
        }
    }
}

/// A block can serve a request of `size` bytes aligned to `align`: it starts aligned, and it is exactly
/// that big or big enough to leave a freed block behind.
pub open spec fn block_fits(b: (u64, u64), align: u64, size: u64) -> bool {
    &&& b.0 % align == 0
    &&& (b.1 == size || b.1 >= size + FREED_BLOCK_SIZE)
}

/// The first block that can serve a request of `size` bytes aligned to `align`.
pub open spec fn first_fit(s: Seq<(u64, u64)>, align: u64, size: u64) -> Option<int>
    decreases s.len(),
{
    if s.len() == 0 {
        None
    } else if block_fits(s[0], align, size) {
        Some(0)
    } else {
        match first_fit(s.drop_first(), align, size) {
            Some(i) => Some(i + 1),
            None => None,
        }
    }
}

/// The list with the block `(addr, size)` put in its place.
pub open spec fn list_add(s: Seq<(u64, u64)>, addr: u64, size: u64) -> Seq<(u64, u64)> {
    s.insert(insert_index(s, addr), (addr, size))
}

/// The list after taking block `i` to serve `size` bytes: what is left of it goes back.
pub open spec fn list_take(s: Seq<(u64, u64)>, i: int, size: u64) -> Seq<(u64, u64)> {
    let rest = s.remove(i);
    if s[i].1 == size {
        rest
    } else {
        list_add(rest, (s[i].0 + size) as u64, (s[i].1 - size) as u64)
    }
}

/// The list with every run of touching blocks merged into one.
pub open spec fn coalesce(s: Seq<(u64, u64)>) -> Seq<(u64, u64)>
    decreases s.len(),
{
    if s.len() == 0 {
        s
    } else {
        let r = coalesce(s.drop_last());
        let b = s.last();
        if r.len() > 0 && r.last().0 + r.last().1 == b.0 {
            r.drop_last().push((r.last().0, (r.last().1 + b.1) as u64))
        } else {
            r.push(b)
        }
    }
}

/// The blocks are in address order, do not overlap, and are big enough and aligned for their header.
pub open spec fn blocks_wf(s: Seq<(u64, u64)>) -> bool {
    &&& forall|i: int| 0 <= i < s.len() ==> (#[trigger] s[i]).0 % FREED_BLOCK_SIZE == 0 && s[i].1 >= FREED_BLOCK_SIZE
        && s[i].0 + s[i].1 <= u64::MAX
    &&& forall|i: int, j: int| 0 <= i < j < s.len() ==> #[trigger] s[i].0 + s[i].1 <= #[trigger] s[j].0
}

/// In a list in address order, the first block at a block's address is that block.
proof fn lemma_index_of_addr(s: Seq<(u64, u64)>, i: int)
    requires
        blocks_wf(s),
        0 <= i < s.len(),
    ensures
        index_of_addr(s, s[i].0) == Some(i),
    decreases s.len(),
{
    if i > 0 {
        assert(s[0].0 + s[0].1 <= s[i].0);
        let d = s.drop_first();
        assert(blocks_wf(d)) by {
            assert forall|a: int, b: int| 0 <= a < b < d.len() implies #[trigger] d[a].0 + d[a].1 <= #[trigger] d[b].0 by {
                assert(d[a] == s[a + 1] && d[b] == s[b + 1]);
            }
        }
        lemma_index_of_addr(d, i - 1);
        assert(d[i - 1] == s[i]);
    }
}

/// Where the insertion index lies.
proof fn lemma_insert_index(s: Seq<(u64, u64)>, addr: u64)
    ensures
        0 <= insert_index(s, addr) <= s.len(),
        forall|j: int| 0 <= j < insert_index(s, addr) ==> s[j].0 <= addr,
        insert_index(s, addr) < s.len() ==> s[insert_index(s, addr)].0 > addr,
    decreases s.len(),
{
    if s.len() > 0 && s[0].0 <= addr {
        lemma_insert_index(s.drop_first(), addr);
        assert forall|j: int| 0 <= j < insert_index(s, addr) implies s[j].0 <= addr by {
            if j > 0 {
                assert(s[j] == s.drop_first()[j - 1]);
            }
        }
    }
}

/// What the first fit is.
proof fn lemma_first_fit(s: Seq<(u64, u64)>, align: u64, size: u64)
    ensures
        first_fit(s, align, size) matches Some(i) ==> 0 <= i < s.len() && block_fits(s[i], align, size)
            && forall|j: int| 0 <= j < i ==> !block_fits(#[trigger] s[j], align, size),
        first_fit(s, align, size) is None ==> forall|j: int| 0 <= j < s.len() ==> !block_fits(#[trigger] s[j], align, size),
    decreases s.len(),
{
    if s.len() > 0 && !block_fits(s[0], align, size) {
        lemma_first_fit(s.drop_first(), align, size);
        assert forall|j: int| 0 < j < s.len() implies s[j] == s.drop_first()[j - 1] by {}
    }
}


/// The blocks all lie in `[lo, hi)`.
pub open spec fn blocks_within(s: Seq<(u64, u64)>, lo: int, hi: int) -> bool {
    forall|i: int| 0 <= i < s.len() ==> lo <= (#[trigger] s[i]).0 && s[i].0 + s[i].1 <= hi
}

/// The block `[addr, addr + size)` shares no byte with any block of the list.
pub open spec fn disjoint_from_all(s: Seq<(u64, u64)>, addr: int, size: int) -> bool {
    forall|i: int| 0 <= i < s.len() ==> (#[trigger] s[i]).0 + s[i].1 <= addr || addr + size <= s[i].0
}

/// Adding a block that overlaps none keeps the list in order and apart.
proof fn lemma_list_add_wf(s: Seq<(u64, u64)>, addr: u64, size: u64, lo: int, hi: int)
    requires
        blocks_wf(s),
        blocks_within(s, lo, hi),
        addr % FREED_BLOCK_SIZE == 0,
        size >= FREED_BLOCK_SIZE,
        lo <= addr,
        addr + size <= hi,
        hi <= u64::MAX,
        disjoint_from_all(s, addr as int, size as int),
    ensures
        blocks_wf(list_add(s, addr, size)),
        blocks_within(list_add(s, addr, size), lo, hi),
{
    lemma_insert_index(s, addr);
    let k = insert_index(s, addr);
    let t = list_add(s, addr, size);
    assert forall|i: int, j: int| 0 <= i < j < t.len() implies #[trigger] t[i].0 + t[i].1 <= #[trigger] t[j].0 by {
        if j < k {
            assert(t[i] == s[i] && t[j] == s[j]);
        } else if j == k {
            assert(t[i] == s[i]);
            assert(s[i].0 <= addr);
            assert(s[i].0 + s[i].1 <= addr || addr + size <= s[i].0);
        } else if i == k {
            assert(t[j] == s[j - 1]);
            if j - 1 > k {
                assert(s[k].0 <= s[j - 1].0) by {
                    assert(s[k].0 + s[k].1 <= s[j - 1].0);
                }
            }
            assert(s[k].0 > addr);
            assert(s[j - 1].0 + s[j - 1].1 <= addr || addr + size <= s[j - 1].0);
        } else if i < k {
            assert(t[i] == s[i] && t[j] == s[j - 1]);
        } else {
            assert(t[i] == s[i - 1] && t[j] == s[j - 1]);
        }
    }
}

/// Address `x` lies in one of the blocks of `s`.
pub open spec fn covers(s: Seq<(u64, u64)>, x: int) -> bool {
    exists|i: int| 0 <= i < s.len() && (#[trigger] s[i]).0 <= x < s[i].0 + s[i].1
}

/// No block of `s` ends where the next one starts.
pub open spec fn none_touching(s: Seq<(u64, u64)>) -> bool {
    forall|i: int| 0 <= i < s.len() - 1 ==> #[trigger] s[i].0 + s[i].1 < s[i + 1].0
}

/// Dropping the last block keeps the list in order, apart and in its bounds.
proof fn lemma_drop_last_wf(s: Seq<(u64, u64)>, lo: int, hi: int)
    requires
        blocks_wf(s),
        blocks_within(s, lo, hi),
        s.len() > 0,
    ensures
        blocks_wf(s.drop_last()),
        blocks_within(s.drop_last(), lo, hi),
{
    let d = s.drop_last();
    assert forall|a: int, b: int| 0 <= a < b < d.len() implies #[trigger] d[a].0 + d[a].1 <= #[trigger] d[b].0 by {
        assert(d[a] == s[a] && d[b] == s[b]);
    }
    assert forall|a: int| 0 <= a < d.len() implies (#[trigger] d[a]).0 % FREED_BLOCK_SIZE == 0 && d[a].1 >= FREED_BLOCK_SIZE
        && d[a].0 + d[a].1 <= u64::MAX by {
        assert(d[a] == s[a]);
    }
    assert forall|a: int| 0 <= a < d.len() implies lo <= (#[trigger] d[a]).0 && d[a].0 + d[a].1 <= hi by {
        assert(d[a] == s[a]);
    }
}

/// One step of merging covers what the list with its last block covers.
proof fn lemma_coalesce_step_covers(s: Seq<(u64, u64)>)
    requires
        s.len() > 0,
        blocks_wf(s),
        forall|x: int| covers(coalesce(s.drop_last()), x) <==> covers(s.drop_last(), x),
    ensures
        forall|x: int| covers(coalesce(s), x) <==> covers(s, x),
{
    let d = s.drop_last();
    let r = coalesce(d);
    let b = s.last();
    let c = coalesce(s);
    assert(b == s[s.len() - 1]);
    let merged = r.len() > 0 && r.last().0 + r.last().1 == b.0;
    if merged {
        assert(r.last().1 + b.1 <= u64::MAX);
        assert(c == r.drop_last().push((r.last().0, (r.last().1 + b.1) as u64)));
        assert(c.last().0 + c.last().1 == b.0 + b.1);
        assert(c[c.len() - 1] == c.last());
    } else {
        assert(c == r.push(b));
    }
    assert forall|x: int| covers(c, x) implies covers(s, x) by {
        let i = choose|i: int| 0 <= i < c.len() && (#[trigger] c[i]).0 <= x < c[i].0 + c[i].1;
        if i < c.len() - 1 || (merged && x < r.last().0 + r.last().1) {
            assert(r[i] == c[i] || (merged && r[r.len() - 1] == r.last()));
            if i < c.len() - 1 {
                assert(r[i] == c[i]);
            } else {
                assert(r[r.len() - 1].0 <= x < r[r.len() - 1].0 + r[r.len() - 1].1);
            }
            assert(covers(r, x));
            assert(covers(d, x));
            let j = choose|j: int| 0 <= j < d.len() && (#[trigger] d[j]).0 <= x < d[j].0 + d[j].1;
            assert(s[j] == d[j]);
        } else {
            assert(s[s.len() - 1].0 <= x < s[s.len() - 1].0 + s[s.len() - 1].1);
        }
    }
    assert forall|x: int| covers(s, x) implies covers(c, x) by {
        let j = choose|j: int| 0 <= j < s.len() && (#[trigger] s[j]).0 <= x < s[j].0 + s[j].1;
        if j < s.len() - 1 {
            assert(d[j] == s[j]);
            assert(covers(d, x));
            assert(covers(r, x));
            let i = choose|i: int| 0 <= i < r.len() && (#[trigger] r[i]).0 <= x < r[i].0 + r[i].1;
            if merged && i == r.len() - 1 {
                assert(c[c.len() - 1].0 <= x < c[c.len() - 1].0 + c[c.len() - 1].1);
            } else {
                assert(c[i] == r[i]);
            }
        } else {
            assert(c[c.len() - 1].0 <= x < c[c.len() - 1].0 + c[c.len() - 1].1);
        }
    }
}

/// Merging the touching blocks of a free list in address order keeps it in order with no overlap,
/// leaves no two blocks touching, and covers exactly the same addresses.
#[verifier::rlimit(50)]
pub proof fn law_coalesce_merges_all(s: Seq<(u64, u64)>, lo: int, hi: int)
    requires
        blocks_wf(s),
        blocks_within(s, lo, hi),
    ensures
        blocks_wf(coalesce(s)),
        none_touching(coalesce(s)),
        forall|x: int| covers(coalesce(s), x) <==> covers(s, x),
    decreases s.len(),
{
    lemma_coalesce_wf(s, lo, hi);
    if s.len() > 0 {
        let d = s.drop_last();
        lemma_drop_last_wf(s, lo, hi);
        law_coalesce_merges_all(d, lo, hi);
        lemma_coalesce_wf(d, lo, hi);
        lemma_coalesce_step_covers(s);
        let r = coalesce(d);
        let b = s.last();
        let c = coalesce(s);
        assert(b == s[s.len() - 1]);
        if r.len() > 0 {
            assert(d.last() == s[s.len() - 2]);
            assert(s[s.len() - 2].0 + s[s.len() - 2].1 <= b.0);
        }
        if r.len() > 0 && r.last().0 + r.last().1 == b.0 {
            assert(c == r.drop_last().push((r.last().0, (r.last().1 + b.1) as u64)));
            assert forall|i: int| 0 <= i < c.len() - 1 implies #[trigger] c[i].0 + c[i].1 < c[i + 1].0 by {
                assert(c[i] == r[i]);
                if i + 1 < c.len() - 1 {
                    assert(c[i + 1] == r[i + 1]);
                } else {
                    assert(c[i + 1].0 == r[i + 1].0);
                }
            }
        } else {
            assert(c == r.push(b));
            assert forall|i: int| 0 <= i < c.len() - 1 implies #[trigger] c[i].0 + c[i].1 < c[i + 1].0 by {
                assert(c[i] == r[i]);
                if i + 1 < c.len() - 1 {
                    assert(c[i + 1] == r[i + 1]);
                } else {
                    assert(r[r.len() - 1] == r.last());
                }
            }
        }
    } else {
        assert forall|x: int| covers(coalesce(s), x) <==> covers(s, x) by {}
    }
}

/// Putting a freed block that meets no listed block into the free list keeps the list in strictly
/// increasing address order with no overlap, and the list then holds the old blocks, each with its size,
/// and the new one.
pub proof fn law_list_add_sorted_insert(s: Seq<(u64, u64)>, addr: u64, size: u64, lo: int, hi: int)
    requires
        blocks_wf(s),
        blocks_within(s, lo, hi),
        addr % FREED_BLOCK_SIZE == 0,
        size >= FREED_BLOCK_SIZE,
        lo <= addr,
        addr + size <= hi,
        hi <= u64::MAX,
        disjoint_from_all(s, addr as int, size as int),
    ensures
        blocks_wf(list_add(s, addr, size)),
        list_add(s, addr, size).to_multiset() == s.to_multiset().insert((addr, size)),
{
    lemma_list_add_wf(s, addr, size, lo, hi);
    lemma_insert_index(s, addr);
    vstd::seq_lib::to_multiset_insert(s, insert_index(s, addr), (addr, size));
}

/// The blocks in use (`live`, as address and size) lie in `[lo, hi)`, each at a multiple of
/// [FREED_BLOCK_SIZE] and at least that long; no two of them share a byte, and none shares a byte with a
/// freed block of `s`.
pub open spec fn live_apart(live: Set<(u64, u64)>, s: Seq<(u64, u64)>, lo: int, hi: int) -> bool {
    &&& forall|b: (u64, u64)| #[trigger] live.contains(b) ==> lo <= b.0 && b.0 + b.1 <= hi && b.0 % FREED_BLOCK_SIZE == 0
        && b.1 >= FREED_BLOCK_SIZE
    &&& forall|b: (u64, u64), c: (u64, u64)| #[trigger] live.contains(b) && #[trigger] live.contains(c) && b != c
        ==> b.0 + b.1 <= c.0 || c.0 + c.1 <= b.0
    &&& forall|b: (u64, u64)| #[trigger] live.contains(b) ==> disjoint_from_all(s, b.0 as int, b.1 as int)
}

/// What a list with a block put in holds: that block, or a block of the list.
proof fn lemma_list_add_elems(s: Seq<(u64, u64)>, addr: u64, size: u64)
    ensures
        list_add(s, addr, size).len() == s.len() + 1,
        forall|j: int| 0 <= j < list_add(s, addr, size).len() ==> #[trigger] list_add(s, addr, size)[j] == (addr, size)
            || exists|m: int| 0 <= m < s.len() && list_add(s, addr, size)[j] == s[m],
{
    lemma_insert_index(s, addr);
    let k = insert_index(s, addr);
    let t = list_add(s, addr, size);
    assert forall|j: int| 0 <= j < t.len() implies #[trigger] t[j] == (addr, size) || exists|m: int| 0 <= m < s.len() && t[j] == s[m] by {
        if j < k {
            assert(t[j] == s[j]);
        } else if j > k {
            assert(t[j] == s[j - 1]);
        }
    }
}

/// What the list holds after a block is served from block `i`, at position `j`: what is left of block
/// `i`, or another block.
proof fn lemma_list_take_elem(s: Seq<(u64, u64)>, i: int, size: u64, j: int)
    requires
        0 <= i < s.len(),
        0 <= j < list_take(s, i, size).len(),
    ensures
        (list_take(s, i, size)[j] == ((s[i].0 + size) as u64, (s[i].1 - size) as u64) && s[i].1 != size) || exists|m: int|
            0 <= m < s.len() && m != i && list_take(s, i, size)[j] == s[m],
{
    let rest = s.remove(i);
    let t = list_take(s, i, size);
    if s[i].1 == size {
        if j < i {
            assert(t[j] == s[j]);
        } else {
            assert(t[j] == s[j + 1]);
        }
    } else {
        let r = ((s[i].0 + size) as u64, (s[i].1 - size) as u64);
        lemma_list_add_elems(rest, r.0, r.1);
        if t[j] != r {
            let q = choose|q: int| 0 <= q < rest.len() && t[j] == rest[q];
            if q < i {
                assert(rest[q] == s[q]);
            } else {
                assert(rest[q] == s[q + 1]);
            }
        }
    }
}

/// Serving a request of `size` bytes aligned to `align` from the first freed block that fits keeps the
/// blocks in use apart: the served block (at that freed block's address, taking [real_size] bytes) shares
/// no byte with any block in use, nor with a freed block after it.
pub proof fn law_alloc_from_list_apart(live: Set<(u64, u64)>, s: Seq<(u64, u64)>, align: u64, size: u64, lo: int, hi: int)
    requires
        blocks_wf(s),
        blocks_within(s, lo, hi),
        live_apart(live, s, lo, hi),
        real_size(size, align) <= u64::MAX,
        first_fit(s, real_align(align), real_size(size, align) as u64) is Some,
    ensures
        ({
            let rs = real_size(size, align) as u64;
            let i = first_fit(s, real_align(align), rs)->0;
            &&& !live.contains((s[i].0, rs))
            &&& live_apart(live.insert((s[i].0, rs)), list_take(s, i, rs), lo, hi)
        }),
{
    let rs = real_size(size, align) as u64;
    lemma_first_fit(s, real_align(align), rs);
    lemma_take_apart(live, s, first_fit(s, real_align(align), rs)->0, rs, lo, hi);
}

/// Serving `size` bytes from freed block `i` keeps the blocks in use apart.
proof fn lemma_take_apart(live: Set<(u64, u64)>, s: Seq<(u64, u64)>, i: int, size: u64, lo: int, hi: int)
    requires
        blocks_wf(s),
        blocks_within(s, lo, hi),
        live_apart(live, s, lo, hi),
        0 <= i < s.len(),
        size >= FREED_BLOCK_SIZE,
        s[i].1 == size || s[i].1 >= size + FREED_BLOCK_SIZE,
    ensures
        !live.contains((s[i].0, size)),
        live_apart(live.insert((s[i].0, size)), list_take(s, i, size), lo, hi),
{
    let n = (s[i].0, size);
    let t = list_take(s, i, size);
    let l2 = live.insert(n);
    if live.contains(n) {
        assert(disjoint_from_all(s, n.0 as int, n.1 as int));
        assert(s[i].0 + s[i].1 <= n.0 || n.0 + n.1 <= s[i].0);
    }
    assert forall|c: (u64, u64)| #[trigger] l2.contains(c) implies disjoint_from_all(t, c.0 as int, c.1 as int) by {
        assert forall|j: int| 0 <= j < t.len() implies (#[trigger] t[j]).0 + t[j].1 <= c.0 || c.0 + c.1 <= t[j].0 by {
            lemma_list_take_elem(s, i, size, j);
            if c == n {
                if exists|m: int| 0 <= m < s.len() && m != i && t[j] == s[m] {
                    let m = choose|m: int| 0 <= m < s.len() && m != i && t[j] == s[m];
                    if m < i {
                        assert(s[m].0 + s[m].1 <= s[i].0);
                    } else {
                        assert(s[i].0 + s[i].1 <= s[m].0);
                    }
                }
            } else {
                assert(live.contains(c));
                assert(disjoint_from_all(s, c.0 as int, c.1 as int));
                assert(s[i].0 + s[i].1 <= c.0 || c.0 + c.1 <= s[i].0);
                if exists|m: int| 0 <= m < s.len() && m != i && t[j] == s[m] {
                    let m = choose|m: int| 0 <= m < s.len() && m != i && t[j] == s[m];
                    assert(s[m].0 + s[m].1 <= c.0 || c.0 + c.1 <= s[m].0);
                }
            }
        }
    }
    assert forall|b: (u64, u64), c: (u64, u64)| #[trigger] l2.contains(b) && #[trigger] l2.contains(c) && b != c
        implies b.0 + b.1 <= c.0 || c.0 + c.1 <= b.0 by {
        if b == n {
            assert(live.contains(c));
            assert(disjoint_from_all(s, c.0 as int, c.1 as int));
            assert(s[i].0 + s[i].1 <= c.0 || c.0 + c.1 <= s[i].0);
        } else if c == n {
            assert(live.contains(b));
            assert(disjoint_from_all(s, b.0 as int, b.1 as int));
            assert(s[i].0 + s[i].1 <= b.0 || b.0 + b.1 <= s[i].0);
        }
    }
}

/// Serving a request of `size` bytes aligned to `align` at the end of the heap, which is used up to `nb`,
/// keeps the blocks in use apart: the served block (at [bump_start], taking [real_size] bytes), and the
/// padding freed before it, lie past every block in use.
pub proof fn law_alloc_at_end_apart(live: Set<(u64, u64)>, s: Seq<(u64, u64)>, nb: u64, align: u64, size: u64, lo: int)
    requires
        blocks_wf(s),
        blocks_within(s, lo, nb as int),
        live_apart(live, s, lo, nb as int),
        lo <= nb,
        nb % FREED_BLOCK_SIZE == 0,
        is_power_of_two(align),
        nb + 2 * real_align(align) + FREED_BLOCK_SIZE <= u64::MAX,
        bump_start(nb, real_align(align)) + real_size(size, align) <= u64::MAX,
    ensures
        ({
            let st = bump_start(nb, real_align(align));
            let rs = real_size(size, align) as u64;
            let t = if st != align_up_spec(nb as int, real_align(align) as int) || st != nb {
                list_add(s, nb, (st - nb) as u64)
            } else {
                s
            };
            &&& !live.contains((st as u64, rs))
            &&& live_apart(live.insert((st as u64, rs)), t, lo, st + rs)
        }),
{
    let size = real_size(size, align) as u64;
    let ra = real_align(align);
    lemma_real_align(align);
    let a = align_up_spec(nb as int, ra as int);
    lemma_align_up(nb as int, ra as int);
    let st = bump_start(nb, ra);
    if a != nb {
        lemma_align_up(a + FREED_BLOCK_SIZE, ra as int);
    }
    assert(st >= nb && (st != nb ==> st >= nb + FREED_BLOCK_SIZE));
    assert(st % FREED_BLOCK_SIZE as int == 0) by {
        vstd::arithmetic::div_mod::lemma_fundamental_div_mod(st, ra as int);
        vstd::arithmetic::div_mod::lemma_fundamental_div_mod(ra as int, 16);
        let k = st / ra as int;
        assert(st == 16 * ((ra as int / 16) * k)) by (nonlinear_arith)
            requires
                st == ra * k + st % (ra as int),
                st % (ra as int) == 0,
                ra == 16 * (ra as int / 16) + ra as int % 16,
                ra as int % 16 == 0,
        ;
        vstd::arithmetic::div_mod::lemma_mod_multiples_basic((ra as int / 16) * k, 16);
    }
    let n = (st as u64, size);
    assert((st != a || st != nb) == (st != nb));
    let t = if st != nb { list_add(s, nb, (st - nb) as u64) } else { s };
    let l2 = live.insert(n);
    if st != nb {
        lemma_list_add_elems(s, nb, (st - nb) as u64);
    }
    assert forall|c: (u64, u64)| #[trigger] l2.contains(c) implies disjoint_from_all(t, c.0 as int, c.1 as int) by {
        assert forall|j: int| 0 <= j < t.len() implies (#[trigger] t[j]).0 + t[j].1 <= c.0 || c.0 + c.1 <= t[j].0 by {
            if st != nb && t[j] != (nb, (st - nb) as u64) {
                let m = choose|m: int| 0 <= m < s.len() && t[j] == s[m];
                assert(s[m].0 + s[m].1 <= nb);
                if c != n {
                    assert(disjoint_from_all(s, c.0 as int, c.1 as int));
                    assert(s[m].0 + s[m].1 <= c.0 || c.0 + c.1 <= s[m].0);
                }
            } else if st == nb {
                assert(s[j].0 + s[j].1 <= nb);
                if c != n {
                    assert(disjoint_from_all(s, c.0 as int, c.1 as int));
                    assert(s[j].0 + s[j].1 <= c.0 || c.0 + c.1 <= s[j].0);
                }
            }
        }
    }
}

/// A list covers no address of a block exactly when it shares no byte with it, when its blocks are not empty.
proof fn lemma_uncovered_apart(t: Seq<(u64, u64)>, a: int, n: int)
    requires
        n > 0,
        forall|j: int| 0 <= j < t.len() ==> (#[trigger] t[j]).1 > 0,
        forall|x: int| a <= x < a + n ==> !#[trigger] covers(t, x),
    ensures
        disjoint_from_all(t, a, n),
{
    assert forall|j: int| 0 <= j < t.len() implies (#[trigger] t[j]).0 + t[j].1 <= a || a + n <= t[j].0 by {
        if !(t[j].0 + t[j].1 <= a || a + n <= t[j].0) {
            let x = if t[j].0 > a { t[j].0 as int } else { a };
            assert(t[j].0 <= x < t[j].0 + t[j].1);
            assert(a <= x < a + n);
            assert(covers(t, x));
            assert(false);
        }
    }
}

/// Freeing a block in use, which goes back to the list with touching freed blocks merged, keeps the
/// other blocks in use apart from the freed ones and from one another.
pub proof fn law_dealloc_apart(live: Set<(u64, u64)>, s: Seq<(u64, u64)>, b: (u64, u64), lo: int, hi: int)
    requires
        blocks_wf(s),
        blocks_within(s, lo, hi),
        hi <= u64::MAX,
        live_apart(live, s, lo, hi),
        live.contains(b),
    ensures
        live_apart(live.remove(b), coalesce(list_add(s, b.0, b.1)), lo, hi),
{
    let u = list_add(s, b.0, b.1);
    let l2 = live.remove(b);
    lemma_list_add_wf(s, b.0, b.1, lo, hi);
    law_coalesce_merges_all(u, lo, hi);
    lemma_list_add_elems(s, b.0, b.1);
    let t = coalesce(u);
    assert forall|c: (u64, u64)| #[trigger] l2.contains(c) implies disjoint_from_all(t, c.0 as int, c.1 as int) by {
        assert forall|x: int| c.0 <= x < c.0 + c.1 implies !covers(t, x) by {
            if covers(u, x) {
                let j = choose|j: int| 0 <= j < u.len() && (#[trigger] u[j]).0 <= x < u[j].0 + u[j].1;
                if u[j] == b {
                    assert(b.0 + b.1 <= c.0 || c.0 + c.1 <= b.0);
                } else {
                    let m = choose|m: int| 0 <= m < s.len() && u[j] == s[m];
                    assert(disjoint_from_all(s, c.0 as int, c.1 as int));
                    assert(s[m].0 + s[m].1 <= c.0 || c.0 + c.1 <= s[m].0);
                }
            }
        }
        lemma_uncovered_apart(t, c.0 as int, c.1 as int);
    }
}

/// Merging touching blocks keeps the list in order, apart and in its bounds.
proof fn lemma_coalesce_wf(s: Seq<(u64, u64)>, lo: int, hi: int)
    requires
        blocks_wf(s),
        blocks_within(s, lo, hi),
    ensures
        blocks_wf(coalesce(s)),
        blocks_within(coalesce(s), lo, hi),
        coalesce(s).len() > 0 ==> s.len() > 0 && coalesce(s).last().0 + coalesce(s).last().1 == s.last().0 + s.last().1,
        coalesce(s).len() > 0 ==> coalesce(s)[0].0 == s[0].0,
    decreases s.len(),
{
    if s.len() > 0 {
        let d = s.drop_last();
        assert(blocks_wf(d)) by {
            assert forall|a: int, b: int| 0 <= a < b < d.len() implies #[trigger] d[a].0 + d[a].1 <= #[trigger] d[b].0 by {
                assert(d[a] == s[a] && d[b] == s[b]);
            }
            assert forall|a: int| 0 <= a < d.len() implies (#[trigger] d[a]).0 % FREED_BLOCK_SIZE == 0 && d[a].1 >= FREED_BLOCK_SIZE
                && d[a].0 + d[a].1 <= u64::MAX by {
                assert(d[a] == s[a]);
            }
        }
        assert(blocks_within(d, lo, hi)) by {
            assert forall|a: int| 0 <= a < d.len() implies lo <= (#[trigger] d[a]).0 && d[a].0 + d[a].1 <= hi by {
                assert(d[a] == s[a]);
            }
        }
        lemma_coalesce_wf(d, lo, hi);
        let r = coalesce(d);
        let b = s.last();
        assert(b == s[s.len() - 1]);
        if r.len() > 0 {
            assert(d.last() == s[s.len() - 2]);
            assert(s[s.len() - 2].0 + s[s.len() - 2].1 <= b.0);
        }
        let c = coalesce(s);
        if r.len() > 0 && r.last().0 + r.last().1 == b.0 {
            assert forall|a: int, bb: int| 0 <= a < bb < c.len() implies #[trigger] c[a].0 + c[a].1 <= #[trigger] c[bb].0 by {
                assert(c[a] == r[a]);
                if bb < c.len() - 1 {
                    assert(c[bb] == r[bb]);
                } else {
                    assert(r[a].0 + r[a].1 <= r[r.len() - 1].0);
                }
            }
            assert forall|a: int| 0 <= a < c.len() implies (#[trigger] c[a]).0 % FREED_BLOCK_SIZE == 0 && c[a].1 >= FREED_BLOCK_SIZE
                && c[a].0 + c[a].1 <= u64::MAX by {
                if a < c.len() - 1 {
                    assert(c[a] == r[a]);
                } else {
                    assert(r[r.len() - 1].0 % FREED_BLOCK_SIZE == 0);
                }
            }
            assert forall|a: int| 0 <= a < c.len() implies lo <= (#[trigger] c[a]).0 && c[a].0 + c[a].1 <= hi by {
                if a < c.len() - 1 {
                    assert(c[a] == r[a]);
                } else {
                    assert(lo <= r[r.len() - 1].0);
                }
            }
        } else {
            assert forall|a: int, bb: int| 0 <= a < bb < c.len() implies #[trigger] c[a].0 + c[a].1 <= #[trigger] c[bb].0 by {
                assert(c[a] == r[a]);
                if bb < c.len() - 1 {
                    assert(c[bb] == r[bb]);
                } else {
                    if a < r.len() - 1 {
                        assert(r[a].0 + r[a].1 <= r[r.len() - 1].0);
                    }
                }
            }
            assert forall|a: int| 0 <= a < c.len() implies (#[trigger] c[a]).0 % FREED_BLOCK_SIZE == 0 && c[a].1 >= FREED_BLOCK_SIZE
                && c[a].0 + c[a].1 <= u64::MAX by {
                if a < c.len() - 1 {
                    assert(c[a] == r[a]);
                }
            }
            assert forall|a: int| 0 <= a < c.len() implies lo <= (#[trigger] c[a]).0 && c[a].0 + c[a].1 <= hi by {
                if a < c.len() - 1 {
                    assert(c[a] == r[a]);
                }
            }
        }
    }
}


/// Taking a block, and giving back what is left of it, keeps the list in order, apart and in its bounds.
proof fn lemma_list_take_wf(s: Seq<(u64, u64)>, i: int, size: u64, lo: int, hi: int)
    requires
        blocks_wf(s),
        blocks_within(s, lo, hi),
        0 <= i < s.len(),
        s[i].1 == size || s[i].1 >= size + FREED_BLOCK_SIZE,
        size % FREED_BLOCK_SIZE == 0,
        hi <= u64::MAX,
    ensures
        blocks_wf(list_take(s, i, size)),
        blocks_within(list_take(s, i, size), lo, hi),
        disjoint_from_all(list_take(s, i, size), s[i].0 as int, size as int),
{
    let rest = s.remove(i);
    assert(blocks_wf(rest)) by {
        assert forall|a: int, b: int| 0 <= a < b < rest.len() implies #[trigger] rest[a].0 + rest[a].1 <= #[trigger] rest[b].0 by {
            let a2 = if a < i { a } else { a + 1 };
            let b2 = if b < i { b } else { b + 1 };
            assert(rest[a] == s[a2] && rest[b] == s[b2]);
        }
        assert forall|a: int| 0 <= a < rest.len() implies (#[trigger] rest[a]).0 % FREED_BLOCK_SIZE == 0 && rest[a].1 >= FREED_BLOCK_SIZE
            && rest[a].0 + rest[a].1 <= u64::MAX by {
            let a2 = if a < i { a } else { a + 1 };
            assert(rest[a] == s[a2]);
        }
    }
    assert(blocks_within(rest, lo, hi)) by {
        assert forall|a: int| 0 <= a < rest.len() implies lo <= (#[trigger] rest[a]).0 && rest[a].0 + rest[a].1 <= hi by {
            let a2 = if a < i { a } else { a + 1 };
            assert(rest[a] == s[a2]);
        }
    }
    assert(disjoint_from_all(rest, s[i].0 as int, s[i].1 as int)) by {
        assert forall|a: int| 0 <= a < rest.len() implies (#[trigger] rest[a]).0 + rest[a].1 <= s[i].0 || s[i].0 + s[i].1 <= rest[a].0 by {
            let a2 = if a < i { a } else { a + 1 };
            assert(rest[a] == s[a2]);
        }
    }
    if s[i].1 != size {
        let na = (s[i].0 + size) as u64;
        let ns = (s[i].1 - size) as u64;
        assert(na % FREED_BLOCK_SIZE == 0) by {
            vstd::arithmetic::div_mod::lemma_add_mod_noop(s[i].0 as int, size as int, 16);
        }
        lemma_list_add_wf(rest, na, ns, lo, hi);
        lemma_insert_index(rest, na);
        let t = list_add(rest, na, ns);
        let k = insert_index(rest, na);
        assert forall|a: int| 0 <= a < t.len() implies (#[trigger] t[a]).0 + t[a].1 <= s[i].0 || s[i].0 + size <= t[a].0 by {
            if a < k {
                assert(t[a] == rest[a]);
            } else if a > k {
                assert(t[a] == rest[a - 1]);
            }
        }
    }
}


/// The alignment that a request aligned to `align` gets: at least that of a freed block.
pub open spec fn real_align(align: u64) -> u64 {
    if align > FREED_BLOCK_SIZE { align } else { FREED_BLOCK_SIZE }
}

/// The size that a request of `size` bytes aligned to `align` takes: rounded up to its real alignment,
/// and at least a freed block.
pub open spec fn real_size(size: u64, align: u64) -> int {
    let a = align_up_spec(size as int, real_align(align) as int);
    if a > FREED_BLOCK_SIZE { a } else { FREED_BLOCK_SIZE as int }
}

/// Where a new block aligned to `ra` starts when it is taken from the end of the heap at `next_block`:
/// if `next_block` is not aligned, a freed block goes first (the padding) and the start moves past it.
pub open spec fn bump_start(next_block: u64, ra: u64) -> int {
    let a = align_up_spec(next_block as int, ra as int);
    if a != next_block {
        align_up_spec(a + FREED_BLOCK_SIZE, ra as int)
    } else {
        a
    }
}


/// Rounding up to a multiple of `a` lands on a multiple, at most `a - 1` further.
proof fn lemma_align_up(x: int, a: int)
    requires
        a > 0,
        x >= 0,
    ensures
        align_up_spec(x, a) % a == 0,
        x <= align_up_spec(x, a) < x + a,
{
    vstd::arithmetic::div_mod::lemma_fundamental_div_mod(x, a);
    if x % a != 0 {
        vstd::arithmetic::div_mod::lemma_mod_multiples_basic(x / a + 1, a);
        assert(x - x % a + a == a * (x / a + 1)) by (nonlinear_arith)
            requires
                x == a * (x / a) + x % a,
        ;
    } else {
        assert(x % a == 0);
    }
}

/// The real alignment of a power of two is a multiple of it and of the freed block size.
proof fn lemma_real_align(align: u64)
    requires
        is_power_of_two(align),
    ensures
        align > 0,
        real_align(align) <= 0x8000_0000_0000_0000,
        real_align(align) % align == 0,
        real_align(align) % FREED_BLOCK_SIZE == 0,
        is_power_of_two(real_align(align)),
        real_align(align) >= FREED_BLOCK_SIZE,
{
    vstd::arithmetic::power2::lemma2_to64();
    vstd::arithmetic::power2::lemma2_to64_rest();
    let n = choose|n: nat| n < 64 && align == pow2(n);
    vstd::arithmetic::power2::lemma_pow2_pos(n);
    if n < 63 {
        vstd::arithmetic::power2::lemma_pow2_strictly_increases(n, 63);
    }
    if align > 16 {
        assert(n >= 5) by {
            if n < 5 {
                assert(pow2(n) <= 16);
            }
        }
        vstd::arithmetic::power2::lemma_pow2_adds(4, (n - 4) as nat);
        assert(align == 16 * pow2((n - 4) as nat));
        vstd::arithmetic::div_mod::lemma_mod_multiples_basic(pow2((n - 4) as nat) as int, 16);
        vstd::arithmetic::div_mod::lemma_mod_self_0(align as int);
    } else {
        assert(n <= 4) by {
            if n > 4 {
                vstd::arithmetic::power2::lemma_pow2_strictly_increases(4, n);
            }
        }
        assert(n == 0 || n == 1 || n == 2 || n == 3 || n == 4);
        assert(align == 1 || align == 2 || align == 4 || align == 8 || align == 16);
        assert(16u64 % 1 == 0 && 16u64 % 2 == 0 && 16u64 % 4 == 0 && 16u64 % 8 == 0 && 16u64 % 16 == 0);
        assert(is_power_of_two(16)) by {
            assert(16 == pow2(4));
        }
    }
}

/// Every page from the one holding `lo` to the one holding `hi` is mapped.
pub open spec fn pages_mapped(ctx: ActivePagingContext, lo: u64, hi: u64) -> bool {
    forall|q: u64| lo / FRAME_PAGE_SIZE <= q <= hi / FRAME_PAGE_SIZE ==> (#[trigger] ctx.translation(q)) is Some
}

/// Heap allocator state.
pub struct SimpleHeapAllocator {
    heap_start: VirtualAddress,
    heap_size: u64,
    next_block: VirtualAddress,
    freed_blocks: Vec<(u64, u64)>,
    max_mapped_addr: VirtualAddress,
}

impl SimpleHeapAllocator {
    /// The freed blocks, in address order.
    pub closed spec fn blocks(&self) -> Seq<(u64, u64)> {
        self.freed_blocks@
    }

    /// Puts the block at `addr`, `size` bytes long, in the list of freed blocks, keeping the address order.
    fn add_to_list(&mut self, addr: VirtualAddress, size: u64)
        requires
            size >= FREED_BLOCK_SIZE,
        ensures
            final(self).blocks() == list_add(old(self).blocks(), addr, size),
            final(self).heap_start == old(self).heap_start,
            final(self).heap_size == old(self).heap_size,
            final(self).next_block == old(self).next_block,
            final(self).max_mapped_addr == old(self).max_mapped_addr,
    {
        let ghost s = self.blocks();
        assert(s.subrange(0, s.len() as int) =~= s);
        // find the first block that starts above the new one
        let mut i: usize = 0;
        while i < self.freed_blocks.len() && self.freed_blocks[i].0 <= addr
            invariant
                i <= self.freed_blocks@.len(),
                self.freed_blocks@ == s,
                insert_index(s, addr) == i + insert_index(s.subrange(i as int, s.len() as int), addr),
            decreases self.freed_blocks@.len() - i,
        {
            assert(s.subrange(i as int, s.len() as int).drop_first() =~= s.subrange(i + 1, s.len() as int));
            i = i + 1;
        }
        proof {
            if i < s.len() {
                assert(s.subrange(i as int, s.len() as int)[0] == s[i as int]);
            }
        }
        self.freed_blocks.insert(i, (addr, size));
    }

    /// Takes the block at `addr` out of the list of freed blocks, if it is there.
    fn remove_from_list(&mut self, addr: VirtualAddress)
        requires
            old(self).blocks().len() > 0,
        ensures
            final(self).blocks() == match index_of_addr(old(self).blocks(), addr) {
                Some(i) => old(self).blocks().remove(i),
                None => old(self).blocks(),
            },
            final(self).heap_start == old(self).heap_start,
            final(self).heap_size == old(self).heap_size,
            final(self).next_block == old(self).next_block,
            final(self).max_mapped_addr == old(self).max_mapped_addr,
    {
        let ghost s = self.blocks();
        assert(s.subrange(0, s.len() as int) =~= s);
        let mut i: usize = 0;
        while i < self.freed_blocks.len()
            invariant
                i <= self.freed_blocks@.len(),
                self.freed_blocks@ == s,
                s == old(self).blocks(),
                self.heap_start == old(self).heap_start,
                self.heap_size == old(self).heap_size,
                self.next_block == old(self).next_block,
                self.max_mapped_addr == old(self).max_mapped_addr,
                index_of_addr(s, addr) == (match index_of_addr(s.subrange(i as int, s.len() as int), addr) {
                    Some(k) => Some(k + i),
                    None => None::<int>,
                }),
            decreases self.freed_blocks@.len() - i,
        {
            assert(s.subrange(i as int, s.len() as int)[0] == s[i as int]);
            assert(s.subrange(i as int, s.len() as int).drop_first() =~= s.subrange(i + 1, s.len() as int));
            if self.freed_blocks[i].0 == addr {
                self.freed_blocks.remove(i);
                return;
            }
            assert(s.subrange(i as int, s.len() as int).drop_first() =~= s.subrange(i + 1, s.len() as int));
            i = i + 1;
        }
    }

    /// Takes out the first freed block that starts aligned to `real_align` and is `real_size` bytes, or
    /// big enough to leave a freed block behind, which goes back to the list. Gives its address.
    fn get_from_list(&mut self, real_align: u64, real_size: u64) -> (r: Option<u64>)
        requires
            real_align >= FREED_BLOCK_ALIGN,
            real_size >= FREED_BLOCK_SIZE,
            blocks_wf(old(self).blocks()),
        ensures
            final(self).heap_start == old(self).heap_start,
            final(self).heap_size == old(self).heap_size,
            final(self).next_block == old(self).next_block,
            final(self).max_mapped_addr == old(self).max_mapped_addr,
            match first_fit(old(self).blocks(), real_align, real_size) {
                None => r is None && final(self).blocks() == old(self).blocks(),
                Some(i) => r == Some(old(self).blocks()[i].0) && final(self).blocks() == list_take(old(self).blocks(), i, real_size),
            },
    {
        let ghost s = self.blocks();
        proof {
            lemma_first_fit(s, real_align, real_size);
        }
        // loop all the blocks to find the first that matches the requirements
        let mut i: usize = 0;
        while i < self.freed_blocks.len()
            invariant
                i <= self.freed_blocks@.len(),
                self.freed_blocks@ == s,
                s == old(self).blocks(),
                blocks_wf(s),
                real_align >= FREED_BLOCK_ALIGN,
                real_size >= FREED_BLOCK_SIZE,
                forall|j: int| 0 <= j < i ==> !block_fits(#[trigger] s[j], real_align, real_size),
                first_fit(s, real_align, real_size) matches Some(k) ==> 0 <= k < s.len() && block_fits(s[k], real_align, real_size)
                    && forall|j: int| 0 <= j < k ==> !block_fits(#[trigger] s[j], real_align, real_size),
                first_fit(s, real_align, real_size) is None ==> forall|j: int| 0 <= j < s.len() ==> !block_fits(#[trigger] s[j], real_align, real_size),
                self.heap_start == old(self).heap_start,
                self.heap_size == old(self).heap_size,
                self.next_block == old(self).next_block,
                self.max_mapped_addr == old(self).max_mapped_addr,
            decreases self.freed_blocks@.len() - i,
        {
            let (addr, size) = self.freed_blocks[i];
            // the block must have matching alignment
            if addr % real_align == 0 {
                // ideal case
                if size == real_size {
                    proof {
                        assert(first_fit(s, real_align, real_size) == Some(i as int));
                        lemma_index_of_addr(s, i as int);
                    }
                    self.remove_from_list(addr);
                    return Some(addr);
                }
                // if the sizes do not match, it must have enough space to fit a new FreedBlock
                if size > real_size && size - real_size >= FREED_BLOCK_SIZE {
                    proof {
                        assert(first_fit(s, real_align, real_size) == Some(i as int));
                        lemma_index_of_addr(s, i as int);
                        assert(addr + size <= u64::MAX);
                    }
                    self.remove_from_list(addr);
                    let free_block_addr = addr + real_size;
                    let free_block_size = size - real_size;
                    self.add_to_list(free_block_addr, free_block_size);
                    return Some(addr);
                }
            }
            i = i + 1;
        }
        // no matching blocks
        None
    }

    /// Merges every run of touching freed blocks into one block.
    fn unify_list(&mut self)
        requires
            blocks_wf(old(self).blocks()),
        ensures
            final(self).blocks() == coalesce(old(self).blocks()),
            final(self).heap_start == old(self).heap_start,
            final(self).heap_size == old(self).heap_size,
            final(self).next_block == old(self).next_block,
            final(self).max_mapped_addr == old(self).max_mapped_addr,
    {
        let ghost s = self.blocks();
        let mut out: Vec<(u64, u64)> = Vec::new();
        let mut i: usize = 0;
        while i < self.freed_blocks.len()
            invariant
                i <= self.freed_blocks@.len(),
                self.freed_blocks@ == s,
                blocks_wf(s),
                out@ == coalesce(s.take(i as int)),
                out@.len() > 0 ==> out@.last().0 + out@.last().1 <= u64::MAX,
                out@.len() > 0 ==> i > 0 && out@.last().0 + out@.last().1 == s[i - 1].0 + s[i - 1].1,
            decreases self.freed_blocks@.len() - i,
        {
            let b = self.freed_blocks[i];
            assert(s.take(i + 1).drop_last() =~= s.take(i as int));
            assert(s.take(i + 1).last() == b);
            let n = out.len();
            if n > 0 && out[n - 1].0 + out[n - 1].1 == b.0 {
                let last = out[n - 1];
                proof {
                    assert(s[i as int].0 + s[i as int].1 <= u64::MAX);
                }
                out.set(n - 1, (last.0, last.1 + b.1));
            } else {
                proof {
                    if i > 0 {
                        assert(s[i - 1].0 + s[i - 1].1 <= s[i as int].0);
                    }
                }
                out.push(b);
            }
            i = i + 1;
        }
        assert(s.take(s.len() as int) =~= s);
        self.freed_blocks = out;
    }

    /// Where the heap starts.
    pub closed spec fn heap_start_v(&self) -> u64 {
        self.heap_start
    }

    /// How many bytes the heap has.
    pub closed spec fn heap_size_v(&self) -> u64 {
        self.heap_size
    }

    /// Where the untouched end of the heap starts.
    pub closed spec fn next_block_v(&self) -> u64 {
        self.next_block
    }

    /// The last byte of the heap that is mapped.
    pub closed spec fn max_mapped_v(&self) -> u64 {
        self.max_mapped_addr
    }

    /// The freed blocks are in order, apart and in the used part of the heap, which lies in the higher half.
    pub closed spec fn wf(&self) -> bool {
        &&& blocks_wf(self.blocks())
        &&& blocks_within(self.blocks(), self.heap_start as int, self.next_block as int)
        &&& self.heap_start <= self.next_block <= self.heap_start + self.heap_size
        &&& self.heap_start + self.heap_size <= HH_END + 1
        &&& self.next_block % FREED_BLOCK_SIZE == 0
        &&& self.heap_size > 0 ==> (self.max_mapped_addr + 1) % FRAME_PAGE_SIZE as int == 0 && self.heap_start <= self.max_mapped_addr
            && self.max_mapped_addr <= HH_END + FRAME_PAGE_SIZE && self.next_block <= self.max_mapped_addr + 1
    }

    /// A request of `size` bytes aligned to `align` can be served without running out of heap: a freed
    /// block fits it, or it fits at the untouched end of the heap (see [SimpleHeapAllocator::allocate]).
    pub fn can_allocate(&self, size: u64, align: u64) -> (r: bool)
        requires
            self.wf(),
            is_power_of_two(align),
            align_up_spec(size as int, align as int) <= i64::MAX,
        ensures
            r == (first_fit(self.blocks(), real_align(align), real_size(size, align) as u64) is Some || {
                &&& self.next_block_v() + 2 * real_align(align) + FREED_BLOCK_SIZE <= u64::MAX
                &&& bump_start(self.next_block_v(), real_align(align)) + real_size(size, align) <= self.heap_start_v()
                    + self.heap_size_v()
            }),
    {
        proof {
            lemma_real_align(align);
        }
        let ra: u64 = if FREED_BLOCK_SIZE > align { FREED_BLOCK_SIZE } else { align };
        assert(ra == real_align(align));
        proof {
            lemma_align_up(size as int, ra as int);
            lemma_align_up(size as int, align as int);
        }
        let aligned_size = size.align_up(ra);
        let rs: u64 = if aligned_size > FREED_BLOCK_SIZE { aligned_size } else { FREED_BLOCK_SIZE };
        assert(rs == real_size(size, align));
        let ghost s = self.blocks();
        proof {
            lemma_first_fit(s, ra, rs);
        }
        let mut i: usize = 0;
        while i < self.freed_blocks.len()
            invariant
                i <= s.len(),
                self.freed_blocks@ == s,
                s == self.blocks(),
                ra >= FREED_BLOCK_SIZE,
                ra == real_align(align),
                rs == real_size(size, align),
                forall|j: int| 0 <= j < i ==> !block_fits(#[trigger] s[j], ra, rs),
                first_fit(s, ra, rs) is None ==> forall|j: int| 0 <= j < s.len() ==> !block_fits(#[trigger] s[j], ra, rs),
            decreases s.len() - i,
        {
            let (addr, bsize) = self.freed_blocks[i];
            if addr % ra == 0 && (bsize == rs || (bsize > rs && bsize - rs >= FREED_BLOCK_SIZE)) {
                assert(block_fits(s[i as int], ra, rs));
                return true;
            }
            i = i + 1;
        }
        if self.next_block as u128 + 2 * ra as u128 + FREED_BLOCK_SIZE as u128 > u64::MAX as u128 {
            return false;
        }
        proof {
            lemma_align_up(self.next_block as int, ra as int);
        }
        let a = self.next_block.align_up(ra);
        let st: u64 = if a != self.next_block {
            proof {
                lemma_align_up(a + FREED_BLOCK_SIZE, ra as int);
            }
            (a + FREED_BLOCK_SIZE).align_up(ra)
        } else {
            a
        };
        st as u128 + rs as u128 <= self.heap_start as u128 + self.heap_size as u128
    }

    /// The freed blocks, as (address, size) pairs in address order.
    pub fn freed_blocks(&self) -> (r: &[(u64, u64)])
        ensures
            r@ == self.blocks(),
    {
        self.freed_blocks.as_slice()
    }

    /// A heap with no memory, to be initialized.
    pub fn new() -> (r: Self)
        ensures
            r.wf(),
            r.blocks() == Seq::<(u64, u64)>::empty(),
            r.heap_size_v() == 0,
    {
        SimpleHeapAllocator { heap_start: 0, heap_size: 0, next_block: 0, freed_blocks: Vec::new(), max_mapped_addr: 0 }
    }

    /// Allocates `size` bytes aligned to `align` (a layout): from the first freed block that fits, else
    /// from the untouched end of the heap, mapping the pages that the new block reaches into `ctx` with
    /// frames of `fa`. Fails only when such a mapping does.
    #[verifier::rlimit(40)]
    pub fn allocate<A: FrameAllocator>(&mut self, size: u64, align: u64, ctx: &mut ActivePagingContext, fa: &mut A) -> (r: Result<
        VirtualAddress,
        MemoryError,
    >)
        requires
            old(self).wf(),
            is_power_of_two(align),
            align_up_spec(size as int, align as int) <= i64::MAX,
            old(ctx).wf(),
            old(fa).ready(),
            first_fit(old(self).blocks(), real_align(align), real_size(size, align) as u64) is None ==> {
                &&& old(self).next_block_v() + 2 * real_align(align) + FREED_BLOCK_SIZE <= u64::MAX
                &&& bump_start(old(self).next_block_v(), real_align(align)) + real_size(size, align) <= old(self).heap_start_v()
                    + old(self).heap_size_v()
            },
            old(self).heap_size_v() > 0 ==> pages_mapped(*old(ctx), old(self).heap_start_v(), old(self).max_mapped_v()),
        ensures
            final(self).wf(),
            final(self).heap_start_v() == old(self).heap_start_v(),
            final(self).heap_size_v() == old(self).heap_size_v(),
            final(ctx).wf(),
            final(fa).ready(),
            match first_fit(old(self).blocks(), real_align(align), real_size(size, align) as u64) {
                Some(i) => {
                    &&& r == Ok::<u64, MemoryError>(old(self).blocks()[i].0)
                    &&& final(self).blocks() == list_take(old(self).blocks(), i, real_size(size, align) as u64)
                    &&& final(self).next_block_v() == old(self).next_block_v()
                },
                None => r is Ok ==> {
                    let st = bump_start(old(self).next_block_v(), real_align(align));
                    &&& r == Ok::<u64, MemoryError>(st as u64)
                    &&& final(self).next_block_v() == st + real_size(size, align)
                    &&& final(self).blocks() == if st != align_up_spec(old(self).next_block_v() as int, real_align(align) as int)
                        || st != old(self).next_block_v() {
                        list_add(old(self).blocks(), old(self).next_block_v(), (st - old(self).next_block_v()) as u64)
                    } else {
                        old(self).blocks()
                    }
                },
            },
            r matches Ok(a) ==> {
                &&& a % align == 0
                &&& old(self).heap_start_v() <= a
                &&& a + real_size(size, align) <= old(self).heap_start_v() + old(self).heap_size_v()
                &&& disjoint_from_all(final(self).blocks(), a as int, real_size(size, align))
                &&& pages_mapped(*final(ctx), final(self).heap_start_v(), final(self).max_mapped_v())
                &&& a + real_size(size, align) <= final(self).max_mapped_v() + 1
            },
            r is Err ==> r == Err::<u64, MemoryError>(MemoryError::NotEnoughPhyMemory) || r == Err::<u64, MemoryError>(
                MemoryError::MappingUsedTableEntry,
            ) || r == Err::<u64, MemoryError>(MemoryError::PageInvalidVirtualAddress),
            bump_start(old(self).next_block_v(), real_align(align)) + real_size(size, align) <= old(self).max_mapped_v() ==> r is Ok,
            ({
                let ne = bump_start(old(self).next_block_v(), real_align(align)) + real_size(size, align);
                let lo = (old(self).max_mapped_v() + 1) / FRAME_PAGE_SIZE as int;
                let hi = (align_up_spec(ne + 1, FRAME_PAGE_SIZE as int) - 1) / FRAME_PAGE_SIZE as int;
                first_fit(old(self).blocks(), real_align(align), real_size(size, align) as u64) is None && pages_free(*old(ctx), lo, hi)
                    && old(fa).can_hand_out((4 * (hi + 1 - lo)) as nat) ==> r is Ok
            }),
    {
        proof {
            lemma_real_align(align);
            lemma_frame_page_size_power_of_two();
        }
        let ra: u64 = if FREED_BLOCK_SIZE > align { FREED_BLOCK_SIZE } else { align };
        assert(ra == real_align(align));
        proof {
            lemma_align_up(size as int, ra as int);
            lemma_align_up(size as int, align as int);
        }
        let aligned_size = size.align_up(ra);
        let rs: u64 = if aligned_size > FREED_BLOCK_SIZE { aligned_size } else { FREED_BLOCK_SIZE };
        assert(rs == real_size(size, align));
        assert(rs % FREED_BLOCK_SIZE == 0) by {
            if aligned_size > FREED_BLOCK_SIZE {
                let k = aligned_size as int / ra as int;
                vstd::arithmetic::div_mod::lemma_fundamental_div_mod(aligned_size as int, ra as int);
                vstd::arithmetic::div_mod::lemma_fundamental_div_mod(ra as int, 16);
                assert(aligned_size == ra * k);
                assert(aligned_size == 16 * ((ra as int / 16) * k)) by (nonlinear_arith)
                    requires
                        aligned_size == ra * k,
                        ra == 16 * (ra as int / 16),
                ;
                vstd::arithmetic::div_mod::lemma_mod_multiples_basic((ra as int / 16) * k, 16);
            }
        }

        // try to find a free block first
        let ghost s = self.blocks();
        proof {
            lemma_first_fit(s, ra, rs);
        }
        match self.get_from_list(ra, rs) {
            Some(addr) => {
                proof {
                    let i = first_fit(s, ra, rs)->0;
                    lemma_list_take_wf(s, i, rs, self.heap_start as int, self.next_block as int);
                    assert(addr % align == 0) by {
                        vstd::arithmetic::div_mod::lemma_fundamental_div_mod(addr as int, ra as int);
                        vstd::arithmetic::div_mod::lemma_fundamental_div_mod(ra as int, align as int);
                        let k = addr as int / ra as int;
                        assert(addr == align * ((ra as int / align as int) * k)) by (nonlinear_arith)
                            requires
                                addr == ra * k,
                                ra == align * (ra as int / align as int),
                        ;
                        vstd::arithmetic::div_mod::lemma_mod_multiples_basic((ra as int / align as int) * k, align as int);
                    }
                    if self.heap_size > 0 {
                        assert(s[i].0 + s[i].1 <= self.next_block);
                    }
                }
                return Ok(addr);
            },
            None => {},
        }

        let mut freed_block_needed = false;
        let freed_block_addr = self.next_block;
        proof {
            lemma_align_up(self.next_block as int, ra as int);
        }
        let mut alloc_start = self.next_block.align_up(ra);
        let ghost a0 = alloc_start;
        // check if we need padding
        if alloc_start != self.next_block {
            // we need to make space for the FreedBlock and realign the start (the space used for padding will be a new FreedBlock)
            freed_block_needed = true;
            alloc_start = alloc_start + FREED_BLOCK_SIZE;
            proof {
                lemma_align_up(alloc_start as int, ra as int);
            }
            alloc_start = alloc_start.align_up(ra);
        }
        assert(alloc_start == bump_start(self.next_block, ra));
        let new_next_block = alloc_start + rs;
        proof {
            assert(alloc_start % 16 == 0) by {
                vstd::arithmetic::div_mod::lemma_fundamental_div_mod(alloc_start as int, ra as int);
                vstd::arithmetic::div_mod::lemma_fundamental_div_mod(ra as int, 16);
                let k = alloc_start as int / ra as int;
                assert(alloc_start == 16 * ((ra as int / 16) * k)) by (nonlinear_arith)
                    requires
                        alloc_start == ra * k,
                        ra == 16 * (ra as int / 16),
                ;
                vstd::arithmetic::div_mod::lemma_mod_multiples_basic((ra as int / 16) * k, 16);
            }
            vstd::arithmetic::div_mod::lemma_add_mod_noop(alloc_start as int, rs as int, 16);
            assert(alloc_start % align == 0) by {
                vstd::arithmetic::div_mod::lemma_fundamental_div_mod(alloc_start as int, ra as int);
                vstd::arithmetic::div_mod::lemma_fundamental_div_mod(ra as int, align as int);
                let k = alloc_start as int / ra as int;
                assert(alloc_start == align * ((ra as int / align as int) * k)) by (nonlinear_arith)
                    requires
                        alloc_start == ra * k,
                        ra == align * (ra as int / align as int),
                ;
                vstd::arithmetic::div_mod::lemma_mod_multiples_basic((ra as int / align as int) * k, align as int);
            }
        }

        // check if we need to allocate and map more frames to hold the new heap allocated data
        if new_next_block > self.max_mapped_addr {
            proof {
                assert(self.heap_size > 0);
                let m = self.max_mapped_addr as int;
                assert(align_up_spec(m, 4096) == m + 1) by {
                    assert((m + 1) % 4096 == 0);
                    assert(m % 4096 == 4095) by {
                        vstd::arithmetic::div_mod::lemma_fundamental_div_mod(m + 1, 4096);
                        vstd::arithmetic::div_mod::lemma_fundamental_div_mod(m, 4096);
                    }
                }
            }
            let start_addr = self.max_mapped_addr.align_up(FRAME_PAGE_SIZE);
            proof {
                lemma_align_up((new_next_block + 1) as int, 4096);
                lemma_align_up(self.max_mapped_addr as int, 4096);
            }
            let end_addr = (new_next_block + 1).align_up(FRAME_PAGE_SIZE) - 1;
            let flags = EntryFlags::from_bits_truncate(EntryFlags::PRESENT | EntryFlags::WRITABLE | EntryFlags::NO_EXECUTE);
            let mut addr = start_addr;
            let ghost ok = first_fit(old(self).blocks(), real_align(align), real_size(size, align) as u64) is None && pages_free(
                *old(ctx),
                start_addr as int / FRAME_PAGE_SIZE as int,
                end_addr as int / FRAME_PAGE_SIZE as int,
            ) && old(fa).can_hand_out((4 * ((end_addr + 1 - start_addr) / FRAME_PAGE_SIZE as int)) as nat);
            proof {
                assert(start_addr == self.max_mapped_addr + 1);
                assert(end_addr / 4096 == (end_addr + 1) / 4096 - 1) by {
                    vstd::arithmetic::div_mod::lemma_fundamental_div_mod(end_addr as int + 1, 4096);
                    vstd::arithmetic::div_mod::lemma_fundamental_div_mod(end_addr as int, 4096);
                }
                assert((end_addr + 1 - start_addr) / 4096 == (end_addr + 1) / 4096 - start_addr / 4096) by {
                    vstd::arithmetic::div_mod::lemma_fundamental_div_mod(end_addr as int + 1, 4096);
                    vstd::arithmetic::div_mod::lemma_fundamental_div_mod(start_addr as int, 4096);
                    vstd::arithmetic::div_mod::lemma_div_multiples_vanish_fancy(
                        (end_addr as int + 1) / 4096 - start_addr as int / 4096, 0, 4096);
                }
            }
            while addr <= end_addr
                invariant
                    ok == (first_fit(old(self).blocks(), real_align(align), real_size(size, align) as u64) is None && pages_free(
                        *old(ctx),
                        start_addr as int / FRAME_PAGE_SIZE as int,
                        end_addr as int / FRAME_PAGE_SIZE as int,
                    ) && old(fa).can_hand_out((4 * ((end_addr + 1 - start_addr) / FRAME_PAGE_SIZE as int)) as nat)),
                    start_addr == old(self).max_mapped_addr + 1,
                    end_addr == align_up_spec(new_next_block + 1, FRAME_PAGE_SIZE as int) - 1,
                    (end_addr + 1 - start_addr) / 4096 == (end_addr as int / 4096) + 1 - start_addr as int / 4096,
                    ok ==> pages_free(*ctx, addr as int / FRAME_PAGE_SIZE as int, end_addr as int / FRAME_PAGE_SIZE as int),
                    ok ==> fa.can_hand_out((4 * ((end_addr + 1 - addr) / FRAME_PAGE_SIZE as int)) as nat),
                    ctx.wf(),
                    fa.ready(),
                    self.wf(),
                    self.heap_start == old(self).heap_start,
                    self.heap_size == old(self).heap_size,
                    self.next_block == old(self).next_block,
                    self.max_mapped_addr == old(self).max_mapped_addr,
                    self.blocks() == old(self).blocks(),
                    first_fit(old(self).blocks(), real_align(align), real_size(size, align) as u64) is None,
                    addr % FRAME_PAGE_SIZE == 0,
                    start_addr <= addr <= end_addr + 1,
                    end_addr <= HH_END + FRAME_PAGE_SIZE,
                    (end_addr + 1) % FRAME_PAGE_SIZE as int == 0,
                    self.heap_start <= start_addr,
                    self.heap_size > 0,
                    pages_mapped(*ctx, self.heap_start, (addr - 1) as u64),
                    new_next_block > self.max_mapped_addr,
                    new_next_block == bump_start(old(self).next_block_v(), real_align(align)) + real_size(size, align),
                decreases end_addr + 1 - addr,
            {
                let ghost c1 = *ctx;
                let ghost rem = (end_addr + 1 - addr) / FRAME_PAGE_SIZE as int;
                proof {
                    assert(rem >= 1 && (end_addr + 1 - (addr + 4096)) / 4096 == rem - 1) by {
                        vstd::arithmetic::div_mod::lemma_fundamental_div_mod(end_addr as int + 1 - addr, 4096);
                        vstd::arithmetic::div_mod::lemma_div_multiples_vanish_fancy(rem - 1, 0, 4096);
                        vstd::arithmetic::div_mod::lemma_mod_multiples_vanish(rem, 0, 4096);
                    }
                    if ok {
                        let q = addr / FRAME_PAGE_SIZE;
                        assert(q * 4096 == addr) by {
                            vstd::arithmetic::div_mod::lemma_fundamental_div_mod(addr as int, 4096);
                        }
                        assert(ctx.translation(q) is None && is_canonical((q * FRAME_PAGE_SIZE) as u64));
                        lemma_can_hand_out_le(&*fa, (4 * rem) as nat, 4);
                    }
                }
                let res = ctx.map(addr, flags, fa);
                match res {
                    Err(e) => {
                        proof {
                            assert(!ok);
                        }
                        return Err(e);
                    },
                    Ok(()) => {},
                }
                proof {
                    if ok {
                        assert(fa.can_hand_out((4 * (rem - 1)) as nat)) by {
                            assert((4 * (rem - 1)) as nat + 4 == (4 * rem) as nat);
                        }
                        assert forall|q: u64| (addr + 4096) / FRAME_PAGE_SIZE as int <= q <= end_addr as int / FRAME_PAGE_SIZE as int implies #[trigger] ctx.translation(q)
                            is None && is_canonical((q * FRAME_PAGE_SIZE) as u64) by {
                            assert(c1.translation(q) is None);
                            lemma_near_pages_keys(addr / FRAME_PAGE_SIZE, q);
                        }
                    }
                }
                proof {
                    assert forall|q: u64| self.heap_start / FRAME_PAGE_SIZE <= q <= addr / FRAME_PAGE_SIZE implies (#[trigger] ctx.translation(q)) is Some by {
                        if q < addr / FRAME_PAGE_SIZE {
                            assert(c1.translation(q) is Some);
                            crate::memory::lemma_map_keeps(c1, c1, *ctx, addr / FRAME_PAGE_SIZE);
                        }
                    }
                }
                addr = addr + FRAME_PAGE_SIZE;
            }
            self.max_mapped_addr = end_addr;
        }
        self.next_block = new_next_block;

        proof {
            assert forall|i: int| 0 <= i < s.len() implies (#[trigger] s[i]).0 + s[i].1 <= alloc_start as int || alloc_start + rs <= s[i].0 by {
                assert(s[i].0 + s[i].1 <= freed_block_addr);
            }
        }
        if freed_block_needed {
            // add the FreedBlock to the linked list
            proof {
                assert(alloc_start >= a0 + FREED_BLOCK_SIZE);
                lemma_list_add_wf(s, freed_block_addr, (alloc_start - freed_block_addr) as u64, self.heap_start as int, self.next_block as int);
                lemma_insert_index(s, freed_block_addr);
            }
            self.add_to_list(freed_block_addr, alloc_start - freed_block_addr);
            proof {
                let t = self.blocks();
                let k = insert_index(s, freed_block_addr);
                assert forall|i: int| 0 <= i < t.len() implies (#[trigger] t[i]).0 + t[i].1 <= alloc_start as int || alloc_start + rs <= t[i].0 by {
                    if i < k {
                        assert(t[i] == s[i]);
                    } else if i > k {
                        assert(t[i] == s[i - 1]);
                    }
                }
            }
        }
        Ok(alloc_start)
    }

    /// Frees the block at `ptr` that an allocation of `size` bytes aligned to `align` returned: it goes
    /// back to the list of freed blocks, and touching freed blocks are merged.
    pub fn deallocate(&mut self, ptr: VirtualAddress, size: u64, align: u64)
        requires
            old(self).wf(),
            is_power_of_two(align),
            align_up_spec(size as int, align as int) <= i64::MAX,
            ptr % FREED_BLOCK_SIZE == 0,
            ptr % align == 0,
            old(self).heap_start_v() <= ptr,
            ptr + real_size(size, align) <= old(self).next_block_v(),
            disjoint_from_all(old(self).blocks(), ptr as int, real_size(size, align)),
        ensures
            final(self).wf(),
            final(self).blocks() == coalesce(list_add(old(self).blocks(), ptr, real_size(size, align) as u64)),
            final(self).heap_start_v() == old(self).heap_start_v(),
            final(self).heap_size_v() == old(self).heap_size_v(),
            final(self).next_block_v() == old(self).next_block_v(),
            final(self).max_mapped_v() == old(self).max_mapped_v(),
    {
        proof {
            lemma_real_align(align);
        }
        let ra: u64 = if FREED_BLOCK_SIZE > align { FREED_BLOCK_SIZE } else { align };
        assert(ra == real_align(align));
        proof {
            lemma_align_up(size as int, ra as int);
            lemma_align_up(size as int, align as int);
        }
        let aligned_size = size.align_up(ra);
        let rs: u64 = if aligned_size > FREED_BLOCK_SIZE { aligned_size } else { FREED_BLOCK_SIZE };
        assert(rs == real_size(size, align));
        proof {
            lemma_list_add_wf(self.blocks(), ptr, rs, self.heap_start as int, self.next_block as int);
        }
        self.add_to_list(ptr, rs);
        proof {
            lemma_coalesce_wf(self.blocks(), self.heap_start as int, self.next_block as int);
        }
        self.unify_list();
    }

    /// Initializes the heap with `heap_page_size` pages from `pa`; the first of them is mapped into `ctx`
    /// with a frame of `fa`, the others are mapped when allocations reach them.
    pub fn init<A: FrameAllocator>(
        &mut self,
        heap_page_size: usize,
        pa: &mut BitmapPageAllocator,
        ctx: &mut ActivePagingContext,
        fa: &mut A,
    ) -> (r: Result<(), MemoryError>)
        requires
            heap_page_size > 0,
            old(self).blocks().len() == 0,
            old(pa).wf(),
            old(pa).is_initialized(),
            !old(pa).block_at_missing_bitmap_end(heap_page_size as int),
            old(ctx).wf(),
            old(fa).ready(),
        ensures
            final(pa).wf(),
            final(ctx).wf(),
            final(fa).ready(),
            r is Ok ==> {
                &&& final(self).wf()
                &&& final(self).blocks().len() == 0
                &&& final(self).heap_size_v() == heap_page_size * FRAME_PAGE_SIZE
                &&& final(self).next_block_v() == final(self).heap_start_v()
                &&& final(self).max_mapped_v() == final(self).heap_start_v() + FRAME_PAGE_SIZE - 1
                &&& is_first_fit(old(pa)@, old(pa).search_from(), heap_page_size as int,
                    final(self).heap_start_v() as int / FRAME_PAGE_SIZE as int - HH_START as int / FRAME_PAGE_SIZE as int)
                &&& pages_mapped(*final(ctx), final(self).heap_start_v(), final(self).max_mapped_v())
            },
            r is Err ==> r == Err::<(), MemoryError>(MemoryError::NotEnoughVirMemory) || r == Err::<(), MemoryError>(
                MemoryError::NotEnoughPhyMemory,
            ) || r == Err::<(), MemoryError>(MemoryError::MappingUsedTableEntry) || r == Err::<(), MemoryError>(
                MemoryError::PageInvalidVirtualAddress,
            ),
            (r == Err::<(), MemoryError>(MemoryError::NotEnoughVirMemory)) <==> !fits_somewhere(old(pa)@, old(pa).search_from(),
                heap_page_size as int),
            fits_somewhere(old(pa)@, old(pa).search_from(), heap_page_size as int) && (forall|s: int|
                is_first_fit(old(pa)@, old(pa).search_from(), heap_page_size as int, s) ==> #[trigger] old(ctx).translation(
                    (HH_START as int / FRAME_PAGE_SIZE as int + s) as u64,
                ) is None) && old(fa).can_hand_out(4) ==> r is Ok,
    {
        let page = pa.allocate_contiguous(heap_page_size)?;
        let heap_start = page.addr();
        proof {
            let s = page@ - HH_START as int / FRAME_PAGE_SIZE as int;
            assert(window_free(old(pa)@, s, heap_page_size as int));
            assert(HH_START as int / 4096 == 0xFFFF_8000_0000_0);
            assert(heap_start == page@ * 4096);
            assert(heap_start + heap_page_size * 4096 <= HH_END + 1) by (nonlinear_arith)
                requires
                    heap_start == page@ * 4096,
                    page@ == s + 0xFFFF_8000_0000_0,
                    s + heap_page_size <= 261120 * 131072,
                    s >= 0,
            ;
            assert(heap_start % 4096 == 0) by {
                vstd::arithmetic::div_mod::lemma_mod_multiples_basic(page@ as int, 4096);
            }
            assert(heap_start / 4096 == page@) by {
                vstd::arithmetic::div_mod::lemma_div_multiples_vanish_fancy(page@ as int, 0, 4096);
            }
        }
        self.heap_start = heap_start;
        self.heap_size = heap_page_size as u64 * FRAME_PAGE_SIZE;
        self.next_block = heap_start;
        // we are going to lazily allocate the required frames (for now we allocate just the first one)
        self.max_mapped_addr = heap_start + FRAME_PAGE_SIZE - 1;
        let flags = EntryFlags::from_bits_truncate(EntryFlags::PRESENT | EntryFlags::WRITABLE | EntryFlags::NO_EXECUTE);
        proof {
            let s0 = page@ - HH_START as int / FRAME_PAGE_SIZE as int;
            assert(is_first_fit(old(pa)@, old(pa).search_from(), heap_page_size as int, s0));
            assert((HH_START as int / FRAME_PAGE_SIZE as int + s0) as u64 == heap_start / FRAME_PAGE_SIZE);
            assert(*ctx == *old(ctx));
        }
        let res = ctx.map(heap_start, flags, fa);
        proof {
            if res is Ok {
                assert forall|q: u64| heap_start / FRAME_PAGE_SIZE <= q <= (heap_start + FRAME_PAGE_SIZE - 1) as u64 / FRAME_PAGE_SIZE
                    implies (#[trigger] ctx.translation(q)) is Some by {
                    assert((heap_start + 4095) as u64 / 4096 == heap_start / 4096) by {
                        vstd::arithmetic::div_mod::lemma_div_multiples_vanish_fancy(page@ as int, 4095, 4096);
                        vstd::arithmetic::div_mod::lemma_div_multiples_vanish_fancy(page@ as int, 0, 4096);
                    }
                    assert(q == heap_start / FRAME_PAGE_SIZE);
                }
            }
        }
        res
    }
}

} // verus!
