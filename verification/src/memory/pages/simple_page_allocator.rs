//! The permanent page allocator: a two level bitmap over the higher half of the address space.
//
// This page allocator manages the entire higher half of the 48 bit address space, 2 ** 48 // 2 bytes.
//
// But, we don't actually need to manage all this memory, because the page tables are recursive meaning that
// the last P4 entry is mapped to the P4 page table itself. This removes 512GB of memory from the total,
// at the top of the address space so, now we "only" need to map 2 ** 48 // 2 - 2 ** 30 * 512.
// This is 140187732541440 bytes or 34225520640 4KB pages.
// So, we need 34225520640 bits and when using 16KB bitmaps, we get 34225520640 // (4096 * 8 * 4) bitmaps (261120)
// with 4096 * 8 bits per 4KB, and we want 4 4KBs.
use vstd::prelude::*;
use crate::data_structures::bitmap::Bitmap;
use crate::memory::{AddrOps, MemoryError, VirtualAddress, FRAME_PAGE_SIZE, align_up_spec, is_power_of_two, lemma_frame_page_size_power_of_two};
use vstd::arithmetic::power2::pow2;
use crate::memory::pages::Page;
use crate::memory::ProhibitedMemoryRange;

verus! {

/// How many level 2 bitmaps the level 1 bitmap holds.
pub const LEVEL1_LEN: usize = 261120;
/// The size of a level 2 bitmap in bytes.
pub const LEVEL2_BYTES: usize = 16384;
/// The size of a level 2 bitmap in bits: the pages that it covers.
pub const LEVEL2_BITS: usize = 131072;
/// The size of a level 2 bitmap in pages.
pub const LEVEL2_PAGES: usize = 4;
/// The higher half kernel start address: the first address the allocator manages.
pub const HH_START: u64 = 0xFFFF_8000_0000_0000;
/// The last address the allocator manages.
pub const HH_END: u64 = 0xFFFF_FF7F_FFFF_FFFF;

/// How many pages the allocator manages.
pub open spec fn total_pages() -> int {
    LEVEL1_LEN * LEVEL2_BITS
}

/// The level 1 bitmap as values: each level 2 bitmap, if it exists, as its bits.
pub open spec fn l1_view(l1: Seq<Option<Bitmap<LEVEL2_BYTES>>>) -> Seq<Option<Seq<bool>>> {
    l1.map_values(|o: Option<Bitmap<LEVEL2_BYTES>>| match o {
        Some(b) => Some(b@),
        None => None,
    })
}

/// Page `p` (counted from [HH_START]) is in use: its level 2 bitmap exists and has its bit set.
pub open spec fn page_used(v: Seq<Option<Seq<bool>>>, p: int) -> bool {
    &&& 0 <= p < total_pages()
    &&& v[p / LEVEL2_BITS as int] matches Some(bits) && bits[p % LEVEL2_BITS as int]
}

/// The page index (counted from [HH_START]) of the first page holding level 2 bitmaps,
/// when their memory starts at `ls`.
pub open spec fn first_backing_page(ls: u64) -> int {
    (ls - HH_START) / FRAME_PAGE_SIZE as int
}

/// Page `p` holds the memory of some level 2 bitmap.
pub open spec fn is_backing(ls: u64, p: int) -> bool {
    first_backing_page(ls) <= p < first_backing_page(ls) + LEVEL1_LEN * LEVEL2_PAGES
}

/// The level 2 bitmap whose memory lies in page `p`.
pub open spec fn backing_owner(ls: u64, p: int) -> int {
    (p - first_backing_page(ls)) / LEVEL2_PAGES as int
}

/// The level 2 bitmap that tracks the first page of the memory of level 2 bitmap `j`.
pub open spec fn parent_of(ls: u64, j: int) -> int {
    (first_backing_page(ls) + LEVEL2_PAGES * j) / LEVEL2_BITS as int
}

/// Every existing level 2 bitmap has the pages of its own memory marked as used.
pub open spec fn backed(v: Seq<Option<Seq<bool>>>, ls: u64) -> bool {
    forall|p: int| is_backing(ls, p) && (#[trigger] v[backing_owner(ls, p)]) is Some ==> page_used(v, p)
}

/// Page `p` holds the memory of a level 2 bitmap that exists in `v2` and did not in `v`.
pub open spec fn newly_backed(v: Seq<Option<Seq<bool>>>, v2: Seq<Option<Seq<bool>>>, ls: u64, p: int) -> bool {
    &&& is_backing(ls, p)
    &&& v[backing_owner(ls, p)] is None
    &&& v2[backing_owner(ls, p)] is Some
}

/// `v2` comes from `v` by creating level 2 bitmaps and marking their memory as used, and nothing else.
pub open spec fn grows(v: Seq<Option<Seq<bool>>>, v2: Seq<Option<Seq<bool>>>, ls: u64) -> bool {
    &&& v2.len() == v.len()
    &&& forall|j: int| 0 <= j < v.len() && (#[trigger] v[j]) is Some ==> v2[j] is Some
    &&& forall|p: int| #[trigger] page_used(v2, p) <==> page_used(v, p) || newly_backed(v, v2, ls, p)
}

/// How many level 2 bitmaps do not exist.
pub open spec fn count_none(v: Seq<Option<Seq<bool>>>) -> nat
    decreases v.len(),
{
    if v.len() == 0 {
        0
    } else {
        count_none(v.drop_last()) + if v.last() is None { 1nat } else { 0nat }
    }
}

/// Creating a level 2 bitmap leaves one fewer missing.
proof fn lemma_count_none_update(v: Seq<Option<Seq<bool>>>, i: int, b: Seq<bool>)
    requires
        0 <= i < v.len(),
        v[i] is None,
    ensures
        count_none(v.update(i, Some(b))) + 1 == count_none(v),
    decreases v.len(),
{
    if i < v.len() - 1 {
        lemma_count_none_update(v.drop_last(), i, b);
        assert(v.update(i, Some(b)).drop_last() =~= v.drop_last().update(i, Some(b)));
    } else {
        assert(v.update(i, Some(b)).drop_last() =~= v.drop_last());
    }
}

/// Changing the bits of an existing level 2 bitmap leaves the count of missing ones alone.
proof fn lemma_count_none_same(v: Seq<Option<Seq<bool>>>, i: int, b: Seq<bool>)
    requires
        0 <= i < v.len(),
        v[i] is Some,
    ensures
        count_none(v.update(i, Some(b))) == count_none(v),
    decreases v.len(),
{
    if i < v.len() - 1 {
        lemma_count_none_same(v.drop_last(), i, b);
        assert(v.update(i, Some(b)).drop_last() =~= v.drop_last().update(i, Some(b)));
    } else {
        assert(v.update(i, Some(b)).drop_last() =~= v.drop_last());
    }
}

/// `bits` with every bit in `[from, to)` set.
pub open spec fn set_range(bits: Seq<bool>, from: int, to: int) -> Seq<bool> {
    Seq::new(bits.len(), |i: int| if from <= i < to { true } else { bits[i] })
}

/// Every existing level 2 bitmap has all its bits.
pub open spec fn full_sized(v: Seq<Option<Seq<bool>>>) -> bool {
    &&& v.len() == LEVEL1_LEN
    &&& forall|i: int| 0 <= i < LEVEL1_LEN ==> (#[trigger] v[i] matches Some(b) ==> b.len() == LEVEL2_BITS)
}

/// `v` after creating level 2 bitmap `idx`, empty, and marking the pages of its memory as used.
pub open spec fn with_bitmap(v: Seq<Option<Seq<bool>>>, ls: u64, idx: int) -> Seq<Option<Seq<bool>>> {
    let v2 = v.update(idx, Some(Seq::new(LEVEL2_BITS as nat, |i: int| false)));
    let o = (first_backing_page(ls) + LEVEL2_PAGES * idx) % LEVEL2_BITS as int;
    v2.update(parent_of(ls, idx), Some(set_range(v2[parent_of(ls, idx)]->0, o, o + LEVEL2_PAGES)))
}

/// The pages of the memory of level 2 bitmap `j` are the four from `first_backing_page(ls) + 4 * j`,
/// which lie together in level 2 bitmap `parent_of(ls, j)`.
pub proof fn lemma_backing_pages(ls: u64, j: int)
    requires
        valid_level2_start(ls),
        0 <= j < LEVEL1_LEN,
    ensures
        ({
            let q0 = first_backing_page(ls) + LEVEL2_PAGES * j;
            &&& q0 % LEVEL2_PAGES as int == 0
            &&& q0 % LEVEL2_BITS as int + LEVEL2_PAGES <= LEVEL2_BITS
            &&& q0 + LEVEL2_PAGES <= total_pages()
            &&& q0 >= 0
            &&& 0 <= parent_of(ls, j) < LEVEL1_LEN
            &&& parent_of(ls, j) == q0 / LEVEL2_BITS as int
            &&& forall|p: int| is_backing(ls, p) && #[trigger] backing_owner(ls, p) == j <==> q0 <= p < q0 + LEVEL2_PAGES
            &&& forall|p: int| #![trigger backing_owner(ls, p)] q0 <= p < q0 + LEVEL2_PAGES ==> p / LEVEL2_BITS as int == parent_of(ls, j)
                && p % LEVEL2_BITS as int == q0 % LEVEL2_BITS as int + (p - q0)
        }),
{
    let fb = first_backing_page(ls);
    let q0 = fb + LEVEL2_PAGES * j;
    assert((ls - HH_START) % 16384 == 0) by {
        let k = ls as int / 16384;
        assert(ls == 16384 * k);
        assert(ls - HH_START == 16384 * (k - 1125891316908032));
        vstd::arithmetic::div_mod::lemma_mod_multiples_basic(k - 1125891316908032, 16384);
    }
    assert(fb % 4 == 0) by {
        assert(ls - HH_START == 4096 * fb);
        vstd::arithmetic::div_mod::lemma_mod_mod(ls - HH_START, 4096, 4);
    }
    assert(q0 % 4 == 0);
    assert(q0 % 131072 % 4 == 0) by {
        vstd::arithmetic::div_mod::lemma_mod_mod(q0, 4, 32768);
    }
}

/// Creating level 2 bitmap `idx` keeps the existing bitmaps and marks exactly the memory of the new one.
proof fn lemma_with_bitmap(v: Seq<Option<Seq<bool>>>, ls: u64, idx: int)
    requires
        full_sized(v),
        valid_level2_start(ls),
        backed(v, ls),
        0 <= idx < LEVEL1_LEN,
        v[idx] is None,
        parent_of(ls, idx) == idx || v[parent_of(ls, idx)] is Some,
    ensures
        full_sized(with_bitmap(v, ls, idx)),
        backed(with_bitmap(v, ls, idx), ls),
        grows(v, with_bitmap(v, ls, idx), ls),
        with_bitmap(v, ls, idx)[idx] is Some,
        forall|n: int| 0 <= n < LEVEL1_LEN && n != idx ==> (#[trigger] with_bitmap(v, ls, idx)[n] is Some) == (v[n] is Some),
{
    let w = with_bitmap(v, ls, idx);
    let par = parent_of(ls, idx);
    let q0 = first_backing_page(ls) + LEVEL2_PAGES * idx;
    let o = q0 % LEVEL2_BITS as int;
    lemma_backing_pages(ls, idx);
    assert forall|p: int| #[trigger] page_used(w, p) <==> page_used(v, p) || newly_backed(v, w, ls, p) by {
        if 0 <= p < total_pages() {
            let b = p / LEVEL2_BITS as int;
            if b == par {
            } else if b == idx {
                if is_backing(ls, p) && backing_owner(ls, p) == idx {
                    assert(p / LEVEL2_BITS as int == par);
                }
            } else {
                if is_backing(ls, p) && backing_owner(ls, p) == idx {
                    assert(p / LEVEL2_BITS as int == par);
                }
            }
        } else {
            if is_backing(ls, p) && backing_owner(ls, p) == idx {
                assert(q0 <= p < q0 + LEVEL2_PAGES);
            }
        }
    }
    assert forall|p: int| is_backing(ls, p) && (#[trigger] w[backing_owner(ls, p)]) is Some implies page_used(w, p) by {
        if backing_owner(ls, p) == idx {
            assert(q0 <= p < q0 + LEVEL2_PAGES);
        } else {
            assert(v[backing_owner(ls, p)] is Some);
            assert(page_used(v, p));
            assert(page_used(w, p));
        }
    }
}

/// Growing twice is growing.
proof fn lemma_grows_trans(v1: Seq<Option<Seq<bool>>>, v2: Seq<Option<Seq<bool>>>, v3: Seq<Option<Seq<bool>>>, ls: u64)
    requires
        v1.len() == LEVEL1_LEN,
        valid_level2_start(ls),
        grows(v1, v2, ls),
        grows(v2, v3, ls),
    ensures
        grows(v1, v3, ls),
{
    assert forall|p: int| #[trigger] page_used(v3, p) <==> page_used(v1, p) || newly_backed(v1, v3, ls, p) by {
        assert(page_used(v3, p) <==> page_used(v2, p) || newly_backed(v2, v3, ls, p));
        assert(page_used(v2, p) <==> page_used(v1, p) || newly_backed(v1, v2, ls, p));
        if is_backing(ls, p) {
            let o = backing_owner(ls, p);
            if 0 <= o < v1.len() && v1[o] is Some {
                assert(v2[o] is Some);
            }
            if 0 <= o < v1.len() && v2[o] is Some {
                assert(v3[o] is Some);
            }
        }
    }
}

/// Level 2 bitmap `n` lies on the far side of `parent_of(ls, x)`, seen from `x`.
pub open spec fn chain_side(ls: u64, x: int, n: int) -> bool {
    &&& parent_of(ls, x) >= x ==> n >= parent_of(ls, x)
    &&& parent_of(ls, x) <= x ==> n <= parent_of(ls, x)
}

/// The bitmap that tracks a bitmap's memory moves in the same direction as the bitmap.
proof fn lemma_parent_monotone(ls: u64, a: int, b: int)
    requires
        valid_level2_start(ls),
        a <= b,
    ensures
        parent_of(ls, a) <= parent_of(ls, b),
{
    vstd::arithmetic::div_mod::lemma_div_is_ordered(
        first_backing_page(ls) + LEVEL2_PAGES * a,
        first_backing_page(ls) + LEVEL2_PAGES * b,
        LEVEL2_BITS as int,
    );
}

/// Pages `[s, s + c)` are all in the managed range and free.
pub open spec fn window_free(v: Seq<Option<Seq<bool>>>, s: int, c: int) -> bool {
    &&& 0 <= s
    &&& s + c <= total_pages()
    &&& forall|p: int| s <= p < s + c ==> !#[trigger] page_used(v, p)
}

/// `s` is the lowest page index from `from` on where `c` free pages follow each other.
pub open spec fn is_first_fit(v: Seq<Option<Seq<bool>>>, from: int, c: int, s: int) -> bool {
    &&& from <= s
    &&& window_free(v, s, c)
    &&& forall|s2: int| from <= s2 < s ==> !#[trigger] window_free(v, s2, c)
}

/// Somewhere from `from` on, `c` free pages follow each other.
pub open spec fn fits_somewhere(v: Seq<Option<Seq<bool>>>, from: int, c: int) -> bool {
    exists|s: int| from <= s && #[trigger] window_free(v, s, c)
}

/// `v2` comes from `v` by marking pages `[s, s + n)` as used, creating level 2 bitmaps and marking their
/// memory as used, and nothing else.
pub open spec fn grows_with(v: Seq<Option<Seq<bool>>>, v2: Seq<Option<Seq<bool>>>, ls: u64, s: int, n: int) -> bool {
    &&& v2.len() == v.len()
    &&& forall|j: int| 0 <= j < v.len() && (#[trigger] v[j]) is Some ==> v2[j] is Some
    &&& forall|p: int| #[trigger] page_used(v2, p) <==> page_used(v, p) || (s <= p < s + n) || newly_backed(v, v2, ls, p)
}

/// Allocating a free block and then deallocating it leaves every page that does not hold level 2 bitmaps
/// as used or free as it was: `v1` is what [BitmapPageAllocator::allocate_contiguous] made of `v0` when it
/// handed out `[s, s + n)`, and `v2` what [BitmapPageAllocator::deallocate_contiguous] of that block made
/// of `v1`.
pub proof fn law_allocate_then_deallocate(
    v0: Seq<Option<Seq<bool>>>,
    v1: Seq<Option<Seq<bool>>>,
    v2: Seq<Option<Seq<bool>>>,
    ls: u64,
    s: int,
    n: int,
)
    requires
        window_free(v0, s, n),
        grows_with(v0, v1, ls, s, n),
        shrinks_with(v1, v2, ls, s, n),
    ensures
        forall|p: int| !is_backing(ls, p) ==> (#[trigger] page_used(v2, p) <==> page_used(v0, p)),
{
    assert forall|p: int| !is_backing(ls, p) implies (#[trigger] page_used(v2, p) <==> page_used(v0, p)) by {
        assert(page_used(v1, p) <==> page_used(v0, p) || (s <= p < s + n));
        if s <= p < s + n {
            assert(!page_used(v0, p));
        }
    }
}

/// The page index where the search for free pages starts: right after the memory of the last level 2 bitmap.
pub open spec fn search_start(used_idxs_end: (usize, usize)) -> int {
    used_idxs_end.0 * LEVEL2_BITS + used_idxs_end.1 + 1
}

/// Where the scan stands when it reaches level 1 index `l1`: at `from` for the first bitmap, else at
/// the bitmap's first page.
pub open spec fn scan_pos(from: int, first_l1: int, l1: int) -> int {
    if l1 == first_l1 {
        from
    } else {
        l1 * LEVEL2_BITS
    }
}

/// The first page of the block of free pages that the scan is in.
pub open spec fn run_start(q: int, start: Option<(usize, usize)>) -> int {
    match start {
        Some(idxs) => idxs.0 * LEVEL2_BITS + idxs.1,
        None => q,
    }
}

/// The state of the scan for `c` contiguous free pages from page `from` on, having looked at the pages
/// `[from, q)`: `cons` free pages end at `q`, starting at the page that `start` names (or none), and no
/// block of `c` free pages ends before `q`.
pub open spec fn block_scan(v: Seq<Option<Seq<bool>>>, from: int, c: int, q: int, cons: int, start: Option<(usize, usize)>) -> bool {
    let r = run_start(q, start);
    &&& from <= q <= total_pages()
    &&& start is None ==> cons == 0
    &&& start matches Some(idxs) ==> idxs.0 < LEVEL1_LEN && idxs.1 <= LEVEL2_BITS && (idxs.1 < LEVEL2_BITS || (r == from && v[idxs.0 as int] is None))
    &&& from <= r <= q
    &&& cons == q - r
    &&& r == from || page_used(v, r - 1)
    &&& forall|p: int| r <= p < q ==> !#[trigger] page_used(v, p)
    &&& forall|s2: int| from <= s2 && s2 + c <= q ==> !#[trigger] window_free(v, s2, c)
}

/// The scan goes over the free pages `[q, q2)`.
proof fn lemma_scan_free(
    v: Seq<Option<Seq<bool>>>,
    from: int,
    c: int,
    q: int,
    q2: int,
    cons: int,
    start: Option<(usize, usize)>,
    start2: Option<(usize, usize)>,
)
    requires
        block_scan(v, from, c, q, cons, start),
        cons < c,
        q < q2 <= total_pages(),
        forall|p: int| q <= p < q2 ==> !#[trigger] page_used(v, p),
        start is Some ==> start2 == start,
        start is None ==> (start2 matches Some(idxs) && idxs.0 < LEVEL1_LEN && idxs.1 <= LEVEL2_BITS
            && idxs.0 * LEVEL2_BITS + idxs.1 == q && (idxs.1 < LEVEL2_BITS || (q == from && v[idxs.0 as int] is None))),
    ensures
        cons + (q2 - q) < c ==> block_scan(v, from, c, q2, cons + (q2 - q), start2),
        cons + (q2 - q) >= c ==> (start2 matches Some(idxs) && idxs.0 < LEVEL1_LEN && idxs.1 <= LEVEL2_BITS
            && (idxs.1 < LEVEL2_BITS || (idxs.0 * LEVEL2_BITS + idxs.1 == from && v[idxs.0 as int] is None))
            && is_first_fit(v, from, c, idxs.0 * LEVEL2_BITS + idxs.1)),
{
    let r = run_start(q, start);
    assert(run_start(q2, start2) == r);
    assert forall|s2: int| from <= s2 && s2 < r && s2 + c > q implies !#[trigger] window_free(v, s2, c) by {
        assert(page_used(v, r - 1));
    }
    if cons + (q2 - q) >= c {
        assert(window_free(v, r, c));
    }
}

/// The scan goes over the used page `p`.
proof fn lemma_scan_used(v: Seq<Option<Seq<bool>>>, from: int, c: int, p: int, cons: int, start: Option<(usize, usize)>)
    requires
        block_scan(v, from, c, p, cons, start),
        cons < c,
        p < total_pages(),
        page_used(v, p),
    ensures
        block_scan(v, from, c, p + 1, 0, None),
{
    assert forall|s2: int| from <= s2 && s2 + c <= p + 1 implies !#[trigger] window_free(v, s2, c) by {
        if s2 + c == p + 1 {
            assert(page_used(v, p));
        }
    }
}

/// `v` with page `p` marked as used in its (existing) level 2 bitmap.
pub open spec fn mark_used(v: Seq<Option<Seq<bool>>>, p: int) -> Seq<Option<Seq<bool>>> {
    v.update(p / LEVEL2_BITS as int, Some(v[p / LEVEL2_BITS as int]->0.update(p % LEVEL2_BITS as int, true)))
}

/// One more page of a block marked as used, maybe after creating level 2 bitmaps.
proof fn lemma_mark_step(
    v0: Seq<Option<Seq<bool>>>,
    vb: Seq<Option<Seq<bool>>>,
    va: Seq<Option<Seq<bool>>>,
    ls: u64,
    s: int,
    i: int,
)
    requires
        v0.len() == LEVEL1_LEN,
        valid_level2_start(ls),
        full_sized(va),
        backed(va, ls),
        grows_with(v0, vb, ls, s, i),
        grows(vb, va, ls),
        0 <= s,
        0 <= i,
        s + i < total_pages(),
        va[(s + i) / LEVEL2_BITS as int] is Some,
    ensures
        grows_with(v0, mark_used(va, s + i), ls, s, i + 1),
        backed(mark_used(va, s + i), ls),
        full_sized(mark_used(va, s + i)),
{
    let p = s + i;
    let vc = mark_used(va, p);
    assert forall|q: int| #[trigger] page_used(vc, q) <==> page_used(va, q) || q == p by {
        if 0 <= q < total_pages() && q / LEVEL2_BITS as int == p / LEVEL2_BITS as int {
            if q % LEVEL2_BITS as int == p % LEVEL2_BITS as int {
                assert(q == p);
            }
        }
    }
    assert forall|q: int| #[trigger] page_used(vc, q) <==> page_used(v0, q) || (s <= q < s + i + 1) || newly_backed(v0, vc, ls, q) by {
        assert(page_used(va, q) <==> page_used(vb, q) || newly_backed(vb, va, ls, q));
        assert(page_used(vb, q) <==> page_used(v0, q) || (s <= q < s + i) || newly_backed(v0, vb, ls, q));
        if is_backing(ls, q) {
            let o = backing_owner(ls, q);
            if v0[o] is Some {
                assert(vb[o] is Some);
            }
            if vb[o] is Some {
                assert(va[o] is Some);
            }
            assert(vc[o] is Some <==> va[o] is Some);
        }
    }
    assert forall|q: int| is_backing(ls, q) && (#[trigger] vc[backing_owner(ls, q)]) is Some implies page_used(vc, q) by {
        assert(va[backing_owner(ls, q)] is Some);
        assert(page_used(va, q));
    }
    assert forall|j: int| 0 <= j < v0.len() && (#[trigger] v0[j]) is Some implies vc[j] is Some by {
        assert(vb[j] is Some);
        assert(va[j] is Some);
    }
}

/// At most every level 2 bitmap is missing.
proof fn lemma_count_none_bound(v: Seq<Option<Seq<bool>>>)
    ensures
        count_none(v) <= v.len(),
    decreases v.len(),
{
    if v.len() > 0 {
        lemma_count_none_bound(v.drop_last());
    }
}

/// Some bit is set.
pub open spec fn some_used(bits: Seq<bool>) -> bool {
    exists|i: int| 0 <= i < bits.len() && #[trigger] bits[i]
}

/// Page `p` holds the memory of a level 2 bitmap that exists in `v` and no longer in `v2`.
pub open spec fn newly_unbacked(v: Seq<Option<Seq<bool>>>, v2: Seq<Option<Seq<bool>>>, ls: u64, p: int) -> bool {
    &&& is_backing(ls, p)
    &&& v[backing_owner(ls, p)] is Some
    &&& v2[backing_owner(ls, p)] is None
}

/// `v2` comes from `v` by freeing pages `[s, s + n)` and dropping level 2 bitmaps that this left empty
/// (freeing their memory in turn), and nothing else; every kept bitmap that changed, but maybe `k`, still
/// has a page in use.
pub open spec fn shrinks_except(v: Seq<Option<Seq<bool>>>, v2: Seq<Option<Seq<bool>>>, ls: u64, s: int, n: int, k: int) -> bool {
    &&& v2.len() == v.len()
    &&& forall|j: int| 0 <= j < v.len() && (#[trigger] v2[j]) is Some ==> v[j] is Some
    &&& forall|p: int| #[trigger] page_used(v2, p) <==> page_used(v, p) && !(s <= p < s + n) && !newly_unbacked(v, v2, ls, p)
    &&& forall|p: int| #[trigger] page_used(v, p) && v2[p / LEVEL2_BITS as int] is None ==> (s <= p < s + n)
        || newly_unbacked(v, v2, ls, p)
    &&& forall|j: int| 0 <= j < v.len() && j != k && (#[trigger] v2[j]) is Some && v2[j] != v[j] ==> some_used(v2[j]->0)
}

/// `v2` comes from `v` by freeing pages `[s, s + n)` and dropping the level 2 bitmaps that this left
/// empty (freeing their memory in turn), and nothing else.
pub open spec fn shrinks_with(v: Seq<Option<Seq<bool>>>, v2: Seq<Option<Seq<bool>>>, ls: u64, s: int, n: int) -> bool {
    shrinks_except(v, v2, ls, s, n, -1)
}

/// `bits` with every bit in `[from, to)` cleared.
pub open spec fn clear_range(bits: Seq<bool>, from: int, to: int) -> Seq<bool> {
    Seq::new(bits.len(), |i: int| if from <= i < to { false } else { bits[i] })
}

/// `v` after dropping the empty level 2 bitmap `idx` and freeing the pages of its memory.
pub open spec fn without_bitmap(v: Seq<Option<Seq<bool>>>, ls: u64, idx: int) -> Seq<Option<Seq<bool>>> {
    let v1 = v.update(idx, None);
    let o = (first_backing_page(ls) + LEVEL2_PAGES * idx) % LEVEL2_BITS as int;
    v1.update(parent_of(ls, idx), Some(clear_range(v1[parent_of(ls, idx)]->0, o, o + LEVEL2_PAGES)))
}

/// Dropping an empty level 2 bitmap frees exactly its memory, and keeps every bitmap's memory marked.
proof fn lemma_without_bitmap(v: Seq<Option<Seq<bool>>>, ls: u64, idx: int)
    requires
        full_sized(v),
        valid_level2_start(ls),
        backed(v, ls),
        0 <= idx < LEVEL1_LEN,
        v[idx] is Some,
        !some_used(v[idx]->0),
    ensures
        parent_of(ls, idx) != idx,
        v[parent_of(ls, idx)] is Some,
        full_sized(without_bitmap(v, ls, idx)),
        backed(without_bitmap(v, ls, idx), ls),
        without_bitmap(v, ls, idx)[idx] is None,
        forall|p: int| #[trigger] page_used(without_bitmap(v, ls, idx), p) <==> page_used(v, p)
            && !newly_unbacked(v, without_bitmap(v, ls, idx), ls, p),
        forall|n: int| 0 <= n < LEVEL1_LEN && n != idx ==> (#[trigger] without_bitmap(v, ls, idx)[n] is Some) == (v[n] is Some),
        forall|n: int| 0 <= n < LEVEL1_LEN && n != parent_of(ls, idx) && n != idx ==> #[trigger] without_bitmap(v, ls, idx)[n] == v[n],
{
    let w = without_bitmap(v, ls, idx);
    let par = parent_of(ls, idx);
    let q0 = first_backing_page(ls) + LEVEL2_PAGES * idx;
    lemma_backing_pages(ls, idx);
    assert(backing_owner(ls, q0) == idx);
    assert(page_used(v, q0));
    if par == idx {
        assert(v[idx]->0[q0 % LEVEL2_BITS as int]);
        assert(false);
    }
    assert forall|p: int| #[trigger] page_used(w, p) <==> page_used(v, p) && !newly_unbacked(v, w, ls, p) by {
        if 0 <= p < total_pages() {
            let b = p / LEVEL2_BITS as int;
            if b == idx {
                if page_used(v, p) {
                    assert(v[idx]->0[p % LEVEL2_BITS as int]);
                }
            } else if b == par {
                if is_backing(ls, p) && backing_owner(ls, p) == idx {
                    assert(q0 <= p < q0 + LEVEL2_PAGES);
                }
            } else {
                if is_backing(ls, p) && backing_owner(ls, p) == idx {
                    assert(p / LEVEL2_BITS as int == par);
                }
            }
        } else {
            if is_backing(ls, p) && backing_owner(ls, p) == idx {
                assert(q0 <= p < q0 + LEVEL2_PAGES);
            }
        }
    }
    assert forall|p: int| is_backing(ls, p) && (#[trigger] w[backing_owner(ls, p)]) is Some implies page_used(w, p) by {
        let o = backing_owner(ls, p);
        assert(o != idx);
        assert(v[o] is Some);
        assert(page_used(v, p));
        if p / LEVEL2_BITS as int == idx {
            assert(v[idx]->0[p % LEVEL2_BITS as int]);
        }
    }
}

/// Shrinking twice is shrinking.
proof fn lemma_shrinks_trans(
    v1: Seq<Option<Seq<bool>>>,
    v2: Seq<Option<Seq<bool>>>,
    v3: Seq<Option<Seq<bool>>>,
    ls: u64,
    s: int,
    n: int,
    k: int,
)
    requires
        v1.len() == LEVEL1_LEN,
        valid_level2_start(ls),
        shrinks_except(v1, v2, ls, s, n, k),
        0 <= k < LEVEL1_LEN ==> v3[k] is None,
        shrinks_with(v2, v3, ls, 0, 0),
    ensures
        shrinks_with(v1, v3, ls, s, n),
{
    assert forall|p: int| #[trigger] page_used(v3, p) <==> page_used(v1, p) && !(s <= p < s + n) && !newly_unbacked(v1, v3, ls, p) by {
        assert(page_used(v3, p) <==> page_used(v2, p) && !newly_unbacked(v2, v3, ls, p));
        assert(page_used(v2, p) <==> page_used(v1, p) && !(s <= p < s + n) && !newly_unbacked(v1, v2, ls, p));
        if is_backing(ls, p) {
            let o = backing_owner(ls, p);
            if v3[o] is Some {
                assert(v2[o] is Some);
            }
            if v2[o] is Some {
                assert(v1[o] is Some);
            }
        }
    }
    assert forall|p: int| #[trigger] page_used(v1, p) && v3[p / LEVEL2_BITS as int] is None implies (s <= p < s + n)
        || newly_unbacked(v1, v3, ls, p) by {
        let b = p / LEVEL2_BITS as int;
        if is_backing(ls, p) {
            let o = backing_owner(ls, p);
            if v3[o] is Some {
                assert(v2[o] is Some);
            }
            if v2[o] is Some {
                assert(v1[o] is Some);
            }
        }
        if v2[b] is None {
        } else if !(s <= p < s + n) && !newly_unbacked(v1, v2, ls, p) {
            assert(page_used(v2, p));
        }
    }
    assert forall|j: int| 0 <= j < v1.len() && (#[trigger] v3[j]) is Some && v3[j] != v1[j] implies some_used(v3[j]->0) by {
        assert(v2[j] is Some);
        if v3[j] == v2[j] {
            assert(v2[j] != v1[j]);
        }
    }
    assert forall|j: int| 0 <= j < v1.len() && (#[trigger] v3[j]) is Some implies v1[j] is Some by {
        assert(v2[j] is Some);
    }
}

/// `v` with page `p` marked as free in its (existing) level 2 bitmap.
pub open spec fn mark_free(v: Seq<Option<Seq<bool>>>, p: int) -> Seq<Option<Seq<bool>>> {
    v.update(p / LEVEL2_BITS as int, Some(v[p / LEVEL2_BITS as int]->0.update(p % LEVEL2_BITS as int, false)))
}

/// One more page of a block marked as free.
proof fn lemma_free_step(v0: Seq<Option<Seq<bool>>>, vb: Seq<Option<Seq<bool>>>, ls: u64, s: int, i: int)
    requires
        v0.len() == LEVEL1_LEN,
        valid_level2_start(ls),
        full_sized(vb),
        backed(vb, ls),
        shrinks_with(v0, vb, ls, s, i),
        0 <= s,
        0 <= i,
        s + i < total_pages(),
        page_used(vb, s + i),
        !is_backing(ls, s + i),
    ensures
        shrinks_except(v0, mark_free(vb, s + i), ls, s, i + 1, (s + i) / LEVEL2_BITS as int),
        backed(mark_free(vb, s + i), ls),
        full_sized(mark_free(vb, s + i)),
{
    let p = s + i;
    let vc = mark_free(vb, p);
    assert forall|q: int| #[trigger] page_used(vc, q) <==> page_used(vb, q) && q != p by {
        if 0 <= q < total_pages() && q / LEVEL2_BITS as int == p / LEVEL2_BITS as int {
            if q % LEVEL2_BITS as int == p % LEVEL2_BITS as int {
                assert(q == p);
            }
        }
    }
    assert forall|q: int| #[trigger] page_used(vc, q) <==> page_used(v0, q) && !(s <= q < s + i + 1) && !newly_unbacked(v0, vc, ls, q) by {
        assert(page_used(vb, q) <==> page_used(v0, q) && !(s <= q < s + i) && !newly_unbacked(v0, vb, ls, q));
        if is_backing(ls, q) {
            let o = backing_owner(ls, q);
            assert(vc[o] is Some <==> vb[o] is Some);
        }
    }
    assert forall|q: int| #[trigger] page_used(v0, q) && vc[q / LEVEL2_BITS as int] is None implies (s <= q < s + i + 1)
        || newly_unbacked(v0, vc, ls, q) by {
        assert(vb[q / LEVEL2_BITS as int] is None);
        if is_backing(ls, q) {
            let o = backing_owner(ls, q);
            assert(vc[o] is Some <==> vb[o] is Some);
        }
    }
    assert forall|j: int| 0 <= j < v0.len() && j != p / LEVEL2_BITS as int && (#[trigger] vc[j]) is Some && vc[j] != v0[j]
        implies some_used(vc[j]->0) by {
        assert(vc[j] == vb[j]);
    }
    assert forall|j: int| 0 <= j < v0.len() && (#[trigger] vc[j]) is Some implies v0[j] is Some by {
        assert(vb[j] is Some);
    }
    assert forall|q: int| is_backing(ls, q) && (#[trigger] vc[backing_owner(ls, q)]) is Some implies page_used(vc, q) by {
        assert(vb[backing_owner(ls, q)] is Some);
        assert(page_used(vb, q));
    }
}

struct BitmapPageAllocatorInner {
    // every level 2 bitmap is 16kb
    l1: Vec<Option<Bitmap<LEVEL2_BYTES>>>,
    // the last idxs used by the initialization (must NOT be used for allocations)
    used_idxs_end: (usize, usize),
    initialized: bool,
    // where the memory of the level 2 bitmaps starts
    level2_start: VirtualAddress,
}

/// The memory of the level 2 bitmaps starts at `ls`: in the higher half, aligned, and all of it
/// inside the managed range.
pub open spec fn valid_level2_start(ls: u64) -> bool {
    &&& HH_START <= ls
    &&& ls + LEVEL1_LEN * LEVEL2_BYTES <= HH_END + 1
    &&& ls % LEVEL2_BYTES as u64 == 0
}

impl BitmapPageAllocatorInner {
    spec fn view(&self) -> Seq<Option<Seq<bool>>> {
        l1_view(self.l1@)
    }

    spec fn shape(&self) -> bool {
        &&& self.l1@.len() == LEVEL1_LEN
        &&& forall|i: int| 0 <= i < LEVEL1_LEN ==> (#[trigger] self.l1@[i] matches Some(b) ==> b@.len() == LEVEL2_BITS)
        &&& valid_level2_start(self.level2_start)
    }

    /// The shape of the bitmaps, seen through the view.
    proof fn lemma_shape(&self)
        requires
            self.shape(),
        ensures
            full_sized(self@),
    {
        assert forall|i: int| 0 <= i < LEVEL1_LEN implies (#[trigger] self@[i] matches Some(b) ==> b.len() == LEVEL2_BITS) by {
            if self.l1@[i] is Some {
                assert(self.l1@[i]->0@.len() == LEVEL2_BITS);
            }
        }
    }

    spec fn wf(&self) -> bool {
        &&& self.shape()
        &&& backed(self@, self.level2_start)
        &&& self.initialized ==> self.used_idxs_end.0 * LEVEL2_BITS + self.used_idxs_end.1 + 1
            == first_backing_page(self.level2_start) + LEVEL1_LEN * LEVEL2_PAGES
        &&& self.initialized ==> self.used_idxs_end.1 < LEVEL2_BITS
    }

    /// Convert from a `page_idx` in the higher half to the l1 and l2 bitmap indexes that map the respective page.
    fn page_idx_to_bit_idxs(&self, page_idx: u64) -> (r: (usize, usize))
        requires
            page_idx < total_pages(),
        ensures
            r.0 == page_idx as int / LEVEL2_BITS as int,
            r.1 == page_idx as int % LEVEL2_BITS as int,
            r.0 < LEVEL1_LEN,
    {
        ((page_idx / LEVEL2_BITS as u64) as usize, (page_idx % LEVEL2_BITS as u64) as usize)
    }

    /// Get the l1 and l2 bitmap indexes that map the respective `addr`.
    fn addr_to_bit_idxs(&self, addr: VirtualAddress) -> (r: (usize, usize))
        requires
            HH_START <= addr <= HH_END,
        ensures
            r.0 == ((addr - HH_START) / FRAME_PAGE_SIZE as int) / LEVEL2_BITS as int,
            r.1 == ((addr - HH_START) / FRAME_PAGE_SIZE as int) % LEVEL2_BITS as int,
            r.0 < LEVEL1_LEN,
    {
        proof {
            lemma_frame_page_size_power_of_two();
            assert((addr - addr % 4096 - HH_START) / 4096 == (addr - HH_START) / 4096);
        }
        let page_idx = (addr.align_down(FRAME_PAGE_SIZE) - HH_START) / FRAME_PAGE_SIZE;
        self.page_idx_to_bit_idxs(page_idx)
    }

    /// Get the address that is mapped by the l1 and l2 bitmap `idxs`.
    fn bit_idxs_to_addr(&self, idxs: (usize, usize)) -> (r: VirtualAddress)
        requires
            idxs.0 * LEVEL2_BITS + idxs.1 < total_pages(),
        ensures
            r == HH_START + (idxs.0 * LEVEL2_BITS + idxs.1) * FRAME_PAGE_SIZE,
    {
        let page_idx = idxs.0 as u64 * LEVEL2_BITS as u64 + idxs.1 as u64;
        HH_START + page_idx * FRAME_PAGE_SIZE
    }

    /// Get the l2 bitmap start address from the respective l1 `bitmap_idx`.
    fn level2_bitmap_addr(&self, bitmap_idx: usize) -> (r: VirtualAddress)
        requires
            valid_level2_start(self.level2_start),
            bitmap_idx < LEVEL1_LEN,
        ensures
            r == self.level2_start + LEVEL2_BYTES * bitmap_idx,
            HH_START <= r <= HH_END,
            (r - HH_START) / FRAME_PAGE_SIZE as int == first_backing_page(self.level2_start) + LEVEL2_PAGES * bitmap_idx,
    {
        self.level2_start + (LEVEL2_BYTES as u64 * bitmap_idx as u64)
    }

    /// Set the bit of page `l2_idx` in the existing level 2 bitmap `l1_idx` to `value`.
    fn set_page(&mut self, l1_idx: usize, l2_idx: usize, value: bool)
        requires
            old(self).shape(),
            l1_idx < LEVEL1_LEN,
            l2_idx < LEVEL2_BITS,
            old(self)@[l1_idx as int] is Some,
        ensures
            final(self)@ == old(self)@.update(l1_idx as int, Some(old(self)@[l1_idx as int]->0.update(l2_idx as int, value))),
            final(self).level2_start == old(self).level2_start,
            final(self).used_idxs_end == old(self).used_idxs_end,
            final(self).initialized == old(self).initialized,
            final(self).shape(),
    {
        match &mut self.l1[l1_idx] {
            Some(b) => {
                b.set(l2_idx, value);
            },
            None => {},
        }
        assert(self@ =~= old(self)@.update(l1_idx as int, Some(old(self)@[l1_idx as int]->0.update(l2_idx as int, value))));
    }

    /// Allocate the l2 bitmap with the respective l1 `bitmap_idx`, as well as, the necessary bitmaps to map the
    /// requested l2 bitmap: the pages of its memory are marked as used in the bitmap that tracks them.
    fn allocate_level2_bitmap(&mut self, bitmap_idx: usize)
        requires
            old(self).wf(),
            bitmap_idx < LEVEL1_LEN,
            old(self)@[bitmap_idx as int] is None,
        ensures
            final(self).wf(),
            final(self).level2_start == old(self).level2_start,
            final(self).used_idxs_end == old(self).used_idxs_end,
            final(self).initialized == old(self).initialized,
            grows(old(self)@, final(self)@, old(self).level2_start),
            final(self)@[bitmap_idx as int] is Some,
            forall|n: int|
                0 <= n < LEVEL1_LEN && n != bitmap_idx && old(self)@[n] is None && #[trigger] final(self)@[n] is Some
                    ==> chain_side(old(self).level2_start, bitmap_idx as int, n),
        decreases
            (if parent_of(old(self).level2_start, bitmap_idx as int) == bitmap_idx { 0int } else { 1int }),
            (if parent_of(old(self).level2_start, bitmap_idx as int) > bitmap_idx {
                LEVEL1_LEN - bitmap_idx
            } else {
                bitmap_idx as int
            }),
    {
        let ghost ls = self.level2_start;
        let ghost v0 = self@;
        let ghost ue = self.used_idxs_end;
        let ghost init = self.initialized;
        proof {
            lemma_backing_pages(ls, bitmap_idx as int);
        }
        let bitmap_start_addr = self.level2_bitmap_addr(bitmap_idx);
        let (l1_idx, l2_idx) = self.addr_to_bit_idxs(bitmap_start_addr);
        assert(l1_idx == parent_of(ls, bitmap_idx as int));

        // the bitmap that tracks the memory of this one must exist first
        if l1_idx != bitmap_idx && self.l1[l1_idx].is_none() {
            proof {
                if bitmap_idx < l1_idx {
                    lemma_parent_monotone(ls, bitmap_idx as int, l1_idx as int);
                } else {
                    lemma_parent_monotone(ls, l1_idx as int, bitmap_idx as int);
                }
            }
            self.allocate_level2_bitmap(l1_idx);
        }
        let ghost v1 = self@;
        assert(v1[bitmap_idx as int] is None);
        assert(l1_idx == bitmap_idx || v1[l1_idx as int] is Some);

        // build the level 2 bitmap
        let fresh: Bitmap<LEVEL2_BYTES> = Bitmap::new(None);
        self.l1[bitmap_idx] = Some(fresh);

        // mark the current second level bitmap pages as allocated in the bitmap that tracks them
        let ghost mid = self@;
        assert(mid =~= v1.update(bitmap_idx as int, Some(Seq::new(LEVEL2_BITS as nat, |i: int| false))));
        assert(mid[l1_idx as int] is Some);
        proof {
            self.lemma_shape();
        }
        assert(set_range(mid[l1_idx as int]->0, l2_idx as int, l2_idx as int) =~= mid[l1_idx as int]->0);
        assert(mid =~= mid.update(l1_idx as int, Some(set_range(mid[l1_idx as int]->0, l2_idx as int, l2_idx as int))));
        let mut offset: usize = 0;
        while offset < LEVEL2_PAGES
            invariant
                self.shape(),
                self.level2_start == ls,
                self.used_idxs_end == ue,
                self.initialized == init,
                offset <= LEVEL2_PAGES,
                l1_idx < LEVEL1_LEN,
                l2_idx + LEVEL2_PAGES <= LEVEL2_BITS,
                mid.len() == LEVEL1_LEN,
                mid[l1_idx as int] is Some,
                mid[l1_idx as int]->0.len() == LEVEL2_BITS,
                self@ == mid.update(l1_idx as int, Some(set_range(mid[l1_idx as int]->0, l2_idx as int, l2_idx + offset))),
            decreases LEVEL2_PAGES - offset,
        {
            self.set_page(l1_idx, l2_idx + offset, true);
            assert(set_range(mid[l1_idx as int]->0, l2_idx as int, l2_idx + offset).update(l2_idx + offset, true)
                =~= set_range(mid[l1_idx as int]->0, l2_idx as int, l2_idx + offset + 1));
            offset = offset + 1;
        }
        proof {
            assert(full_sized(v1)) by {
                assert forall|i: int| 0 <= i < LEVEL1_LEN implies (#[trigger] v1[i] matches Some(b) ==> b.len() == LEVEL2_BITS) by {
                    if i == bitmap_idx {
                    } else {
                        assert(v1[i] == mid[i]);
                    }
                }
            }
            lemma_with_bitmap(v1, ls, bitmap_idx as int);
            assert(self@ =~= with_bitmap(v1, ls, bitmap_idx as int));
        }
    }

    /// Deallocate the l2 bitmap with the respective l1 `bitmap_idx`, which must be empty, as well as, the
    /// bitmaps that tracked its memory and are left empty by that.
    fn deallocate_level2_bitmap(&mut self, bitmap_idx: usize)
        requires
            old(self).wf(),
            bitmap_idx < LEVEL1_LEN,
            old(self)@[bitmap_idx as int] is Some,
            !some_used(old(self)@[bitmap_idx as int]->0),
        ensures
            final(self).wf(),
            final(self).level2_start == old(self).level2_start,
            final(self).used_idxs_end == old(self).used_idxs_end,
            final(self).initialized == old(self).initialized,
            shrinks_with(old(self)@, final(self)@, old(self).level2_start, 0, 0),
            final(self)@[bitmap_idx as int] is None,
        decreases LEVEL1_LEN - count_none(old(self)@),
    {
        let ghost ls = self.level2_start;
        let ghost v0 = self@;
        let ghost ue = self.used_idxs_end;
        let ghost init = self.initialized;
        proof {
            self.lemma_shape();
            lemma_backing_pages(ls, bitmap_idx as int);
            lemma_without_bitmap(v0, ls, bitmap_idx as int);
        }
        let bitmap_start_addr = self.level2_bitmap_addr(bitmap_idx);
        self.l1[bitmap_idx] = None;
        let ghost v1 = self@;
        assert(v1 =~= v0.update(bitmap_idx as int, None));

        let (l1_idx, l2_idx) = self.addr_to_bit_idxs(bitmap_start_addr);
        assert(l1_idx == parent_of(ls, bitmap_idx as int));
        assert(self.l1[l1_idx as int] is Some);

        // mark the current second level bitmap pages as deallocated
        proof {
            assert(clear_range(v1[l1_idx as int]->0, l2_idx as int, l2_idx as int) =~= v1[l1_idx as int]->0);
            assert(v1 =~= v1.update(l1_idx as int, Some(clear_range(v1[l1_idx as int]->0, l2_idx as int, l2_idx as int))));
        }
        let mut offset: usize = 0;
        while offset < LEVEL2_PAGES
            invariant
                self.shape(),
                self.level2_start == ls,
                self.used_idxs_end == ue,
                self.initialized == init,
                offset <= LEVEL2_PAGES,
                l1_idx < LEVEL1_LEN,
                l2_idx + LEVEL2_PAGES <= LEVEL2_BITS,
                v1.len() == LEVEL1_LEN,
                v1[l1_idx as int] is Some,
                v1[l1_idx as int]->0.len() == LEVEL2_BITS,
                self@ == v1.update(l1_idx as int, Some(clear_range(v1[l1_idx as int]->0, l2_idx as int, l2_idx + offset))),
            decreases LEVEL2_PAGES - offset,
        {
            self.set_page(l1_idx, l2_idx + offset, false);
            assert(clear_range(v1[l1_idx as int]->0, l2_idx as int, l2_idx + offset).update(l2_idx + offset, false)
                =~= clear_range(v1[l1_idx as int]->0, l2_idx as int, l2_idx + offset + 1));
            offset = offset + 1;
        }
        let ghost v2 = self@;
        assert(v2 =~= without_bitmap(v0, ls, bitmap_idx as int));
        proof {
            assert forall|p: int| #[trigger] page_used(v0, p) && v2[p / LEVEL2_BITS as int] is None implies (0 <= p < 0)
                || newly_unbacked(v0, v2, ls, p) by {
                assert(p / LEVEL2_BITS as int == bitmap_idx);
                assert(v0[bitmap_idx as int]->0[p % LEVEL2_BITS as int]);
            }
            assert forall|j: int| 0 <= j < v0.len() && j != l1_idx && (#[trigger] v2[j]) is Some && v2[j] != v0[j] implies some_used(v2[j]->0) by {
                assert(j == l1_idx);
            }
            assert(shrinks_except(v0, v2, ls, 0, 0, l1_idx as int));
        }

        // recursively deallocate the second level bitmap that marked the current one, but is now empty
        let empty = match &self.l1[l1_idx] {
            Some(b) => b.zeroed(),
            None => false,
        };
        if empty {
            proof {
                lemma_count_none_bound(v2);
                lemma_count_none_update(v2, bitmap_idx as int, v0[bitmap_idx as int]->0);
                assert(v2.update(bitmap_idx as int, Some(v0[bitmap_idx as int]->0)) =~= v0.update(l1_idx as int, v2[l1_idx as int]));
                lemma_count_none_same(v0, l1_idx as int, v2[l1_idx as int]->0);
            }
            self.deallocate_level2_bitmap(l1_idx);
            proof {
                lemma_shrinks_trans(v0, v2, self@, ls, 0, 0, l1_idx as int);
            }
        } else {
            assert(shrinks_with(v0, v2, ls, 0, 0)) by {
                assert forall|j: int| 0 <= j < v0.len() && (#[trigger] v2[j]) is Some && v2[j] != v0[j] implies some_used(v2[j]->0) by {
                    assert(j == l1_idx);
                    let b = v2[j]->0;
                    let i = choose|i: int| 0 <= i < b.len() && b[i];
                    assert(b[i]);
                }
            }
        }
    }

    /// Deallocate the `count` pages from `page` on, and the level 2 bitmaps that this leaves empty.
    fn deallocate_contiguous(&mut self, page: Page, count: usize)
        requires
            old(self).wf(),
            old(self).initialized,
            count > 0,
            HH_START as int / FRAME_PAGE_SIZE as int <= page@,
            page@ - HH_START as int / FRAME_PAGE_SIZE as int + count <= total_pages(),
            forall|p: int| page@ - HH_START as int / FRAME_PAGE_SIZE as int <= p < page@ - HH_START as int / FRAME_PAGE_SIZE as int + count
                ==> #[trigger] page_used(old(self)@, p) && !is_backing(old(self).level2_start, p),
        ensures
            final(self).wf(),
            final(self).level2_start == old(self).level2_start,
            final(self).used_idxs_end == old(self).used_idxs_end,
            final(self).initialized == old(self).initialized,
            shrinks_with(old(self)@, final(self)@, old(self).level2_start, page@ - HH_START as int / FRAME_PAGE_SIZE as int, count as int),
    {
        let ghost v0 = self@;
        let ghost ls = self.level2_start;
        let ghost ue = self.used_idxs_end;
        let ghost s = page@ - HH_START as int / FRAME_PAGE_SIZE as int;
        proof {
            self.lemma_shape();
            assert(shrinks_with(v0, v0, ls, s, 0)) by {
                assert forall|q: int| #[trigger] page_used(v0, q) <==> page_used(v0, q) && !(s <= q < s + 0) && !newly_unbacked(v0, v0, ls, q) by {}
            }
        }
        let mut offset: usize = 0;
        while offset < count
            invariant
                self.wf(),
                self.initialized,
                self.level2_start == ls,
                self.used_idxs_end == ue,
                v0.len() == LEVEL1_LEN,
                offset <= count,
                0 <= s,
                s + count <= total_pages(),
                page@ == s + HH_START as int / FRAME_PAGE_SIZE as int,
                forall|p: int| s <= p < s + count ==> #[trigger] page_used(v0, p) && !is_backing(ls, p),
                shrinks_with(v0, self@, ls, s, offset as int),
            decreases count - offset,
        {
            let ghost vb = self@;
            proof {
                self.lemma_shape();
                assert(page_used(v0, s + offset));
                assert(page_used(vb, s + offset));
                lemma_free_step(v0, vb, ls, s, offset as int);
            }
            let page_at_offset = Page::from_virt_addr(page.addr() + offset as u64 * FRAME_PAGE_SIZE).unwrap();
            let (l1_idx, l2_idx) = self.addr_to_bit_idxs(page_at_offset.addr());
            assert(l1_idx * LEVEL2_BITS + l2_idx == s + offset);
            self.set_page(l1_idx, l2_idx, false);
            assert(self@ =~= mark_free(vb, s + offset));
            let ghost vc = self@;
            let empty = match &self.l1[l1_idx] {
                Some(b) => b.zeroed(),
                None => false,
            };
            if empty {
                self.deallocate_level2_bitmap(l1_idx);
                proof {
                    lemma_shrinks_trans(v0, vc, self@, ls, s, offset + 1, l1_idx as int);
                }
            } else {
                assert(shrinks_with(v0, vc, ls, s, offset + 1)) by {
                    assert forall|j: int| 0 <= j < v0.len() && (#[trigger] vc[j]) is Some && vc[j] != v0[j] implies some_used(vc[j]->0) by {
                        if j == l1_idx {
                            let b = vc[j]->0;
                            let i = choose|i: int| 0 <= i < b.len() && b[i];
                            assert(b[i]);
                        }
                    }
                }
            }
            offset = offset + 1;
        }
    }

    /// An allocator with no level 2 bitmap, not initialized yet.
    fn new() -> (r: Self)
        ensures
            r.wf(),
            !r.initialized,
            forall|j: int| 0 <= j < LEVEL1_LEN ==> #[trigger] r@[j] is None,
            r.used_idxs_end == (0usize, 0usize),
            r.level2_start == HH_START,
    {
        let mut l1: Vec<Option<Bitmap<LEVEL2_BYTES>>> = Vec::new();
        let mut i: usize = 0;
        while i < LEVEL1_LEN
            invariant
                i <= LEVEL1_LEN,
                l1@.len() == i,
                forall|j: int| 0 <= j < i ==> #[trigger] l1@[j] is None,
            decreases LEVEL1_LEN - i,
        {
            l1.push(None);
            i = i + 1;
        }
        assert(HH_START % 16384 == 0);
        let r = BitmapPageAllocatorInner { l1, used_idxs_end: (0, 0), initialized: false, level2_start: HH_START };
        assert forall|p: int| is_backing(HH_START, p) && (#[trigger] r@[backing_owner(HH_START, p)]) is Some implies page_used(r@, p) by {
            assert(r.l1@[backing_owner(HH_START, p)] is None);
        }
        r
    }

    /// Mark the memory below `level2_start` (the kernel, the multiboot2 information and the frame allocator)
    /// as allocated, with the level 2 bitmaps that this needs, whose memory starts at `level2_start`.
    fn init(&mut self, level2_start: VirtualAddress)
        requires
            old(self).wf(),
            !old(self).initialized,
            forall|j: int| 0 <= j < LEVEL1_LEN ==> #[trigger] old(self)@[j] is None,
            valid_level2_start(level2_start),
            first_backing_page(level2_start) <= LEVEL2_BITS || first_backing_page(level2_start) % LEVEL2_BITS as int == 0,
        ensures
            final(self).wf(),
            final(self).initialized,
            final(self).level2_start == level2_start,
            search_start(final(self).used_idxs_end) == first_backing_page(level2_start) + LEVEL1_LEN * LEVEL2_PAGES,
            grows_with(old(self)@, final(self)@, level2_start, 0, first_backing_page(level2_start)),
            forall|j: int| 0 <= j < LEVEL1_LEN && j * LEVEL2_BITS < first_backing_page(level2_start) ==> #[trigger] final(self)@[j] is Some,
    {
        let ghost v0 = self@;
        proof {
            self.lemma_shape();
            assert forall|p: int| is_backing(level2_start, p) && (#[trigger] v0[backing_owner(level2_start, p)]) is Some
                implies page_used(v0, p) by {}
        }
        self.level2_start = level2_start;
        let ghost ls = level2_start;

        // the amount of bytes currently "allocated" in the higher half
        let allocated_size = level2_start - HH_START;
        let allocated_size_in_pages = allocated_size / FRAME_PAGE_SIZE;
        proof {
            assert(is_power_of_two(LEVEL2_BITS as u64)) by {
                vstd::arithmetic::power2::lemma2_to64();
                assert(pow2(17) == 131072);
            }
        }
        let level2_bitmap_count = allocated_size_in_pages.align_up(LEVEL2_BITS as u64) / LEVEL2_BITS as u64;
        let ghost pages = first_backing_page(ls);
        assert(allocated_size_in_pages == pages);
        assert(level2_bitmap_count <= LEVEL1_LEN) by {
            assert(pages <= total_pages());
        }

        // allocate all the necessary level2 bitmaps
        let mut bitmap_idx: usize = 0;
        proof {
            assert forall|p: int| #[trigger] page_used(self@, p) <==> page_used(v0, p) || newly_backed(v0, self@, ls, p) by {}
        }
        while (bitmap_idx as u64) < level2_bitmap_count
            invariant
                self.wf(),
                !self.initialized,
                self.level2_start == ls,
                valid_level2_start(ls),
                v0.len() == LEVEL1_LEN,
                forall|j: int| 0 <= j < LEVEL1_LEN ==> #[trigger] v0[j] is None,
                level2_bitmap_count <= LEVEL1_LEN,
                bitmap_idx <= level2_bitmap_count,
                pages == first_backing_page(ls),
                pages <= LEVEL2_BITS || pages % LEVEL2_BITS as int == 0,
                level2_bitmap_count == align_up_spec(pages, LEVEL2_BITS as int) / LEVEL2_BITS as int,
                grows(v0, self@, ls),
                forall|j: int| 0 <= j < bitmap_idx ==> #[trigger] self@[j] is Some,
                forall|j: int| bitmap_idx <= j < level2_bitmap_count ==> #[trigger] self@[j] is None,
            decreases level2_bitmap_count - bitmap_idx,
        {
            let ghost vb = self@;
            self.allocate_level2_bitmap(bitmap_idx);
            proof {
                lemma_grows_trans(v0, vb, self@, ls);
                assert forall|j: int| 0 <= j < bitmap_idx + 1 implies #[trigger] self@[j] is Some by {
                    if j < bitmap_idx {
                        assert(vb[j] is Some);
                    }
                }
                assert forall|j: int| bitmap_idx < j < level2_bitmap_count implies #[trigger] self@[j] is None by {
                    if self@[j] is Some {
                        assert(vb[j] is None);
                        assert(chain_side(ls, bitmap_idx as int, j));
                        assert(parent_of(ls, bitmap_idx as int) >= level2_bitmap_count) by {
                            if pages % LEVEL2_BITS as int == 0 {
                                vstd::arithmetic::div_mod::lemma_div_is_ordered(pages, pages + LEVEL2_PAGES * bitmap_idx, LEVEL2_BITS as int);
                            }
                        }
                    }
                }
            }
            bitmap_idx = bitmap_idx + 1;
        }

        // mark the kernel, the multiboot2 and the frame allocator memory regions as allocated
        let mut page_idx: u64 = 0;
        proof {
            assert forall|j: int| 0 <= j < LEVEL1_LEN && j * LEVEL2_BITS < pages implies #[trigger] self@[j] is Some by {
                assert(j < level2_bitmap_count) by (nonlinear_arith)
                    requires
                        j * 131072 < pages,
                        level2_bitmap_count == align_up_spec(pages, 131072) / 131072,
                        pages >= 0,
                ;
            }
            assert forall|p: int| #[trigger] page_used(self@, p) <==> page_used(v0, p) || (0 <= p < 0) || newly_backed(v0, self@, ls, p) by {}
        }
        while page_idx < allocated_size_in_pages
            invariant
                self.wf(),
                !self.initialized,
                self.level2_start == ls,
                valid_level2_start(ls),
                v0.len() == LEVEL1_LEN,
                pages == first_backing_page(ls),
                allocated_size_in_pages == pages,
                page_idx <= pages,
                forall|j: int| 0 <= j < LEVEL1_LEN && j * LEVEL2_BITS < pages ==> #[trigger] self@[j] is Some,
                grows_with(v0, self@, ls, 0, page_idx as int),
            decreases pages - page_idx,
        {
            let ghost vb = self@;
            proof {
                assert(pages <= total_pages());
                self.lemma_shape();
                assert(grows(vb, vb, ls));
                let j = page_idx as int / LEVEL2_BITS as int;
                assert(j * LEVEL2_BITS <= page_idx);
                assert(self@[j] is Some);
                lemma_mark_step(v0, vb, vb, ls, 0, page_idx as int);
            }
            let (l1_idx, l2_idx) = self.page_idx_to_bit_idxs(page_idx);
            self.set_page(l1_idx, l2_idx, true);
            assert(self@ =~= mark_used(vb, page_idx as int));
            page_idx = page_idx + 1;
        }

        let idxs = self.addr_to_bit_idxs(self.level2_bitmap_addr(LEVEL1_LEN - 1));
        proof {
            lemma_backing_pages(ls, LEVEL1_LEN - 1);
        }
        self.used_idxs_end = (idxs.0, idxs.1 + LEVEL2_PAGES - 1);
        self.initialized = true;
    }

    /// Search, from the end of the memory used at initialization on, the first block of `count`
    /// contiguous free pages; its first page as l1 and l2 indexes.
    fn find_block(&self, count: usize) -> (r: Option<(usize, usize)>)
        requires
            self.wf(),
            self.initialized,
            count > 0,
        ensures
            r is None <==> !fits_somewhere(self@, search_start(self.used_idxs_end), count as int),
            r matches Some(idxs) ==> {
                &&& idxs.0 < LEVEL1_LEN
                &&& idxs.1 <= LEVEL2_BITS
                &&& idxs.1 < LEVEL2_BITS || (idxs.0 * LEVEL2_BITS + idxs.1 == search_start(self.used_idxs_end) && self@[idxs.0 as int] is None)
                &&& is_first_fit(self@, search_start(self.used_idxs_end), count as int, idxs.0 * LEVEL2_BITS + idxs.1)
            },
    {
        let ghost v = self@;
        let ghost from = search_start(self.used_idxs_end);
        proof {
            self.lemma_shape();
        }
        let mut consecutive_free_count: u64 = 0;
        let mut start_of_block_idxs: Option<(usize, usize)> = None;
        let mut found = false;
        let mut l1_idx: usize = self.used_idxs_end.0;
        while l1_idx < self.l1.len()
            invariant_except_break
                self.wf(),
                self.initialized,
                self@ == v,
                from == search_start(self.used_idxs_end),
                consecutive_free_count <= total_pages(),
                self.used_idxs_end.0 <= l1_idx <= LEVEL1_LEN,
                !found,
                consecutive_free_count < count,
                block_scan(v, from, count as int, scan_pos(from, self.used_idxs_end.0 as int, l1_idx as int), consecutive_free_count as int, start_of_block_idxs),
            ensures
                found ==> (start_of_block_idxs matches Some(idxs) && idxs.0 < LEVEL1_LEN && idxs.1 <= LEVEL2_BITS
                    && (idxs.1 < LEVEL2_BITS || (idxs.0 * LEVEL2_BITS + idxs.1 == from && v[idxs.0 as int] is None))
                    && is_first_fit(v, from, count as int, idxs.0 * LEVEL2_BITS + idxs.1)),
                !found ==> forall|s2: int| from <= s2 ==> !#[trigger] window_free(v, s2, count as int),
            decreases LEVEL1_LEN - l1_idx,
        {
            let ghost q = scan_pos(from, self.used_idxs_end.0 as int, l1_idx as int);
            let level2_bitmap_offset = if self.used_idxs_end.0 == l1_idx {
                self.used_idxs_end.1 + 1
            } else {
                0
            };
            assert(q == l1_idx * LEVEL2_BITS + level2_bitmap_offset);
            match &self.l1[l1_idx] {
                // this l2 bitmap hasn't been allocated yet
                None => {
                    let ghost start_before = start_of_block_idxs;
                    let ghost cons_before = consecutive_free_count as int;
                    if start_of_block_idxs.is_none() {
                        start_of_block_idxs = Some((l1_idx, level2_bitmap_offset));
                    }
                    consecutive_free_count = consecutive_free_count + (LEVEL2_BITS - level2_bitmap_offset) as u64;
                    proof {
                        if level2_bitmap_offset < LEVEL2_BITS {
                            lemma_scan_free(v, from, count as int, q, (l1_idx + 1) * LEVEL2_BITS, cons_before,
                                start_before, start_of_block_idxs);
                        } else {
                            assert(block_scan(v, from, count as int, (l1_idx + 1) * LEVEL2_BITS, consecutive_free_count as int,
                                start_of_block_idxs));
                        }
                    }
                    if consecutive_free_count >= count as u64 {
                        found = true;
                        break;
                    }
                },
                // this l2 bitmap is mapped, so we need to inspect the bits
                Some(l2_bitmap) => {
                    let mut l2_idx: usize = level2_bitmap_offset;
                    while l2_idx < LEVEL2_BITS
                        invariant_except_break
                            v.len() == LEVEL1_LEN,
                            l1_idx < LEVEL1_LEN,
                            v[l1_idx as int] == Some(l2_bitmap@),
                            l2_bitmap@.len() == LEVEL2_BITS,
                            level2_bitmap_offset <= l2_idx <= LEVEL2_BITS,
                            !found,
                            consecutive_free_count < count,
                            consecutive_free_count <= total_pages(),
                            block_scan(v, from, count as int, l1_idx * LEVEL2_BITS + l2_idx, consecutive_free_count as int, start_of_block_idxs),
                        ensures
                            found ==> (start_of_block_idxs matches Some(idxs) && idxs.0 < LEVEL1_LEN && idxs.1 <= LEVEL2_BITS
                                && (idxs.1 < LEVEL2_BITS || (idxs.0 * LEVEL2_BITS + idxs.1 == from && v[idxs.0 as int] is None))
                                && is_first_fit(v, from, count as int, idxs.0 * LEVEL2_BITS + idxs.1)),
                            !found ==> block_scan(v, from, count as int, (l1_idx + 1) * LEVEL2_BITS, consecutive_free_count as int, start_of_block_idxs),
                            !found ==> consecutive_free_count < count,
                        decreases LEVEL2_BITS - l2_idx,
                    {
                        let ghost p = l1_idx * LEVEL2_BITS + l2_idx;
                        // check if the page is free
                        if !l2_bitmap.get(l2_idx).unwrap() {
                            assert(!page_used(v, p));
                            let ghost start_before = start_of_block_idxs;
                            let ghost cons_before = consecutive_free_count as int;
                            if start_of_block_idxs.is_none() {
                                start_of_block_idxs = Some((l1_idx, l2_idx));
                            }
                            consecutive_free_count = consecutive_free_count + 1;
                            proof {
                                lemma_scan_free(v, from, count as int, p, p + 1, cons_before, start_before, start_of_block_idxs);
                            }
                            if consecutive_free_count >= count as u64 {
                                found = true;
                                break;
                            }
                        } else {
                            // the page is used so, the contiguous block is broken
                            assert(page_used(v, p));
                            let ghost start_before_used = start_of_block_idxs;
                            let ghost cons_before_used = consecutive_free_count as int;
                            consecutive_free_count = 0;
                            start_of_block_idxs = None;
                            proof {
                                lemma_scan_used(v, from, count as int, p, cons_before_used, start_before_used);
                            }
                        }
                        l2_idx = l2_idx + 1;
                    }
                    if found {
                        break;
                    }
                },
            }
            l1_idx = l1_idx + 1;
        }
        if found {
            start_of_block_idxs
        } else {
            None
        }
    }

    /// Allocate `count` contiguous pages: the first block of that many free pages after the memory used at
    /// initialization, creating the level 2 bitmaps that the block needs.
    fn allocate_contiguous(&mut self, count: usize) -> (r: Result<Page, MemoryError>)
        requires
            old(self).wf(),
            old(self).initialized,
            count > 0,
            !(old(self)@[old(self).used_idxs_end.0 as int] is None && old(self).used_idxs_end.1 + 1 == LEVEL2_BITS
                && window_free(old(self)@, search_start(old(self).used_idxs_end), count as int)),
        ensures
            final(self).wf(),
            final(self).level2_start == old(self).level2_start,
            final(self).used_idxs_end == old(self).used_idxs_end,
            final(self).initialized == old(self).initialized,
            r is Ok <==> fits_somewhere(old(self)@, search_start(old(self).used_idxs_end), count as int),
            r matches Ok(page) ==> {
                let s = page@ - HH_START as int / FRAME_PAGE_SIZE as int;
                &&& is_first_fit(old(self)@, search_start(old(self).used_idxs_end), count as int, s)
                &&& grows_with(old(self)@, final(self)@, old(self).level2_start, s, count as int)
            },
            r is Err ==> r == Err::<Page, MemoryError>(MemoryError::NotEnoughVirMemory) && final(self)@ == old(self)@,
    {
        let ghost v0 = self@;
        let ghost ls = self.level2_start;
        let ghost ue = self.used_idxs_end;
        let found = self.find_block(count);
        let start_of_block_idxs = match found {
            // a block large enough was not found
            None => {
                return Err(MemoryError::NotEnoughVirMemory);
            },
            Some(idxs) => idxs,
        };
        let ghost s = start_of_block_idxs.0 * LEVEL2_BITS + start_of_block_idxs.1;
        assert(start_of_block_idxs.1 < LEVEL2_BITS) by {
            if start_of_block_idxs.1 == LEVEL2_BITS {
                let a = start_of_block_idxs.0 as int;
                assert(s == search_start(ue));
                assert(a == ue.0 && ue.1 + 1 == LEVEL2_BITS) by (nonlinear_arith)
                    requires
                        a * 131072 + 131072 == ue.0 * 131072 + ue.1 + 1,
                        ue.1 < 131072,
                ;
            }
        }
        let (mut current_l1_idx, mut current_l2_idx) = start_of_block_idxs;

        // mark the `count` pages as used
        let mut i: usize = 0;
        proof {
            assert forall|p: int| #[trigger] page_used(self@, p) <==> page_used(v0, p) || (s <= p < s + 0) || newly_backed(v0, self@, ls, p) by {}
        }
        while i < count
            invariant
                self.wf(),
                self.initialized,
                self.level2_start == ls,
                self.used_idxs_end == ue,
                v0.len() == LEVEL1_LEN,
                i <= count,
                window_free(v0, s, count as int),
                current_l1_idx * LEVEL2_BITS + current_l2_idx == s + i,
                current_l2_idx < LEVEL2_BITS,
                grows_with(v0, self@, ls, s, i as int),
            decreases count - i,
        {
            let ghost vb = self@;
            if self.l1[current_l1_idx].is_none() {
                self.allocate_level2_bitmap(current_l1_idx);
            } else {
                proof {
                    assert(grows(vb, vb, ls));
                }
            }
            let ghost va = self@;
            proof {
                self.lemma_shape();
                lemma_mark_step(v0, vb, va, ls, s, i as int);
            }
            // set the page as used
            self.set_page(current_l1_idx, current_l2_idx, true);
            assert(self@ =~= mark_used(va, s + i));

            // go to the next page index
            current_l2_idx = current_l2_idx + 1;
            if current_l2_idx == LEVEL2_BITS {
                current_l2_idx = 0;
                current_l1_idx = current_l1_idx + 1;
            }
            i = i + 1;
        }
        let start_addr = self.bit_idxs_to_addr(start_of_block_idxs);
        proof {
            assert(start_addr == HH_START + s * 4096);
            assert(start_addr / 4096 == HH_START / 4096 + s);
        }
        Page::from_virt_addr(start_addr)
    }
}

/// The permanent page allocator: the higher half, page by page, in a two level bitmap. The level 2
/// bitmaps are created when a page they track is allocated and dropped when they become empty; their
/// own pages lie in the higher half too, from a start address given at initialization, and are marked
/// as used. The allocator holds the bitmaps itself: it does not map or unmap those pages in a paging
/// context.
pub struct BitmapPageAllocator(BitmapPageAllocatorInner);

impl View for BitmapPageAllocator {
    type V = Seq<Option<Seq<bool>>>;

    /// Each level 2 bitmap, if it exists, as its bits.
    closed spec fn view(&self) -> Seq<Option<Seq<bool>>> {
        self.0@
    }
}

impl BitmapPageAllocator {
    /// The allocator's state is consistent: bitmap sizes, the memory of every bitmap marked as used, and,
    /// before initialization, no bitmap at all.
    pub closed spec fn wf(&self) -> bool {
        &&& self.0.wf()
        &&& !self.0.initialized ==> forall|j: int| 0 <= j < LEVEL1_LEN ==> #[trigger] self.0@[j] is None
    }

    /// [BitmapPageAllocator::init] was called.
    pub closed spec fn is_initialized(&self) -> bool {
        self.0.initialized
    }

    /// Where the memory of the level 2 bitmaps starts.
    pub closed spec fn level2_start(&self) -> u64 {
        self.0.level2_start
    }

    /// The page index (counted from [HH_START]) where searches for free pages start.
    pub closed spec fn search_from(&self) -> int {
        search_start(self.0.used_idxs_end)
    }

    /// The search for `count` free pages starts right after the last bit of a level 2 bitmap that does not
    /// exist, and the block starts right there: the block's first page would be recorded one bit past the
    /// end of that bitmap, which cannot be marked.
    pub closed spec fn block_at_missing_bitmap_end(&self, count: int) -> bool {
        &&& self.0@[self.0.used_idxs_end.0 as int] is None
        &&& self.0.used_idxs_end.1 + 1 == LEVEL2_BITS
        &&& window_free(self@, self.search_from(), count)
    }

    /// A page allocator with nothing allocated, to be initialized.
    pub fn new() -> (r: Self)
        ensures
            r.wf(),
            !r.is_initialized(),
            r@.len() == LEVEL1_LEN,
            forall|j: int| 0 <= j < LEVEL1_LEN ==> #[trigger] r@[j] is None,
            forall|p: int| !#[trigger] page_used(r@, p),
            r.level2_start() == HH_START,
            r.search_from() == search_start((0usize, 0usize)),
    {
        let inner = BitmapPageAllocatorInner::new();
        proof {
            inner.lemma_shape();
        }
        BitmapPageAllocator(inner)
    }

    /// Get the address where the first level 2 bitmap will start: after the memory of the frame allocator,
    /// which starts at `fa_hh_start`, aligned to the size of a level 2 bitmap.
    pub fn level2_bitmaps_start_addr(fa_hh_start: VirtualAddress, metadata: Option<ProhibitedMemoryRange>) -> (r: VirtualAddress)
        requires
            metadata matches Some(m) ==> m.start() <= m.end(),
            fa_hh_start + (match metadata {
                Some(m) => m.end() - m.start() + 1,
                None => 0,
            }) + LEVEL2_BYTES - 1 <= u64::MAX,
        ensures
            r == align_up_spec(
                fa_hh_start + (match metadata {
                    Some(m) => m.end() - m.start() + 1,
                    None => 0,
                }),
                LEVEL2_BYTES as int,
            ),
    {
        let len = match metadata {
            Some(m) => m.length(),
            None => 0,
        };
        proof {
            vstd::arithmetic::power2::lemma2_to64();
            assert(pow2(14) == 16384);
            assert(is_power_of_two(LEVEL2_BYTES as u64));
        }
        (fa_hh_start + len).align_up(LEVEL2_BYTES as u64)
    }

    /// Resets the page allocator state: the memory below `level2_start` (the kernel, the multiboot2
    /// information and the frame allocator, from [HH_START] on) is marked as allocated, with the level 2
    /// bitmaps that this needs, whose own memory is marked too.
    ///
    /// The level 2 bitmaps are made in order, each with the one that tracks its memory. `level2_start`
    /// must not make that one a later bitmap of those the used memory needs: it would then be made twice.
    /// This holds when the used memory fills at most one level 2 bitmap or a whole number of them.
    pub fn init(&mut self, level2_start: VirtualAddress)
        requires
            old(self).wf(),
            !old(self).is_initialized(),
            valid_level2_start(level2_start),
            first_backing_page(level2_start) <= LEVEL2_BITS || first_backing_page(level2_start) % LEVEL2_BITS as int == 0,
        ensures
            final(self).wf(),
            final(self).is_initialized(),
            final(self).level2_start() == level2_start,
            final(self).search_from() == first_backing_page(level2_start) + LEVEL1_LEN * LEVEL2_PAGES,
            forall|p: int| #[trigger] page_used(final(self)@, p) <==> (0 <= p < first_backing_page(level2_start))
                || (is_backing(level2_start, p) && final(self)@[backing_owner(level2_start, p)] is Some),
            forall|j: int| 0 <= j < LEVEL1_LEN && j * LEVEL2_BITS < first_backing_page(level2_start) ==> #[trigger] final(self)@[j] is Some,
    {
        let ghost v0 = self@;
        self.0.init(level2_start);
        proof {
            assert forall|p: int| #[trigger] page_used(self@, p) <==> (0 <= p < first_backing_page(level2_start))
                || (is_backing(level2_start, p) && self@[backing_owner(level2_start, p)] is Some) by {
                assert(!page_used(v0, p));
                if is_backing(level2_start, p) {
                    assert(v0[backing_owner(level2_start, p)] is None);
                }
            }
        }
    }

    /// Allocate a single page.
    pub fn allocate(&mut self) -> (r: Result<Page, MemoryError>)
        requires
            old(self).wf(),
            old(self).is_initialized(),
            !old(self).block_at_missing_bitmap_end(1),
        ensures
            final(self).wf(),
            final(self).is_initialized(),
            final(self).level2_start() == old(self).level2_start(),
            final(self).search_from() == old(self).search_from(),
            r is Ok <==> fits_somewhere(old(self)@, old(self).search_from(), 1),
            r matches Ok(page) ==> {
                let s = page@ - HH_START as int / FRAME_PAGE_SIZE as int;
                &&& is_first_fit(old(self)@, old(self).search_from(), 1, s)
                &&& grows_with(old(self)@, final(self)@, old(self).level2_start(), s, 1)
            },
            r is Err ==> r == Err::<Page, MemoryError>(MemoryError::NotEnoughVirMemory) && final(self)@ == old(self)@,
    {
        self.allocate_contiguous(1)
    }

    /// Allocate `count` contiguous pages: the lowest block of `count` free pages after the memory of the
    /// level 2 bitmaps. Returns its first page.
    pub fn allocate_contiguous(&mut self, count: usize) -> (r: Result<Page, MemoryError>)
        requires
            old(self).wf(),
            old(self).is_initialized(),
            count > 0,
            !old(self).block_at_missing_bitmap_end(count as int),
        ensures
            final(self).wf(),
            final(self).is_initialized(),
            final(self).level2_start() == old(self).level2_start(),
            final(self).search_from() == old(self).search_from(),
            r is Ok <==> fits_somewhere(old(self)@, old(self).search_from(), count as int),
            r matches Ok(page) ==> {
                let s = page@ - HH_START as int / FRAME_PAGE_SIZE as int;
                &&& is_first_fit(old(self)@, old(self).search_from(), count as int, s)
                &&& grows_with(old(self)@, final(self)@, old(self).level2_start(), s, count as int)
            },
            r is Err ==> r == Err::<Page, MemoryError>(MemoryError::NotEnoughVirMemory) && final(self)@ == old(self)@,
    {
        self.0.allocate_contiguous(count)
    }

    /// Deallocates `page`, which must be in use and not hold the memory of a level 2 bitmap.
    pub fn deallocate(&mut self, page: Page)
        requires
            old(self).wf(),
            old(self).is_initialized(),
            HH_START as int / FRAME_PAGE_SIZE as int <= page@,
            page@ - HH_START as int / FRAME_PAGE_SIZE as int + 1 <= total_pages(),
            page_used(old(self)@, page@ - HH_START as int / FRAME_PAGE_SIZE as int),
            !is_backing(old(self).level2_start(), page@ - HH_START as int / FRAME_PAGE_SIZE as int),
        ensures
            final(self).wf(),
            final(self).is_initialized(),
            final(self).level2_start() == old(self).level2_start(),
            final(self).search_from() == old(self).search_from(),
            shrinks_with(old(self)@, final(self)@, old(self).level2_start(), page@ - HH_START as int / FRAME_PAGE_SIZE as int, 1),
    {
        let ghost s = page@ - HH_START as int / FRAME_PAGE_SIZE as int;
        assert forall|p: int| s <= p < s + 1 implies #[trigger] page_used(old(self)@, p) && !is_backing(old(self).level2_start(), p) by {
            assert(p == s);
        }
        self.deallocate_contiguous(page, 1)
    }

    /// Deallocates `count` pages starting at `page`, which must be in use and not hold the memory of a
    /// level 2 bitmap; level 2 bitmaps left empty are dropped.
    pub fn deallocate_contiguous(&mut self, page: Page, count: usize)
        requires
            old(self).wf(),
            old(self).is_initialized(),
            count > 0,
            HH_START as int / FRAME_PAGE_SIZE as int <= page@,
            page@ - HH_START as int / FRAME_PAGE_SIZE as int + count <= total_pages(),
            forall|p: int| page@ - HH_START as int / FRAME_PAGE_SIZE as int <= p < page@ - HH_START as int / FRAME_PAGE_SIZE as int + count
                ==> #[trigger] page_used(old(self)@, p) && !is_backing(old(self).level2_start(), p),
        ensures
            final(self).wf(),
            final(self).is_initialized(),
            final(self).level2_start() == old(self).level2_start(),
            final(self).search_from() == old(self).search_from(),
            shrinks_with(old(self)@, final(self)@, old(self).level2_start(), page@ - HH_START as int / FRAME_PAGE_SIZE as int, count as int),
    {
        let ghost s = page@ - HH_START as int / FRAME_PAGE_SIZE as int;
        assert forall|p: int| s <= p < s + count implies #[trigger] page_used(old(self).0@, p) && !is_backing(old(self).0.level2_start, p) by {
            assert(page_used(old(self)@, p));
        }
        self.0.deallocate_contiguous(page, count)
    }
}

} // verus!
