//! The unicode mapping table of a PC Screen Font, shared by PSF1 (16 bit units) and PSF2 (bytes).
//!
//! The table holds one record per glyph, each ended by the `END_REC` unit. A record lists
//! the characters that the glyph draws: first single characters, then sequences, each
//! introduced by the `START_SEQ` unit.
use vstd::prelude::*;

verus! {

/// A unit of a unicode mapping table.
pub trait TableUnit: Copy + Sized {
    /// The unit that introduces a sequence.
    spec fn start_seq() -> Self;

    /// The unit that ends a record.
    spec fn end_rec() -> Self;

    /// How many units a single character that starts with `self` takes (`None` when `self` cannot start one).
    spec fn entry_len(self) -> Option<nat>;

    fn exec_start_seq() -> (r: Self)
        ensures
            r == Self::start_seq(),
    ;

    fn exec_end_rec() -> (r: Self)
        ensures
            r == Self::end_rec(),
    ;

    fn exec_entry_len(&self) -> (r: Option<usize>)
        ensures
            r matches Some(n) ==> self.entry_len() == Some(n as nat) && 1 <= n <= 4,
            r is None ==> self.entry_len() is None,
    ;

    fn same(&self, other: &Self) -> (r: bool)
        ensures
            r == (*self == *other),
    ;
}

/// What scanning a record for a character found.
#[derive(PartialEq, Eq, Structural, Clone, Copy)]
pub enum ScanOutcome {
    /// The record lists the character.
    Match,
    /// The record does not list it.
    NoMatch,
    /// A single character of the record is not well formed (before any match).
    Malformed,
}

/// The first index in `lo..hi` where `t` holds `x`, or `hi`.
pub open spec fn find_in<T>(t: Seq<T>, x: T, lo: int, hi: int) -> int
    decreases hi - lo,
{
    if lo >= hi {
        hi
    } else if t[lo] == x {
        lo
    } else {
        find_in(t, x, lo + 1, hi)
    }
}

pub proof fn lemma_find_in<T>(t: Seq<T>, x: T, lo: int, hi: int)
    requires
        lo <= hi,
    ensures
        lo <= find_in(t, x, lo, hi) <= hi,
        forall|k: int| lo <= k < find_in(t, x, lo, hi) ==> t[k] != x,
        find_in(t, x, lo, hi) < hi ==> t[find_in(t, x, lo, hi)] == x,
    decreases hi - lo,
{
    if lo < hi && t[lo] != x {
        lemma_find_in(t, x, lo + 1, hi);
    }
}

/// Scanning the record `t[p..hi]` for `chr` from position `p`, `in_sequences` telling whether a
/// `START_SEQ` was met: outside sequences each entry is one single character; after a `START_SEQ`,
/// each entry runs up to the next `START_SEQ` (or the end of the record).
pub open spec fn scan_record<T: TableUnit>(t: Seq<T>, chr: Seq<T>, p: int, hi: int, in_sequences: bool) -> ScanOutcome
    decreases hi - p,
{
    if p >= hi {
        ScanOutcome::NoMatch
    } else if t[p] == T::start_seq() {
        scan_record(t, chr, p + 1, hi, true)
    } else if !in_sequences {
        match t[p].entry_len() {
            None => ScanOutcome::Malformed,
            Some(n) => if p + n > hi {
                ScanOutcome::Malformed
            } else if t.subrange(p, p + n) == chr {
                ScanOutcome::Match
            } else if n == 0 {
                ScanOutcome::Malformed
            } else {
                scan_record(t, chr, p + n, hi, false)
            },
        }
    } else {
        let b = find_in(t, T::start_seq(), p, hi);
        proof {
            lemma_find_in(t, T::start_seq(), p, hi);
        }
        if t.subrange(p, b) == chr {
            ScanOutcome::Match
        } else if b <= p {
            ScanOutcome::NoMatch
        } else {
            scan_record(t, chr, b, hi, true)
        }
    }
}

/// The index of the first record of `t[pos..]` that lists `chr`, counting from `i`; `None` when
/// no record lists it or a malformed single character comes first.
pub open spec fn scan_table<T: TableUnit>(t: Seq<T>, chr: Seq<T>, pos: int, i: int) -> Option<int>
    decreases t.len() - pos,
{
    if pos < 0 || pos > t.len() {
        None
    } else {
        let hi = find_in(t, T::end_rec(), pos, t.len() as int);
        match scan_record(t, chr, pos, hi, false) {
            ScanOutcome::Match => Some(i),
            ScanOutcome::Malformed => None,
            ScanOutcome::NoMatch => if hi >= t.len() || hi < pos {
                None
            } else {
                scan_table(t, chr, hi + 1, i + 1)
            },
        }
    }
}

/// Where record `k` of the table `t` starts: each record is ended by the `END_REC` unit.
pub open spec fn rec_start<T: TableUnit>(t: Seq<T>, k: nat) -> int
    decreases k,
{
    if k == 0 {
        0
    } else {
        find_in(t, T::end_rec(), rec_start(t, (k - 1) as nat), t.len() as int) + 1
    }
}

/// Where record `k` of `t` ends: at its `END_REC` unit, or at the end of the table.
pub open spec fn rec_end<T: TableUnit>(t: Seq<T>, k: nat) -> int {
    find_in(t, T::end_rec(), rec_start(t, k), t.len() as int)
}

/// What record `k` of `t` says of `chr`: it lists it, it does not, or a single character of it is
/// malformed.
pub open spec fn record_scan<T: TableUnit>(t: Seq<T>, chr: Seq<T>, k: nat) -> ScanOutcome {
    scan_record(t, chr, rec_start(t, k), rec_end(t, k), false)
}

/// Record `k` is the first record of `t` that lists `chr`: the records before it are whole (ended by
/// `END_REC`), well formed and do not list it.
pub open spec fn first_listing<T: TableUnit>(t: Seq<T>, chr: Seq<T>, k: nat) -> bool {
    &&& rec_start(t, k) <= t.len()
    &&& record_scan(t, chr, k) == ScanOutcome::Match
    &&& forall|j: nat| j < k ==> #[trigger] record_scan(t, chr, j) == ScanOutcome::NoMatch && rec_end(t, j) < t.len()
}

/// From record `i` on, the scan finds record `k` exactly when `k` is the first record from `i` on that
/// lists `chr`.
proof fn lemma_scan_from<T: TableUnit>(t: Seq<T>, chr: Seq<T>, i: nat, k: nat)
    ensures
        scan_table(t, chr, rec_start(t, i), i as int) == Some(k as int) <==> {
            &&& i <= k
            &&& rec_start(t, k) <= t.len()
            &&& record_scan(t, chr, k) == ScanOutcome::Match
            &&& forall|j: nat| i <= j < k ==> #[trigger] record_scan(t, chr, j) == ScanOutcome::NoMatch && rec_end(t, j) < t.len()
        },
    decreases t.len() - rec_start(t, i) + 1,
{
    let pos = rec_start(t, i);
    lemma_rec_start_nonneg(t, i);
    if pos <= t.len() {
        let hi = rec_end(t, i);
        lemma_find_in(t, T::end_rec(), pos, t.len() as int);
        assert(rec_start(t, i + 1) == hi + 1);
        match record_scan(t, chr, i) {
            ScanOutcome::Match => {
                if k > i {
                    assert(record_scan(t, chr, i) != ScanOutcome::NoMatch);
                }
            },
            ScanOutcome::Malformed => {
                if k > i {
                    assert(record_scan(t, chr, i) != ScanOutcome::NoMatch);
                }
            },
            ScanOutcome::NoMatch => {
                if hi >= t.len() {
                    if k > i {
                        assert(!(rec_end(t, i) < t.len()));
                    }
                } else {
                    lemma_scan_from(t, chr, i + 1, k);
                    if k > i {
                        assert((forall|j: nat| i <= j < k ==> #[trigger] record_scan(t, chr, j) == ScanOutcome::NoMatch
                            && rec_end(t, j) < t.len()) <==> (forall|j: nat| i + 1 <= j < k ==> #[trigger] record_scan(t, chr, j)
                            == ScanOutcome::NoMatch && rec_end(t, j) < t.len())) by {
                            if forall|j: nat| i + 1 <= j < k ==> #[trigger] record_scan(t, chr, j) == ScanOutcome::NoMatch
                                && rec_end(t, j) < t.len() {
                                assert forall|j: nat| i <= j < k implies #[trigger] record_scan(t, chr, j) == ScanOutcome::NoMatch
                                    && rec_end(t, j) < t.len() by {
                                    if j == i {
                                    }
                                }
                            }
                        }
                    }
                }
            },
        }
    } else {
        if k > i {
            assert(record_scan(t, chr, i) == record_scan(t, chr, i));
        }
    }
}

/// A record start is never negative, and records start one after the other.
proof fn lemma_rec_start_nonneg<T: TableUnit>(t: Seq<T>, k: nat)
    ensures
        rec_start(t, k) >= 0,
    decreases k,
{
    if k > 0 {
        lemma_rec_start_nonneg(t, (k - 1) as nat);
        let p = rec_start(t, (k - 1) as nat);
        if p <= t.len() {
            lemma_find_in(t, T::end_rec(), p, t.len() as int);
        }
    }
}

/// The scan of the whole table finds record `k` exactly when `k` is the first record that lists `chr`.
pub proof fn law_scan_finds_first_listing<T: TableUnit>(t: Seq<T>, chr: Seq<T>, k: nat)
    ensures
        scan_table(t, chr, 0, 0) == Some(k as int) <==> first_listing(t, chr, k),
{
    lemma_scan_from(t, chr, 0, k);
    assert(rec_start(t, 0) == 0);
}

/// `t[lo..hi]` equals `chr`.
fn range_eq<T: TableUnit>(t: &[T], lo: usize, hi: usize, chr: &[T]) -> (r: bool)
    requires
        lo <= hi <= t@.len(),
    ensures
        r == (t@.subrange(lo as int, hi as int) == chr@),
{
    if hi - lo != chr.len() {
        return false;
    }
    let mut k: usize = 0;
    while k < chr.len()
        invariant
            lo <= hi <= t@.len(),
            hi - lo == chr@.len(),
            k <= chr@.len(),
            forall|j: int| 0 <= j < k ==> t@[lo + j] == chr@[j],
        decreases chr@.len() - k,
    {
        if !t[lo + k].same(&chr[k]) {
            assert(t@.subrange(lo as int, hi as int)[k as int] != chr@[k as int]);
            return false;
        }
        k = k + 1;
    }
    assert(t@.subrange(lo as int, hi as int) =~= chr@);
    true
}

/// The first index in `lo..hi` where `t` holds `x`, or `hi`.
fn exec_find_in<T: TableUnit>(t: &[T], x: T, lo: usize, hi: usize) -> (r: usize)
    requires
        lo <= hi <= t@.len(),
    ensures
        r == find_in(t@, x, lo as int, hi as int),
        lo <= r <= hi,
{
    let mut k = lo;
    while k < hi
        invariant
            lo <= k <= hi <= t@.len(),
            find_in(t@, x, lo as int, hi as int) == find_in(t@, x, k as int, hi as int),
        decreases hi - k,
    {
        if t[k].same(&x) {
            return k;
        }
        k = k + 1;
    }
    proof {
        lemma_find_in(t@, x, lo as int, hi as int);
    }
    k
}

/// Scans the record `t[lo..hi]` for `chr`.
fn exec_scan_record<T: TableUnit>(t: &[T], chr: &[T], lo: usize, hi: usize) -> (r: ScanOutcome)
    requires
        lo <= hi <= t@.len(),
    ensures
        r == scan_record(t@, chr@, lo as int, hi as int, false),
{
    let start_seq = T::exec_start_seq();
    let mut p = lo;
    let mut in_sequences = false;
    while p < hi
        invariant
            lo <= p <= hi <= t@.len(),
            scan_record(t@, chr@, lo as int, hi as int, false) == scan_record(
                t@,
                chr@,
                p as int,
                hi as int,
                in_sequences,
            ),
            start_seq == T::start_seq(),
        decreases hi - p,
    {
        if t[p].same(&start_seq) {
            in_sequences = true;
            p = p + 1;
        } else if !in_sequences {
            match t[p].exec_entry_len() {
                None => {
                    return ScanOutcome::Malformed;
                },
                Some(n) => {
                    if n > hi - p {
                        return ScanOutcome::Malformed;
                    }
                    if range_eq(t, p, p + n, chr) {
                        return ScanOutcome::Match;
                    }
                    p = p + n;
                },
            }
        } else {
            let b = exec_find_in(t, start_seq, p, hi);
            if range_eq(t, p, b, chr) {
                return ScanOutcome::Match;
            }
            proof {
                lemma_find_in(t@, start_seq, p as int, hi as int);
            }
            p = b;
        }
    }
    ScanOutcome::NoMatch
}

/// The index of the first record of the table `t` that lists `chr` (as a `u32`): see
/// [law_scan_finds_first_listing] for [scan_table] in terms of records.
pub fn scan_unicode_table<T: TableUnit>(t: &[T], chr: &[T]) -> (r: Option<u32>)
    ensures
        r == (match scan_table(t@, chr@, 0, 0) {
            Some(i) => Some(#[verifier::truncate] (i as u32)),
            None => None,
        }),
{
    let end_rec = T::exec_end_rec();
    let len = t.len();
    let mut pos: usize = 0;
    let mut i: usize = 0;
    while pos <= len
        invariant
            pos <= len,
            len == t@.len(),
            i <= pos,
            end_rec == T::end_rec(),
            scan_table(t@, chr@, 0, 0) == scan_table(t@, chr@, pos as int, i as int),
        decreases len + 1 - pos,
    {
        let hi = exec_find_in(t, end_rec, pos, len);
        match exec_scan_record(t, chr, pos, hi) {
            ScanOutcome::Match => {
                return Some(#[verifier::truncate] (i as u32));
            },
            ScanOutcome::Malformed => {
                return None;
            },
            ScanOutcome::NoMatch => {
                if hi >= len {
                    return None;
                }
                pos = hi + 1;
                i = i + 1;
            },
        }
    }
    None
}

impl TableUnit for u16 {
    open spec fn start_seq() -> u16 {
        0xFFFE
    }

    open spec fn end_rec() -> u16 {
        0xFFFF
    }

    /// Every 16 bit unit of a PSF1 table is one character.
    open spec fn entry_len(self) -> Option<nat> {
        Some(1)
    }

    fn exec_start_seq() -> (r: u16) {
        0xFFFE
    }

    fn exec_end_rec() -> (r: u16) {
        0xFFFF
    }

    fn exec_entry_len(&self) -> (r: Option<usize>) {
        Some(1)
    }

    fn same(&self, other: &u16) -> (r: bool) {
        *self == *other
    }
}

/// How many bytes the UTF-8 character that starts with `b` takes, `None` for a continuation or invalid byte.
pub open spec fn utf8_len(b: u8) -> Option<nat> {
    if b <= 0x7F {
        Some(1)
    } else if 0xC2 <= b <= 0xDF {
        Some(2)
    } else if 0xE0 <= b <= 0xEF {
        Some(3)
    } else if 0xF0 <= b <= 0xF4 {
        Some(4)
    } else {
        None
    }
}

/// Decode exactly one valid UTF-8 scalar and return its length in bytes.
///
/// Returns None on malformed UTF-8.
//
// Every UTF-8 sequence starts with a leading byte that indicates the number of bytes in the sequence.
// The leading byte is followed by continuation bytes that each start with the bits 10xxxxxx.
//
// one byte:       0.......
// two bytes:      110..... 10......
// three bytes:    1110.... 10...... 10......
// four bytes:     11110... 10...... 10...... 10......
pub fn next_utf8_len(b: u8) -> (r: Option<usize>)
    ensures
        r matches Some(n) ==> utf8_len(b) == Some(n as nat) && 1 <= n <= 4,
        r is None ==> utf8_len(b) is None,
{
    if b <= 0x7F {
        Some(1)  // 0xxxxxxx
    } else if 0xC2 <= b && b <= 0xDF {
        Some(2)  // 110xxxxx
    } else if 0xE0 <= b && b <= 0xEF {
        Some(3)  // 1110xxxx
    } else if 0xF0 <= b && b <= 0xF4 {
        Some(4)  // 11110xxx
    } else {
        None  // continuation or invalid
    }
}

impl TableUnit for u8 {
    open spec fn start_seq() -> u8 {
        0xFE
    }

    open spec fn end_rec() -> u8 {
        0xFF
    }

    /// A PSF2 table holds UTF-8.
    open spec fn entry_len(self) -> Option<nat> {
        utf8_len(self)
    }

    fn exec_start_seq() -> (r: u8) {
        0xFE
    }

    fn exec_end_rec() -> (r: u8) {
        0xFF
    }

    fn exec_entry_len(&self) -> (r: Option<usize>) {
        next_utf8_len(*self)
    }

    fn same(&self, other: &u8) -> (r: bool) {
        *self == *other
    }
}

} // verus!
