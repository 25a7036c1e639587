//! PSF1 fonts.
use vstd::prelude::*;
use vstd::slice::slice_subrange;
use crate::graphics::klogger::psf::PsfError;
use crate::graphics::klogger::psf::unicode_table::{
    find_in, first_listing, law_scan_finds_first_listing, lemma_find_in, rec_end, rec_start, record_scan, scan_record, scan_table,
    scan_unicode_table, ScanOutcome,
};

verus! {

/// The little endian 16 bit value at `b[i..i + 2]`.
pub open spec fn le_u16(b: Seq<u8>, i: int) -> u16 {
    (b[i] as int + b[i + 1] as int * 256) as u16
}

/// The little endian 16 bit values that `b` holds, two bytes each.
pub open spec fn le_u16_seq(b: Seq<u8>) -> Seq<u16> {
    Seq::new(b.len() / 2, |k: int| le_u16(b, 2 * k))
}

/// How many glyphs a PSF1 font of the given mode holds: 512 with mode bit 0x1, else 256.
pub open spec fn psf1_numglyph(mode: u8) -> nat {
    if mode & 0x1 == 1 {
        512
    } else {
        256
    }
}

/// A parsed PSF1 font, as values.
pub struct Psf1Model {
    pub mode: u8,
    pub bytesperglyph: u8,
    pub glyphs: Seq<u8>,
    pub unicode_mappings: Seq<u16>,
}

/// What parsing `b` as a PSF1 font gives.
///
/// The 4 byte header holds the magic value 0x0436 (little endian), the mode and the number of
/// bytes per glyph. The glyphs follow; with mode bit 0x2 the rest of the font is the unicode table,
/// which must be a non empty whole number of 16 bit units.
pub open spec fn psf1_parse(b: Seq<u8>) -> Result<Psf1Model, PsfError> {
    if b.len() < 4 {
        Err(PsfError::MalformedHeader)
    } else if le_u16(b, 0) != 0x0436 {
        Err(PsfError::WrongMagicValue)
    } else {
        let mode = b[2];
        let bpg = b[3];
        let uoff = 4 + psf1_numglyph(mode) * bpg;
        if mode & 0x2 != 0 {
            if uoff >= b.len() - 1 || (b.len() - uoff) % 2 != 0 {
                Err(PsfError::MalformedUnicodeMappingTable)
            } else {
                Ok(
                    Psf1Model {
                        mode,
                        bytesperglyph: bpg,
                        glyphs: b.subrange(4, uoff),
                        unicode_mappings: le_u16_seq(b.subrange(uoff, b.len() as int)),
                    },
                )
            }
        } else if uoff > b.len() {
            Err(PsfError::MalformedGlyphsTable)
        } else {
            Ok(Psf1Model { mode, bytesperglyph: bpg, glyphs: b.subrange(4, uoff), unicode_mappings: seq![] })
        }
    }
}

/// The glyph index of `c` in a PSF1 font: ASCII characters are their own index; other characters
/// of the basic multilingual plane are looked up in the unicode table; the others have none.
pub open spec fn psf1_glyph_index(m: Psf1Model, c: char) -> Option<u32> {
    let v = c as u32;
    if v > 0xFFFF {
        None
    } else if v <= 0x7F {
        Some(v)
    } else {
        match scan_table(m.unicode_mappings, seq![v as u16], 0, 0) {
            Some(i) => Some(#[verifier::truncate] (i as u32)),
            None => None,
        }
    }
}

/// The bitmap of glyph `idx`, if the font has that glyph.
pub open spec fn psf1_glyph_at(m: Psf1Model, idx: u32) -> Option<Seq<u8>> {
    if idx < psf1_numglyph(m.mode) {
        Some(m.glyphs.subrange(idx * m.bytesperglyph, idx * m.bytesperglyph + m.bytesperglyph))
    } else {
        None
    }
}

/// A PSF1 font is read as its format says: after the 4 byte header (0x36, 0x04, mode, bytes per glyph)
/// come 512 glyphs when bit 0x1 of the mode is set, 256 otherwise, each `bytes per glyph` long, and
/// glyph `i` is the `i`-th run of those bytes; with mode bit 0x2 the rest of the font, from
/// `4 + glyphs * bytes per glyph` on, is the unicode table of little endian 16 bit units.
pub proof fn law_psf1_layout(b: Seq<u8>)
    ensures
        ({
            let count: int = if b[2] & 0x1 != 0 { 512 } else { 256 };
            let bpg = b[3] as int;
            let uoff = 4 + count * bpg;
            &&& psf1_parse(b) is Ok <==> {
                &&& b.len() >= 4
                &&& b[0] == 0x36 && b[1] == 0x04
                &&& if b[2] & 0x2 != 0 {
                    uoff < b.len() - 1 && (b.len() - uoff) % 2 == 0
                } else {
                    uoff <= b.len()
                }
            }
            &&& psf1_parse(b) matches Ok(m) ==> {
                &&& m.glyphs == b.subrange(4, uoff)
                &&& forall|i: u32| #[trigger] psf1_glyph_at(m, i) == if i < count {
                    Some(b.subrange(4 + i * bpg, 4 + (i + 1) * bpg))
                } else {
                    None::<Seq<u8>>
                }
                &&& b[2] & 0x2 != 0 ==> m.unicode_mappings.len() == (b.len() - uoff) / 2 && forall|k: int|
                    0 <= k < m.unicode_mappings.len() ==> #[trigger] m.unicode_mappings[k] == b[uoff + 2 * k] + 256 * b[uoff + 2 * k + 1]
                &&& b[2] & 0x2 == 0 ==> m.unicode_mappings.len() == 0
            }
        }),
{
    let count: int = if b[2] & 0x1 != 0 { 512 } else { 256 };
    if b.len() >= 4 {
        let mode = b[2];
        assert(mode & 0x1 != 0 <==> mode & 0x1 == 1) by (bit_vector);
        assert(le_u16(b, 0) == 0x0436 <==> (b[0] == 0x36 && b[1] == 0x04));
        assert(psf1_numglyph(b[2]) == count);
    }
    if psf1_parse(b) is Ok {
        let m = psf1_parse(b)->Ok_0;
        let bpg = b[3] as int;
        let uoff = 4 + count * bpg;
        assert forall|i: u32| #[trigger] psf1_glyph_at(m, i) == if i < count {
            Some(b.subrange(4 + i * bpg, 4 + (i + 1) * bpg))
        } else {
            None::<Seq<u8>>
        } by {
            if i < count {
                assert(i * bpg + bpg <= count * bpg) by (nonlinear_arith)
                    requires
                        i < count,
                        bpg >= 0,
                ;
                assert(0 <= i * bpg) by (nonlinear_arith)
                    requires
                        bpg >= 0,
                ;
                assert((i + 1) * bpg == i * bpg + bpg) by (nonlinear_arith);
                assert(m.glyphs.subrange(i * bpg, i * bpg + bpg) =~= b.subrange(4 + i * bpg, 4 + (i + 1) * bpg));
            }
        }
        if b[2] & 0x2 != 0 {
            assert forall|k: int| 0 <= k < m.unicode_mappings.len() implies #[trigger] m.unicode_mappings[k] == b[uoff + 2 * k] + 256
                * b[uoff + 2 * k + 1] by {
                let t = b.subrange(uoff, b.len() as int);
                assert(t[2 * k] == b[uoff + 2 * k] && t[2 * k + 1] == b[uoff + 2 * k + 1]);
            }
        }
    }
}

/// The units of the sequences of a PSF1 unicode table record: each sequence is introduced by 0xFFFE.
pub open spec fn psf1_seqs_units(ss: Seq<Seq<u16>>) -> Seq<u16>
    decreases ss.len(),
{
    if ss.len() == 0 {
        seq![]
    } else {
        seq![0xFFFEu16] + ss[0] + psf1_seqs_units(ss.drop_first())
    }
}

/// The units of a PSF1 unicode table record `r`: its single characters `r.0`, then its sequences `r.1`,
/// then the 0xFFFF that ends it.
pub open spec fn psf1_record_units(r: (Seq<u16>, Seq<Seq<u16>>)) -> Seq<u16> {
    r.0 + psf1_seqs_units(r.1) + seq![0xFFFFu16]
}

/// The units of a PSF1 unicode table made of the records `recs`, one per glyph, in order.
pub open spec fn psf1_table_units(recs: Seq<(Seq<u16>, Seq<Seq<u16>>)>) -> Seq<u16>
    decreases recs.len(),
{
    if recs.len() == 0 {
        seq![]
    } else {
        psf1_table_units(recs.drop_last()) + psf1_record_units(recs.last())
    }
}

/// Record `r` lists the character `u`: among its single characters, or as a sequence of `u` alone.
pub open spec fn psf1_lists(r: (Seq<u16>, Seq<Seq<u16>>), u: u16) -> bool {
    r.0.contains(u) || r.1.contains(seq![u])
}

/// The records are well formed: no character is 0xFFFE or 0xFFFF, and no sequence is empty.
pub open spec fn psf1_records_ok(recs: Seq<(Seq<u16>, Seq<Seq<u16>>)>) -> bool {
    &&& forall|k: int, q: int| 0 <= k < recs.len() && 0 <= q < recs[k].0.len() ==> (#[trigger] recs[k].0[q]) < 0xFFFE
    &&& forall|k: int, q: int| 0 <= k < recs.len() && 0 <= q < recs[k].1.len() ==> (#[trigger] recs[k].1[q]).len() > 0 && forall|
        z: int,
    | 0 <= z < recs[k].1[q].len() ==> #[trigger] recs[k].1[q][z] < 0xFFFE
}

/// `find_in` stops at `q` when nothing before it is `x` and `q` holds `x` or is the end.
proof fn lemma_find_at16(t: Seq<u16>, x: u16, lo: int, q: int, hi: int)
    requires
        lo <= q <= hi,
        forall|k: int| lo <= k < q ==> t[k] != x,
        q < hi ==> t[q] == x,
    ensures
        find_in(t, x, lo, hi) == q,
{
    lemma_find_in(t, x, lo, hi);
}

/// Scanning single characters `cs` laid out from `p` finds `u` among them, or goes on after them.
proof fn lemma_scan_singles16(t: Seq<u16>, u: u16, cs: Seq<u16>, p: int, hi: int)
    requires
        0 <= p,
        p + cs.len() <= hi <= t.len(),
        t.subrange(p, p + cs.len()) == cs,
        forall|q: int| 0 <= q < cs.len() ==> #[trigger] cs[q] < 0xFFFE,
    ensures
        scan_record::<u16>(t, seq![u], p, hi, false) == if cs.contains(u) {
            ScanOutcome::Match
        } else {
            scan_record::<u16>(t, seq![u], p + cs.len(), hi, false)
        },
    decreases cs.len(),
{
    if cs.len() > 0 {
        let rest = cs.drop_first();
        assert(t[p] == cs[0]) by {
            assert(t.subrange(p, p + cs.len())[0] == t[p]);
        }
        assert(t.subrange(p, p + 1) =~= seq![cs[0]]);
        assert(t.subrange(p + 1, p + 1 + rest.len()) =~= rest) by {
            assert forall|k: int| 0 <= k < rest.len() implies t.subrange(p + 1, p + 1 + rest.len())[k] == rest[k] by {
                assert(t.subrange(p, p + cs.len())[k + 1] == t[p + 1 + k]);
            }
        }
        assert(seq![cs[0]] == seq![u] <==> cs[0] == u) by {
            if seq![cs[0]] == seq![u] {
                assert(seq![cs[0]][0] == seq![u][0]);
            }
        }
        lemma_scan_singles16(t, u, rest, p + 1, hi);
        assert(cs.contains(u) <==> cs[0] == u || rest.contains(u)) by {
            if cs.contains(u) && cs[0] != u {
                let k = choose|k: int| 0 <= k < cs.len() && cs[k] == u;
                assert(rest[k - 1] == u);
            }
            if rest.contains(u) {
                let k = choose|k: int| 0 <= k < rest.len() && rest[k] == u;
                assert(cs[k + 1] == u);
            }
        }
    }
}

/// Scanning the sequences `ss` laid out from `p` up to `hi` finds `u` exactly when one of them is `u` alone.
proof fn lemma_scan_seqs16(t: Seq<u16>, u: u16, ss: Seq<Seq<u16>>, p: int, hi: int, flag: bool)
    requires
        0 <= p,
        hi == p + psf1_seqs_units(ss).len(),
        hi <= t.len(),
        t.subrange(p, hi) == psf1_seqs_units(ss),
        forall|q: int| 0 <= q < ss.len() ==> (#[trigger] ss[q]).len() > 0 && forall|z: int| 0 <= z < ss[q].len() ==> #[trigger] ss[q][z] < 0xFFFE,
    ensures
        scan_record::<u16>(t, seq![u], p, hi, flag) == if ss.contains(seq![u]) {
            ScanOutcome::Match
        } else {
            ScanOutcome::NoMatch
        },
    decreases ss.len(),
{
    let e = seq![u];
    if ss.len() > 0 {
        let s0 = ss[0];
        let rest = ss.drop_first();
        let br = psf1_seqs_units(rest);
        let whole = psf1_seqs_units(ss);
        assert(whole == seq![0xFFFEu16] + s0 + br);
        assert(s0.len() > 0);
        let p1 = p + 1;
        let q = p1 + s0.len();
        assert(t[p] == 0xFFFEu16) by {
            assert(t.subrange(p, hi)[0] == t[p]);
        }
        assert forall|k: int| 0 <= k < s0.len() implies t[p1 + k] == #[trigger] s0[k] by {
            assert(t.subrange(p, hi)[1 + k] == t[p1 + k]);
            assert(whole[1 + k] == s0[k]);
        }
        assert(t.subrange(p1, q) =~= s0);
        assert(t.subrange(q, hi) =~= br) by {
            assert forall|k: int| 0 <= k < br.len() implies t.subrange(q, hi)[k] == br[k] by {
                assert(t.subrange(p, hi)[1 + s0.len() + k] == t[q + k]);
                assert(whole[1 + s0.len() + k] == br[k]);
            }
        }
        if q < hi {
            assert(rest.len() > 0);
            assert(br[0] == 0xFFFEu16);
            assert(t[q] == 0xFFFEu16) by {
                assert(t.subrange(q, hi)[0] == t[q]);
            }
        }
        assert(t[p1] != 0xFFFEu16) by {
            assert(t[p1 + 0] == s0[0]);
        }
        assert forall|k: int| p1 <= k < q implies t[k] != 0xFFFEu16 by {
            assert(t[p1 + (k - p1)] == s0[k - p1]);
        }
        lemma_find_at16(t, 0xFFFEu16, p1, q, hi);
        assert(scan_record::<u16>(t, e, p, hi, flag) == scan_record::<u16>(t, e, p1, hi, true));
        if s0 != e {
            assert(scan_record::<u16>(t, e, p1, hi, true) == scan_record::<u16>(t, e, q, hi, true));
        }
        assert forall|q2: int| 0 <= q2 < rest.len() implies (#[trigger] rest[q2]).len() > 0 && forall|z: int| 0 <= z < rest[q2].len()
            ==> #[trigger] rest[q2][z] < 0xFFFE by {
            assert(rest[q2] == ss[q2 + 1]);
        }
        lemma_scan_seqs16(t, u, rest, q, hi, true);
        assert(ss.contains(e) <==> s0 == e || rest.contains(e)) by {
            if ss.contains(e) && s0 != e {
                let k = choose|k: int| 0 <= k < ss.len() && ss[k] == e;
                assert(rest[k - 1] == e);
            }
            if rest.contains(e) {
                let k = choose|k: int| 0 <= k < rest.len() && rest[k] == e;
                assert(ss[k + 1] == e);
            }
        }
    }
}

/// The units of sequences hold no 0xFFFF.
proof fn lemma_seqs16_no_end(ss: Seq<Seq<u16>>)
    requires
        forall|q: int| 0 <= q < ss.len() ==> forall|z: int| 0 <= z < (#[trigger] ss[q]).len() ==> #[trigger] ss[q][z] < 0xFFFE,
    ensures
        forall|k: int| 0 <= k < psf1_seqs_units(ss).len() ==> #[trigger] psf1_seqs_units(ss)[k] != 0xFFFFu16,
    decreases ss.len(),
{
    if ss.len() > 0 {
        let rest = ss.drop_first();
        assert forall|q: int| 0 <= q < rest.len() implies forall|z: int| 0 <= z < (#[trigger] rest[q]).len() ==> #[trigger] rest[q][z] < 0xFFFE by {
            assert(rest[q] == ss[q + 1]);
        }
        lemma_seqs16_no_end(rest);
        let a = seq![0xFFFEu16] + ss[0];
        let r = psf1_seqs_units(rest);
        assert forall|k: int| 0 <= k < psf1_seqs_units(ss).len() implies #[trigger] psf1_seqs_units(ss)[k] != 0xFFFFu16 by {
            if k == 0 {
            } else if k < a.len() {
                assert(psf1_seqs_units(ss)[k] == ss[0][k - 1]);
            } else {
                assert(psf1_seqs_units(ss)[k] == r[k - a.len()]);
            }
        }
    }
}

/// Scanning record `r` laid out from `p`: its end is its 0xFFFF, and it lists `u` exactly when
/// [psf1_lists] says so.
proof fn lemma_scan_record_units(t: Seq<u16>, u: u16, r: (Seq<u16>, Seq<Seq<u16>>), p: int)
    requires
        0 <= p,
        p + psf1_record_units(r).len() <= t.len(),
        t.subrange(p, p + psf1_record_units(r).len()) == psf1_record_units(r),
        forall|q: int| 0 <= q < r.0.len() ==> #[trigger] r.0[q] < 0xFFFE,
        forall|q: int| 0 <= q < r.1.len() ==> (#[trigger] r.1[q]).len() > 0 && forall|z: int| 0 <= z < r.1[q].len() ==> #[trigger] r.1[q][z] < 0xFFFE,
    ensures
        find_in(t, 0xFFFFu16, p, t.len() as int) == p + psf1_record_units(r).len() - 1,
        scan_record::<u16>(t, seq![u], p, p + psf1_record_units(r).len() - 1, false) == if psf1_lists(r, u) {
            ScanOutcome::Match
        } else {
            ScanOutcome::NoMatch
        },
{
    let es = r.0;
    let bs = psf1_seqs_units(r.1);
    let rb = psf1_record_units(r);
    let q = p + es.len();
    let hi = q + bs.len();
    assert(rb == es + bs + seq![0xFFFFu16]);
    lemma_seqs16_no_end(r.1);
    assert forall|k: int| p <= k < hi implies t[k] != 0xFFFFu16 by {
        assert(t.subrange(p, p + rb.len())[k - p] == t[k]);
        if k < q {
            assert(rb[k - p] == es[k - p]);
        } else {
            assert(rb[k - p] == bs[k - q]);
        }
    }
    assert(t[hi] == 0xFFFFu16) by {
        assert(t.subrange(p, p + rb.len())[rb.len() - 1] == t[hi]);
    }
    lemma_find_at16(t, 0xFFFFu16, p, hi, t.len() as int);
    assert(t.subrange(p, q) =~= es) by {
        assert forall|k: int| 0 <= k < es.len() implies t.subrange(p, q)[k] == es[k] by {
            assert(t.subrange(p, p + rb.len())[k] == t[p + k]);
            assert(rb[k] == es[k]);
        }
    }
    assert(t.subrange(q, hi) =~= bs) by {
        assert forall|k: int| 0 <= k < bs.len() implies t.subrange(q, hi)[k] == bs[k] by {
            assert(t.subrange(p, p + rb.len())[es.len() + k] == t[q + k]);
            assert(rb[es.len() + k] == bs[k]);
        }
    }
    lemma_scan_singles16(t, u, es, p, hi);
    lemma_scan_seqs16(t, u, r.1, q, hi, false);
}

/// The table of the first `k + 1` records is that of the first `k` and record `k`.
proof fn lemma_table16_step(recs: Seq<(Seq<u16>, Seq<Seq<u16>>)>, k: int)
    requires
        0 <= k < recs.len(),
    ensures
        psf1_table_units(recs.take(k + 1)) == psf1_table_units(recs.take(k)) + psf1_record_units(recs[k]),
{
    assert(recs.take(k + 1).drop_last() =~= recs.take(k));
    assert(recs.take(k + 1).last() == recs[k]);
}

/// The table of the first `k` records starts the table of all of them.
proof fn lemma_table16_prefix(recs: Seq<(Seq<u16>, Seq<Seq<u16>>)>, k: int)
    requires
        0 <= k <= recs.len(),
    ensures
        psf1_table_units(recs.take(k)).len() <= psf1_table_units(recs).len(),
        forall|j: int| 0 <= j < psf1_table_units(recs.take(k)).len() ==> #[trigger] psf1_table_units(recs)[j]
            == psf1_table_units(recs.take(k))[j],
    decreases recs.len(),
{
    if k == recs.len() {
        assert(recs.take(k) =~= recs);
    } else {
        let d = recs.drop_last();
        lemma_table16_prefix(d, k);
        assert(d.take(k) =~= recs.take(k));
        assert(psf1_table_units(recs) == psf1_table_units(d) + psf1_record_units(recs.last()));
    }
}

/// Record `k` of well formed records laid out as [psf1_record_units] says.
proof fn lemma_record16_at(recs: Seq<(Seq<u16>, Seq<Seq<u16>>)>, tail: Seq<u16>, u: u16, k: int)
    requires
        psf1_records_ok(recs),
        0 <= k < recs.len(),
    ensures
        ({
            let t = psf1_table_units(recs) + tail;
            let p = psf1_table_units(recs.take(k)).len() as int;
            &&& find_in(t, 0xFFFFu16, p, t.len() as int) == psf1_table_units(recs.take(k + 1)).len() - 1
            &&& scan_record::<u16>(t, seq![u], p, psf1_table_units(recs.take(k + 1)).len() - 1, false) == if psf1_lists(recs[k], u) {
                ScanOutcome::Match
            } else {
                ScanOutcome::NoMatch
            }
        }),
{
    let t = psf1_table_units(recs) + tail;
    let p = psf1_table_units(recs.take(k)).len() as int;
    let rb = psf1_record_units(recs[k]);
    lemma_table16_step(recs, k);
    lemma_table16_prefix(recs, k + 1);
    assert(t.subrange(p, p + rb.len()) =~= rb) by {
        assert forall|j: int| 0 <= j < rb.len() implies t.subrange(p, p + rb.len())[j] == rb[j] by {
            assert(psf1_table_units(recs)[p + j] == psf1_table_units(recs.take(k + 1))[p + j]);
        }
    }
    assert forall|q: int| 0 <= q < recs[k].0.len() implies #[trigger] recs[k].0[q] < 0xFFFE by {
        assert(recs[k].0[q] < 0xFFFE);
    }
    assert forall|q: int| 0 <= q < recs[k].1.len() implies (#[trigger] recs[k].1[q]).len() > 0 && forall|z: int| 0 <= z < recs[k].1[q].len()
        ==> #[trigger] recs[k].1[q][z] < 0xFFFE by {
        assert(recs[k].1[q].len() > 0);
    }
    lemma_scan_record_units(t, u, recs[k], p);
}

/// In a table made of `recs` (and any units after them), record `k` starts where the first `k`
/// records end, ends at its 0xFFFF, and lists `u` exactly when [psf1_lists] says so.
proof fn lemma_table16_records(recs: Seq<(Seq<u16>, Seq<Seq<u16>>)>, tail: Seq<u16>, u: u16, k: int)
    requires
        psf1_records_ok(recs),
        0 <= k <= recs.len(),
    ensures
        rec_start::<u16>(psf1_table_units(recs) + tail, k as nat) == psf1_table_units(recs.take(k)).len(),
        k < recs.len() ==> rec_end::<u16>(psf1_table_units(recs) + tail, k as nat) == psf1_table_units(recs.take(k + 1)).len() - 1,
        k < recs.len() ==> record_scan::<u16>(psf1_table_units(recs) + tail, seq![u], k as nat) == if psf1_lists(recs[k], u) {
            ScanOutcome::Match
        } else {
            ScanOutcome::NoMatch
        },
    decreases k,
{
    if k == 0 {
        assert(recs.take(0) =~= Seq::<(Seq<u16>, Seq<Seq<u16>>)>::empty());
    } else {
        lemma_table16_records(recs, tail, u, k - 1);
        lemma_record16_at(recs, tail, u, k - 1);
    }
    if k < recs.len() {
        lemma_record16_at(recs, tail, u, k);
    }
}

/// Looking up a character of the basic multilingual plane that is not ASCII in a PSF1 font whose
/// unicode table is made of the well formed records `recs` (one per glyph, followed by any units) gives
/// the glyph of the first record that lists it: glyph `i` is bytes `i * bytesperglyph .. (i + 1) *
/// bytesperglyph` of the glyphs, and there is none past the font's glyphs.
pub proof fn law_psf1_unicode_lookup(
    m: Psf1Model,
    recs: Seq<(Seq<u16>, Seq<Seq<u16>>)>,
    tail: Seq<u16>,
    c: char,
    i: int,
)
    requires
        m.unicode_mappings == psf1_table_units(recs) + tail,
        psf1_records_ok(recs),
        0x7F < c as u32 <= 0xFFFF,
        0 <= i < recs.len(),
        i <= u32::MAX,
        psf1_lists(recs[i], c as u16),
        forall|k: int| 0 <= k < i ==> !psf1_lists(#[trigger] recs[k], c as u16),
    ensures
        (match psf1_glyph_index(m, c) {
            Some(g) => psf1_glyph_at(m, g),
            None => None,
        }) == if i < (if m.mode & 0x1 != 0 { 512int } else { 256int }) {
            Some(m.glyphs.subrange(i * m.bytesperglyph, (i + 1) * m.bytesperglyph))
        } else {
            None::<Seq<u8>>
        },
{
    let t = m.unicode_mappings;
    let u = c as u16;
    let e = seq![u];
    let mode = m.mode;
    assert(mode & 0x1 != 0 <==> mode & 0x1 == 1) by (bit_vector);
    lemma_table16_records(recs, tail, u, i);
    assert forall|j: nat| j < i implies #[trigger] record_scan::<u16>(t, e, j) == ScanOutcome::NoMatch && rec_end::<u16>(t, j) < t.len() by {
        lemma_table16_records(recs, tail, u, j as int);
        lemma_table16_prefix(recs, j + 1int);
    }
    lemma_table16_prefix(recs, i);
    assert(first_listing(t, e, i as nat));
    law_scan_finds_first_listing(t, e, i as nat);
    assert(psf1_glyph_index(m, c) == Some(i as u32));
    assert((i + 1) * m.bytesperglyph == i * m.bytesperglyph + m.bytesperglyph) by (nonlinear_arith);
}

/// The bytes of a glyph, as values.
pub open spec fn glyph_view(r: Option<&[u8]>) -> Option<Seq<u8>> {
    match r {
        Some(g) => Some(g@),
        None => None,
    }
}

struct Psf1Header {
    magic: u16,
    mode: u8,
    bytesperglyph: u8,
}

/// A PSF1 font over the bytes it was parsed from.
pub struct Psf1Font<'a> {
    header: Psf1Header,
    glyphs: &'a [u8],
    unicode_mappings: Vec<u16>,
    numglyph: u32,
}

impl<'a> Psf1Font<'a> {
    #[verifier::type_invariant]
    spec fn inv(self) -> bool {
        &&& self.numglyph == psf1_numglyph(self.header.mode)
        &&& self.glyphs@.len() == self.numglyph * self.header.bytesperglyph
    }

    /// The font, as values.
    pub closed spec fn model(&self) -> Psf1Model {
        Psf1Model {
            mode: self.header.mode,
            bytesperglyph: self.header.bytesperglyph,
            glyphs: self.glyphs@,
            unicode_mappings: self.unicode_mappings@,
        }
    }

    /// Parses `font_bytes` as a PSF1 font.
    ///
    /// The unicode table is read two bytes at a time into its own entries, so where the bytes lie in
    /// memory does not matter, only that the table has an even length.
    pub fn from_bytes(font_bytes: &'a [u8]) -> (r: Result<Self, PsfError>)
        ensures
            match r {
                Ok(f) => psf1_parse(font_bytes@) == Ok::<Psf1Model, PsfError>(f.model()),
                Err(e) => psf1_parse(font_bytes@) == Err::<Psf1Model, PsfError>(e),
            },
    {
        let len = font_bytes.len();
        if len < 4 {
            return Err(PsfError::MalformedHeader);
        }
        let magic: u16 = font_bytes[0] as u16 + font_bytes[1] as u16 * 256;
        if magic != 0x0436 {
            return Err(PsfError::WrongMagicValue);
        }
        let mode = font_bytes[2];
        let bytesperglyph = font_bytes[3];
        // check if the font contains 512 glyphs or just 256
        let numglyph: usize = if (mode & 0x1) == 1 {
            512
        } else {
            256
        };
        let glyphs_offset: usize = 4;
        let glyphs_size: usize = numglyph * bytesperglyph as usize;
        let unicode_offset: usize = glyphs_offset + glyphs_size;
        let header = Psf1Header { magic, mode, bytesperglyph };
        if (mode & 0x2) != 0 {
            // the unicode mapping table must have positive size
            if unicode_offset >= len - 1 {
                return Err(PsfError::MalformedUnicodeMappingTable);
            }
            if (len - unicode_offset) % 2 != 0 {
                return Err(PsfError::MalformedUnicodeMappingTable);
            }
            let unicode_mappings = decode_u16_table(font_bytes, unicode_offset);
            let glyphs = slice_subrange(font_bytes, glyphs_offset, unicode_offset);
            Ok(Psf1Font { header, glyphs, unicode_mappings, numglyph: numglyph as u32 })
        } else {
            // sanity check the bitmap glyphs size
            if glyphs_offset + glyphs_size > len {
                return Err(PsfError::MalformedGlyphsTable);
            }
            let glyphs = slice_subrange(font_bytes, glyphs_offset, glyphs_offset + glyphs_size);
            let unicode_mappings: Vec<u16> = Vec::new();
            let r = Psf1Font { header, glyphs, unicode_mappings, numglyph: numglyph as u32 };
            assert(r.model().unicode_mappings =~= seq![]);
            Ok(r)
        }
    }

    /// The bitmap of glyph `idx`, `None` past the last glyph.
    fn get_glyph_by_idx(&self, idx: u32) -> (r: Option<&'a [u8]>)
        ensures
            glyph_view(r) == psf1_glyph_at(self.model(), idx),
    {
        proof {
            use_type_invariant(self);
        }
        if idx >= self.numglyph {
            return None;
        }
        let bpg = self.header.bytesperglyph as usize;
        let glen = self.glyphs.len();
        assert(idx * bpg + bpg <= self.numglyph * bpg) by (nonlinear_arith)
            requires
                idx < self.numglyph,
        ;
        let start = idx as usize * bpg;
        let end = start + bpg;
        Some(slice_subrange(self.glyphs, start, end))
    }

    /// The index of the record of the unicode table that lists `chr`.
    fn scan_unicode_table(&self, chr: &[u16]) -> (r: Option<u32>)
        ensures
            r == (match scan_table(self.model().unicode_mappings, chr@, 0, 0) {
                Some(i) => Some(#[verifier::truncate] (i as u32)),
                None => None,
            }),
    {
        scan_unicode_table(self.unicode_mappings.as_slice(), chr)
    }

    /// The bitmap of the glyph that draws `chr`, if the font has one.
    pub fn get_glyph(&self, chr: char) -> (r: Option<&'a [u8]>)
        ensures
            glyph_view(r) == (match psf1_glyph_index(self.model(), chr) {
                Some(i) => psf1_glyph_at(self.model(), i),
                None => None,
            }),
    {
        let v = chr as u32;
        if v > 0xFFFF {
            return None;
        }
        // all characters in PSF1 are encoded in 2 bytes
        let unit = v as u16;
        // check if the character is simple ASCII
        if unit <= 0x7f {
            return self.get_glyph_by_idx(unit as u32);
        }
        let buf: Vec<u16> = vec![unit];
        assert(buf@ =~= seq![v as u16]);
        if let Some(idx) = self.scan_unicode_table(buf.as_slice()) {
            return self.get_glyph_by_idx(idx);
        }
        None
    }

    /// Glyphs are 8 pixels wide.
    pub fn pixel_width(&self) -> (r: u32)
        ensures
            r == 8,
    {
        8
    }

    /// Glyphs are as many pixels high as they have bytes.
    pub fn pixel_height(&self) -> (r: u32)
        ensures
            r == self.model().bytesperglyph,
    {
        self.header.bytesperglyph as u32
    }
}

/// The 16 bit little endian values of `b[from..]`.
fn decode_u16_table(b: &[u8], from: usize) -> (r: Vec<u16>)
    requires
        from <= b@.len(),
        (b@.len() - from) % 2 == 0,
    ensures
        r@ == le_u16_seq(b@.subrange(from as int, b@.len() as int)),
{
    let ghost t = b@.subrange(from as int, b@.len() as int);
    let mut r: Vec<u16> = Vec::new();
    let mut k = from;
    while k < b.len()
        invariant
            from <= k <= b@.len(),
            (k - from) % 2 == 0,
            (b@.len() - from) % 2 == 0,
            t == b@.subrange(from as int, b@.len() as int),
            r@.len() == (k - from) / 2,
            forall|j: int| 0 <= j < r@.len() ==> r@[j] == le_u16(t, 2 * j),
        decreases b@.len() - k,
    {
        let v: u16 = b[k] as u16 + b[k + 1] as u16 * 256;
        proof {
            let j = r@.len() as int;
            assert(t[2 * j] == b@[k as int]);
            assert(t[2 * j + 1] == b@[k + 1]);
        }
        r.push(v);
        k = k + 2;
    }
    assert(r@ =~= le_u16_seq(t));
    r
}

} // verus!
