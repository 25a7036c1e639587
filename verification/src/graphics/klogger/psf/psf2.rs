//! PSF2 fonts.
use vstd::prelude::*;
use vstd::slice::slice_subrange;
use crate::graphics::klogger::psf::PsfError;
use crate::graphics::klogger::psf::psf1::glyph_view;
use crate::graphics::klogger::psf::unicode_table::{
    find_in, first_listing, law_scan_finds_first_listing, lemma_find_in, rec_end, rec_start, record_scan, scan_record, scan_table,
    scan_unicode_table, utf8_len, ScanOutcome,
};

verus! {

/// The little endian 32 bit value at `b[i..i + 4]`.
pub open spec fn le_u32(b: Seq<u8>, i: int) -> u32 {
    (b[i] as int + b[i + 1] as int * 0x100 + b[i + 2] as int * 0x1_0000 + b[i + 3] as int * 0x100_0000) as u32
}

/// A parsed PSF2 font, as values.
pub struct Psf2Model {
    pub headersize: u32,
    pub flags: u32,
    pub numglyph: u32,
    pub bytesperglyph: u32,
    pub height: u32,
    pub width: u32,
    pub glyphs: Seq<u8>,
    pub unicode_mappings: Seq<u8>,
}

/// What parsing `b` as a PSF2 font gives.
///
/// The 32 byte header holds eight little endian 32 bit values: the magic value 0x864ab572, the
/// version (only 0 exists), the header size (where the glyphs start), the flags, the number of
/// glyphs, the bytes per glyph, the height and the width. With flag 0x1 the bytes after the glyphs
/// are the unicode table, which must not be empty.
pub open spec fn psf2_parse(b: Seq<u8>) -> Result<Psf2Model, PsfError> {
    if b.len() < 32 {
        Err(PsfError::MalformedHeader)
    } else if le_u32(b, 0) != 0x864ab572 {
        Err(PsfError::WrongMagicValue)
    } else if le_u32(b, 4) != 0 {
        Err(PsfError::UnsupportedVersion)
    } else {
        let headersize = le_u32(b, 8);
        let flags = le_u32(b, 12);
        let numglyph = le_u32(b, 16);
        let bpg = le_u32(b, 20);
        let uoff = headersize + numglyph * bpg;
        let m = Psf2Model {
            headersize,
            flags,
            numglyph,
            bytesperglyph: bpg,
            height: le_u32(b, 24),
            width: le_u32(b, 28),
            glyphs: seq![],
            unicode_mappings: seq![],
        };
        if flags & 0x1 != 0 {
            if uoff >= b.len() {
                Err(PsfError::MalformedUnicodeMappingTable)
            } else {
                Ok(Psf2Model { glyphs: b.subrange(headersize as int, uoff), unicode_mappings: b.subrange(uoff, b.len() as int), ..m })
            }
        } else if uoff > b.len() {
            Err(PsfError::MalformedGlyphsTable)
        } else {
            Ok(Psf2Model { glyphs: b.subrange(headersize as int, uoff), ..m })
        }
    }
}

/// The glyph index of `c` in a PSF2 font: ASCII characters are their own index; the others are
/// looked up, UTF-8 encoded, in the unicode table.
pub open spec fn psf2_glyph_index(m: Psf2Model, c: char) -> Option<u32> {
    let bytes = vstd::utf8::encode_scalar(c as u32);
    if bytes.len() == 1 && bytes[0] <= 0x7f {
        Some(bytes[0] as u32)
    } else {
        match scan_table(m.unicode_mappings, bytes, 0, 0) {
            Some(i) => Some(#[verifier::truncate] (i as u32)),
            None => None,
        }
    }
}

/// The bitmap of glyph `idx`, if the font has that glyph.
pub open spec fn psf2_glyph_at(m: Psf2Model, idx: u32) -> Option<Seq<u8>> {
    if idx < m.numglyph {
        Some(m.glyphs.subrange(idx * m.bytesperglyph, idx * m.bytesperglyph + m.bytesperglyph))
    } else {
        None
    }
}

/// The UTF-8 encoding of `c`.
pub fn encode_utf8(c: char) -> (r: Vec<u8>)
    ensures
        r@ == vstd::utf8::encode_scalar(c as u32),
        1 <= r@.len() <= 4,
{
    let v = c as u32;
    if v <= 0x7F {
        vec![(v & 0x7F) as u8]
    } else if v <= 0x7FF {
        vec![0xC0 | ((v >> 6u32) & 0x1F) as u8, 0x80 | (v & 0x3F) as u8]
    } else if v <= 0xFFFF {
        vec![0xE0 | ((v >> 12u32) & 0x0F) as u8, 0x80 | ((v >> 6u32) & 0x3F) as u8, 0x80 | (v & 0x3F) as u8]
    } else {
        vec![
            0xF0 | ((v >> 18u32) & 0x7) as u8,
            0x80 | ((v >> 12u32) & 0x3F) as u8,
            0x80 | ((v >> 6u32) & 0x3F) as u8,
            0x80 | (v & 0x3F) as u8,
        ]
    }
}

/// The little endian 32 bit value at `b[i..i + 4]`.
pub(crate) fn read_le_u32(b: &[u8], i: usize) -> (r: u32)
    requires
        i + 4 <= b@.len(),
    ensures
        r == le_u32(b@, i as int),
{
    b[i] as u32 + b[i + 1] as u32 * 0x100 + b[i + 2] as u32 * 0x1_0000 + b[i + 3] as u32 * 0x100_0000
}

struct Psf2Header {
    magic: u32,
    version: u32,
    headersize: u32,
    flags: u32,
    numglyph: u32,
    bytesperglyph: u32,
    height: u32,
    width: u32,
}

/// The bytes of the sequences of a PSF2 unicode table record: each sequence is introduced by 0xFE
/// and holds its characters UTF-8 encoded.
pub open spec fn psf2_seqs_bytes(ss: Seq<Seq<char>>) -> Seq<u8>
    decreases ss.len(),
{
    if ss.len() == 0 {
        seq![]
    } else {
        seq![0xFEu8] + vstd::utf8::encode_utf8(ss[0]) + psf2_seqs_bytes(ss.drop_first())
    }
}

/// The bytes of a PSF2 unicode table record `r`: the single characters `r.0` UTF-8 encoded, then the
/// sequences `r.1`, then the 0xFF that ends the record.
pub open spec fn psf2_record_bytes(r: (Seq<char>, Seq<Seq<char>>)) -> Seq<u8> {
    vstd::utf8::encode_utf8(r.0) + psf2_seqs_bytes(r.1) + seq![0xFFu8]
}

/// The bytes of a PSF2 unicode table made of the records `recs`, one per glyph, in order.
pub open spec fn psf2_table_bytes(recs: Seq<(Seq<char>, Seq<Seq<char>>)>) -> Seq<u8>
    decreases recs.len(),
{
    if recs.len() == 0 {
        seq![]
    } else {
        psf2_table_bytes(recs.drop_last()) + psf2_record_bytes(recs.last())
    }
}

/// Record `r` lists `c`: among its single characters, or as a sequence of `c` alone.
pub open spec fn psf2_lists(r: (Seq<char>, Seq<Seq<char>>), c: char) -> bool {
    r.0.contains(c) || r.1.contains(seq![c])
}

/// No sequence of any record is empty.
pub open spec fn psf2_seqs_nonempty(recs: Seq<(Seq<char>, Seq<Seq<char>>)>) -> bool {
    forall|k: int, q: int| 0 <= k < recs.len() && 0 <= q < recs[k].1.len() ==> (#[trigger] recs[k].1[q]).len() > 0
}

/// The UTF-8 encoding of a character: its first byte tells its length, it holds neither 0xFE nor
/// 0xFF, and it is one byte exactly for ASCII characters, that byte being the character.
proof fn lemma_utf8_char(c: char)
    ensures
        ({
            let e = vstd::utf8::encode_scalar(c as u32);
            &&& 1 <= e.len() <= 4
            &&& utf8_len(e[0]) == Some(e.len())
            &&& forall|k: int| 0 <= k < e.len() ==> e[k] != 0xFEu8 && e[k] != 0xFFu8
            &&& (c as u32 > 0x7F ==> e.len() >= 2)
            &&& (c as u32 <= 0x7F ==> e.len() == 1 && e[0] as u32 == c as u32)
        }),
{
    vstd::utf8::char_is_scalar(c);
    let v = c as u32;
    if vstd::utf8::has_width_1_encoding(v) {
        assert((v & 0x7F) as u8 <= 0x7F && ((v & 0x7F) as u8) as u32 == v) by (bit_vector)
            requires
                v <= 0x7F,
        ;
    } else if vstd::utf8::has_width_2_encoding(v) {
        assert(0xC2 <= (0xC0 | ((v >> 6) & 0x1F) as u8) <= 0xDF && 0x80 <= (0x80 | (v & 0x3F) as u8) <= 0xBF) by (bit_vector)
            requires
                0x80 <= v <= 0x7FF,
        ;
    } else if vstd::utf8::has_width_3_encoding(v) {
        assert(0xE0 <= (0xE0 | ((v >> 12) & 0x0F) as u8) <= 0xEF && 0x80 <= (0x80 | ((v >> 6) & 0x3F) as u8) <= 0xBF && 0x80
            <= (0x80 | (v & 0x3F) as u8) <= 0xBF) by (bit_vector)
            requires
                0x800 <= v <= 0xFFFF,
        ;
    } else {
        assert(0xF0 <= (0xF0 | ((v >> 18) & 0x7) as u8) <= 0xF4 && 0x80 <= (0x80 | ((v >> 12) & 0x3F) as u8) <= 0xBF && 0x80
            <= (0x80 | ((v >> 6) & 0x3F) as u8) <= 0xBF && 0x80 <= (0x80 | (v & 0x3F) as u8) <= 0xBF) by (bit_vector)
            requires
                0x10000 <= v <= 0x10FFFF,
        ;
    }
}

/// The UTF-8 encoding of characters holds neither 0xFE nor 0xFF.
proof fn lemma_utf8_no_marks(cs: Seq<char>)
    ensures
        forall|k: int| 0 <= k < vstd::utf8::encode_utf8(cs).len() ==> #[trigger] vstd::utf8::encode_utf8(cs)[k] != 0xFEu8
            && vstd::utf8::encode_utf8(cs)[k] != 0xFFu8,
        cs.len() > 0 ==> vstd::utf8::encode_utf8(cs).len() > 0,
    decreases cs.len(),
{
    if cs.len() > 0 {
        lemma_utf8_char(cs[0]);
        lemma_utf8_no_marks(cs.drop_first());
        let e0 = vstd::utf8::encode_scalar(cs[0] as u32);
        let r = vstd::utf8::encode_utf8(cs.drop_first());
        assert(vstd::utf8::encode_utf8(cs) == e0 + r);
        assert forall|k: int| 0 <= k < vstd::utf8::encode_utf8(cs).len() implies #[trigger] vstd::utf8::encode_utf8(cs)[k] != 0xFEu8
            && vstd::utf8::encode_utf8(cs)[k] != 0xFFu8 by {
            if k < e0.len() {
                assert(vstd::utf8::encode_utf8(cs)[k] == e0[k]);
            } else {
                assert(vstd::utf8::encode_utf8(cs)[k] == r[k - e0.len()]);
            }
        }
    }
}

/// The bytes of sequences hold no 0xFF.
proof fn lemma_seqs_no_ff(ss: Seq<Seq<char>>)
    ensures
        forall|k: int| 0 <= k < psf2_seqs_bytes(ss).len() ==> #[trigger] psf2_seqs_bytes(ss)[k] != 0xFFu8,
    decreases ss.len(),
{
    if ss.len() > 0 {
        lemma_utf8_no_marks(ss[0]);
        lemma_seqs_no_ff(ss.drop_first());
        let a = seq![0xFEu8] + vstd::utf8::encode_utf8(ss[0]);
        let r = psf2_seqs_bytes(ss.drop_first());
        assert forall|k: int| 0 <= k < psf2_seqs_bytes(ss).len() implies #[trigger] psf2_seqs_bytes(ss)[k] != 0xFFu8 by {
            if k == 0 {
            } else if k < a.len() {
                assert(psf2_seqs_bytes(ss)[k] == vstd::utf8::encode_utf8(ss[0])[k - 1]);
            } else {
                assert(psf2_seqs_bytes(ss)[k] == r[k - a.len()]);
            }
        }
    }
}

/// Characters encode as the one character `c` exactly when they are `c` alone.
proof fn lemma_utf8_is_char(cs: Seq<char>, c: char)
    ensures
        vstd::utf8::encode_utf8(cs) == vstd::utf8::encode_scalar(c as u32) <==> cs == seq![c],
{
    let one = seq![c];
    assert(one.drop_first() =~= Seq::<char>::empty());
    assert(one[0] == c);
    assert(vstd::utf8::encode_utf8(one.drop_first()) == Seq::<u8>::empty());
    assert(vstd::utf8::encode_utf8(one) == vstd::utf8::encode_scalar(one[0] as u32) + vstd::utf8::encode_utf8(one.drop_first()));
    assert(vstd::utf8::encode_utf8(one) =~= vstd::utf8::encode_scalar(c as u32));
    vstd::utf8::encode_utf8_decode_utf8(cs);
    vstd::utf8::encode_utf8_decode_utf8(one);
}

/// `find_in` stops at `q` when nothing before it is `x` and `q` holds `x` or is the end.
proof fn lemma_find_at(t: Seq<u8>, x: u8, lo: int, q: int, hi: int)
    requires
        lo <= q <= hi,
        forall|k: int| lo <= k < q ==> t[k] != x,
        q < hi ==> t[q] == x,
    ensures
        find_in(t, x, lo, hi) == q,
{
    lemma_find_in(t, x, lo, hi);
}

/// Scanning single characters `cs` laid out from `p` finds `c` among them, or goes on after them.
proof fn lemma_scan_singles(t: Seq<u8>, c: char, cs: Seq<char>, p: int, hi: int)
    requires
        0 <= p,
        p + vstd::utf8::encode_utf8(cs).len() <= hi <= t.len(),
        t.subrange(p, p + vstd::utf8::encode_utf8(cs).len()) == vstd::utf8::encode_utf8(cs),
    ensures
        scan_record::<u8>(t, vstd::utf8::encode_scalar(c as u32), p, hi, false) == if cs.contains(c) {
            ScanOutcome::Match
        } else {
            scan_record::<u8>(t, vstd::utf8::encode_scalar(c as u32), p + vstd::utf8::encode_utf8(cs).len(), hi, false)
        },
    decreases cs.len(),
{
    if cs.len() > 0 {
        let e = vstd::utf8::encode_scalar(c as u32);
        let e0 = vstd::utf8::encode_scalar(cs[0] as u32);
        let rest = cs.drop_first();
        let er = vstd::utf8::encode_utf8(rest);
        assert(vstd::utf8::encode_utf8(cs) == e0 + er);
        lemma_utf8_char(cs[0]);
        let n = e0.len() as int;
        assert(t[p] == e0[0]) by {
            assert(t.subrange(p, p + vstd::utf8::encode_utf8(cs).len())[0] == t[p]);
        }
        assert(t.subrange(p, p + n) =~= e0) by {
            assert forall|k: int| 0 <= k < n implies t.subrange(p, p + n)[k] == e0[k] by {
                assert(t.subrange(p, p + vstd::utf8::encode_utf8(cs).len())[k] == t[p + k]);
            }
        }
        assert(t.subrange(p + n, p + n + er.len()) =~= er) by {
            assert forall|k: int| 0 <= k < er.len() implies t.subrange(p + n, p + n + er.len())[k] == er[k] by {
                assert(t.subrange(p, p + vstd::utf8::encode_utf8(cs).len())[n + k] == t[p + n + k]);
                assert((e0 + er)[n + k] == er[k]);
            }
        }
        lemma_utf8_is_char(seq![cs[0]], c);
        lemma_utf8_is_char(seq![c], cs[0]);
        assert(seq![cs[0]] == seq![c] ==> cs[0] == seq![cs[0]][0]);
        assert(e0 == e <==> cs[0] == c) by {
            let a = seq![cs[0]];
            assert(a.drop_first() =~= Seq::<char>::empty());
            assert(vstd::utf8::encode_utf8(a.drop_first()) == Seq::<u8>::empty());
            assert(vstd::utf8::encode_utf8(a) == e0 + vstd::utf8::encode_utf8(a.drop_first()));
            assert(vstd::utf8::encode_utf8(a) =~= e0);
            if a == seq![c] {
                assert(a[0] == seq![c][0]);
            }
        }
        lemma_scan_singles(t, c, rest, p + n, hi);
        assert(cs.contains(c) <==> cs[0] == c || rest.contains(c)) by {
            if cs.contains(c) && cs[0] != c {
                let k = choose|k: int| 0 <= k < cs.len() && cs[k] == c;
                assert(rest[k - 1] == c);
            }
            if rest.contains(c) {
                let k = choose|k: int| 0 <= k < rest.len() && rest[k] == c;
                assert(cs[k + 1] == c);
            }
        }
    }
}

/// Scanning the sequences `ss` laid out from `p` up to `hi` finds `c` exactly when one of them is `c` alone.
proof fn lemma_scan_seqs(t: Seq<u8>, c: char, ss: Seq<Seq<char>>, p: int, hi: int, flag: bool)
    requires
        0 <= p,
        hi == p + psf2_seqs_bytes(ss).len(),
        hi <= t.len(),
        t.subrange(p, hi) == psf2_seqs_bytes(ss),
        forall|q: int| 0 <= q < ss.len() ==> (#[trigger] ss[q]).len() > 0,
    ensures
        scan_record::<u8>(t, vstd::utf8::encode_scalar(c as u32), p, hi, flag) == if ss.contains(seq![c]) {
            ScanOutcome::Match
        } else {
            ScanOutcome::NoMatch
        },
    decreases ss.len(),
{
    let e = vstd::utf8::encode_scalar(c as u32);
    if ss.len() > 0 {
        let s0 = ss[0];
        let b0 = vstd::utf8::encode_utf8(s0);
        let rest = ss.drop_first();
        let br = psf2_seqs_bytes(rest);
        let whole = psf2_seqs_bytes(ss);
        assert(whole == seq![0xFEu8] + b0 + br);
        assert(s0.len() > 0);
        lemma_utf8_no_marks(s0);
        let p1 = p + 1;
        let q = p1 + b0.len();
        assert(t[p] == 0xFEu8) by {
            assert(t.subrange(p, hi)[0] == t[p]);
        }
        assert forall|k: int| 0 <= k < b0.len() implies t[p1 + k] == #[trigger] b0[k] by {
            assert(t.subrange(p, hi)[1 + k] == t[p1 + k]);
            assert(whole[1 + k] == b0[k]);
        }
        assert(t.subrange(p1, q) =~= b0);
        assert(t.subrange(q, hi) =~= br) by {
            assert forall|k: int| 0 <= k < br.len() implies t.subrange(q, hi)[k] == br[k] by {
                assert(t.subrange(p, hi)[1 + b0.len() + k] == t[q + k]);
                assert(whole[1 + b0.len() + k] == br[k]);
            }
        }
        if q < hi {
            assert(rest.len() > 0);
            assert(br[0] == 0xFEu8);
            assert(t[q] == 0xFEu8) by {
                assert(t.subrange(q, hi)[0] == t[q]);
            }
        }
        assert(t[p1] != 0xFEu8) by {
            assert(t[p1 + 0] == b0[0]);
        }
        assert forall|k: int| p1 <= k < q implies t[k] != 0xFEu8 by {
            assert(t[p1 + (k - p1)] == b0[k - p1]);
        }
        lemma_find_at(t, 0xFEu8, p1, q, hi);
        lemma_utf8_is_char(s0, c);
        assert(scan_record::<u8>(t, e, p, hi, flag) == scan_record::<u8>(t, e, p1, hi, true));
        if b0 != e {
            assert(scan_record::<u8>(t, e, p1, hi, true) == scan_record::<u8>(t, e, q, hi, true));
        }
        assert(forall|q2: int| 0 <= q2 < rest.len() ==> (#[trigger] rest[q2]).len() > 0) by {
            assert forall|q2: int| 0 <= q2 < rest.len() implies (#[trigger] rest[q2]).len() > 0 by {
                assert(rest[q2] == ss[q2 + 1]);
            }
        }
        lemma_scan_seqs(t, c, rest, q, hi, true);
        assert(ss.contains(seq![c]) <==> s0 == seq![c] || rest.contains(seq![c])) by {
            if ss.contains(seq![c]) && s0 != seq![c] {
                let k = choose|k: int| 0 <= k < ss.len() && ss[k] == seq![c];
                assert(rest[k - 1] == seq![c]);
            }
            if rest.contains(seq![c]) {
                let k = choose|k: int| 0 <= k < rest.len() && rest[k] == seq![c];
                assert(ss[k + 1] == seq![c]);
            }
        }
    }
}

/// Scanning record `r` laid out from `p`: its end is its 0xFF, and it lists `c` exactly when
/// [psf2_lists] says so.
proof fn lemma_scan_record_bytes(t: Seq<u8>, c: char, r: (Seq<char>, Seq<Seq<char>>), p: int)
    requires
        0 <= p,
        p + psf2_record_bytes(r).len() <= t.len(),
        t.subrange(p, p + psf2_record_bytes(r).len()) == psf2_record_bytes(r),
        forall|q: int| 0 <= q < r.1.len() ==> (#[trigger] r.1[q]).len() > 0,
    ensures
        find_in(t, 0xFFu8, p, t.len() as int) == p + psf2_record_bytes(r).len() - 1,
        scan_record::<u8>(t, vstd::utf8::encode_scalar(c as u32), p, p + psf2_record_bytes(r).len() - 1, false) == if psf2_lists(
            r,
            c,
        ) {
            ScanOutcome::Match
        } else {
            ScanOutcome::NoMatch
        },
{
    let es = vstd::utf8::encode_utf8(r.0);
    let bs = psf2_seqs_bytes(r.1);
    let rb = psf2_record_bytes(r);
    let q = p + es.len();
    let hi = q + bs.len();
    assert(rb == es + bs + seq![0xFFu8]);
    assert(hi == p + rb.len() - 1);
    lemma_utf8_no_marks(r.0);
    lemma_seqs_no_ff(r.1);
    assert forall|k: int| p <= k < hi implies t[k] != 0xFFu8 by {
        assert(t.subrange(p, p + rb.len())[k - p] == t[k]);
        if k < q {
            assert(rb[k - p] == es[k - p]);
        } else {
            assert(rb[k - p] == bs[k - q]);
        }
    }
    assert(t[hi] == 0xFFu8) by {
        assert(t.subrange(p, p + rb.len())[rb.len() - 1] == t[hi]);
    }
    lemma_find_at(t, 0xFFu8, p, hi, t.len() as int);
    assert(t.subrange(p, q) =~= es) by {
        assert forall|k: int| 0 <= k < es.len() implies t.subrange(p, q)[k] == es[k] by {
            assert(t.subrange(p, p + rb.len())[k] == t[p + k]);
            assert(rb[k] == es[k]);
        }
    }
    assert(t.subrange(q, hi) =~= bs) by {
        assert forall|k: int| 0 <= k < bs.len() implies t.subrange(q, hi)[k] == bs[k] by {
            assert(t.subrange(p, p + rb.len())[es.len() + k] == t[q + k]);
            assert(rb[es.len() + k] == bs[k]);
        }
    }
    lemma_scan_singles(t, c, r.0, p, hi);
    lemma_scan_seqs(t, c, r.1, q, hi, false);
}

/// The table of the first `k + 1` records is that of the first `k` and record `k`.
proof fn lemma_table_step(recs: Seq<(Seq<char>, Seq<Seq<char>>)>, k: int)
    requires
        0 <= k < recs.len(),
    ensures
        psf2_table_bytes(recs.take(k + 1)) == psf2_table_bytes(recs.take(k)) + psf2_record_bytes(recs[k]),
{
    assert(recs.take(k + 1).drop_last() =~= recs.take(k));
    assert(recs.take(k + 1).last() == recs[k]);
}

/// The table of the first `k` records starts the table of all of them.
proof fn lemma_table_prefix(recs: Seq<(Seq<char>, Seq<Seq<char>>)>, k: int)
    requires
        0 <= k <= recs.len(),
    ensures
        psf2_table_bytes(recs.take(k)).len() <= psf2_table_bytes(recs).len(),
        forall|j: int| 0 <= j < psf2_table_bytes(recs.take(k)).len() ==> #[trigger] psf2_table_bytes(recs)[j]
            == psf2_table_bytes(recs.take(k))[j],
    decreases recs.len(),
{
    if k == recs.len() {
        assert(recs.take(k) =~= recs);
    } else {
        let d = recs.drop_last();
        lemma_table_prefix(d, k);
        assert(d.take(k) =~= recs.take(k));
        assert(psf2_table_bytes(recs) == psf2_table_bytes(d) + psf2_record_bytes(recs.last()));
    }
}

/// In a table made of `recs` (and any bytes after them), record `k` starts where the first `k` records
/// end, ends at its 0xFF, and lists `c` exactly when [psf2_lists] says so.
proof fn lemma_table_records(recs: Seq<(Seq<char>, Seq<Seq<char>>)>, tail: Seq<u8>, c: char, k: int)
    requires
        psf2_seqs_nonempty(recs),
        0 <= k <= recs.len(),
    ensures
        rec_start::<u8>(psf2_table_bytes(recs) + tail, k as nat) == psf2_table_bytes(recs.take(k)).len(),
        k < recs.len() ==> rec_end::<u8>(psf2_table_bytes(recs) + tail, k as nat) == psf2_table_bytes(recs.take(k + 1)).len() - 1,
        k < recs.len() ==> record_scan::<u8>(psf2_table_bytes(recs) + tail, vstd::utf8::encode_scalar(c as u32), k as nat) == if psf2_lists(
            recs[k],
            c,
        ) {
            ScanOutcome::Match
        } else {
            ScanOutcome::NoMatch
        },
    decreases k,
{
    let t = psf2_table_bytes(recs) + tail;
    if k == 0 {
        assert(recs.take(0) =~= Seq::<(Seq<char>, Seq<Seq<char>>)>::empty());
    } else {
        lemma_table_records(recs, tail, c, k - 1);
    }
    if k < recs.len() {
        let p = psf2_table_bytes(recs.take(k)).len() as int;
        let rb = psf2_record_bytes(recs[k]);
        lemma_table_step(recs, k);
        lemma_table_prefix(recs, k + 1);
        assert(t.subrange(p, p + rb.len()) =~= rb) by {
            assert forall|j: int| 0 <= j < rb.len() implies t.subrange(p, p + rb.len())[j] == rb[j] by {
                assert(psf2_table_bytes(recs)[p + j] == psf2_table_bytes(recs.take(k + 1))[p + j]);
            }
        }
        assert(forall|q: int| 0 <= q < recs[k].1.len() ==> (#[trigger] recs[k].1[q]).len() > 0);
        lemma_scan_record_bytes(t, c, recs[k], p);
    }
    if k > 0 {
        let p = psf2_table_bytes(recs.take(k - 1)).len() as int;
        let rb = psf2_record_bytes(recs[k - 1]);
        lemma_table_step(recs, k - 1);
        lemma_table_prefix(recs, k);
        assert(t.subrange(p, p + rb.len()) =~= rb) by {
            assert forall|j: int| 0 <= j < rb.len() implies t.subrange(p, p + rb.len())[j] == rb[j] by {
                assert(psf2_table_bytes(recs)[p + j] == psf2_table_bytes(recs.take(k))[p + j]);
            }
        }
        assert(forall|q: int| 0 <= q < recs[k - 1].1.len() ==> (#[trigger] recs[k - 1].1[q]).len() > 0);
        lemma_scan_record_bytes(t, c, recs[k - 1], p);
    }
}

/// Looking up a character that is not ASCII in a PSF2 font whose unicode table is made of the records
/// `recs` (one per glyph, followed by any bytes) gives the glyph of the first record that lists it:
/// glyph `i` is bytes `i * bytesperglyph .. (i + 1) * bytesperglyph` of the glyphs, and there is none
/// when the font has fewer than `i + 1` glyphs.
pub proof fn law_psf2_unicode_lookup(
    m: Psf2Model,
    recs: Seq<(Seq<char>, Seq<Seq<char>>)>,
    tail: Seq<u8>,
    c: char,
    i: int,
)
    requires
        m.unicode_mappings == psf2_table_bytes(recs) + tail,
        psf2_seqs_nonempty(recs),
        c as u32 > 0x7F,
        0 <= i < recs.len(),
        i <= u32::MAX,
        psf2_lists(recs[i], c),
        forall|k: int| 0 <= k < i ==> !psf2_lists(#[trigger] recs[k], c),
    ensures
        (match psf2_glyph_index(m, c) {
            Some(g) => psf2_glyph_at(m, g),
            None => None,
        }) == if i < m.numglyph {
            Some(m.glyphs.subrange(i * m.bytesperglyph, (i + 1) * m.bytesperglyph))
        } else {
            None::<Seq<u8>>
        },
{
    let t = m.unicode_mappings;
    let e = vstd::utf8::encode_scalar(c as u32);
    lemma_utf8_char(c);
    lemma_table_records(recs, tail, c, i);
    lemma_table_prefix(recs, i);
    assert forall|j: nat| j < i implies #[trigger] record_scan::<u8>(t, e, j) == ScanOutcome::NoMatch && rec_end::<u8>(t, j) < t.len() by {
        lemma_table_records(recs, tail, c, j as int);
        lemma_table_prefix(recs, j + 1int);
    }
    assert(first_listing(t, e, i as nat));
    law_scan_finds_first_listing(t, e, i as nat);
    assert(psf2_glyph_index(m, c) == Some(i as u32));
    assert((i + 1) * m.bytesperglyph == i * m.bytesperglyph + m.bytesperglyph) by (nonlinear_arith);
}

/// The scan numbers records up from `i`.
proof fn lemma_scan_index_from(t: Seq<u8>, chr: Seq<u8>, pos: int, i: int)
    ensures
        scan_table(t, chr, pos, i) matches Some(r) ==> r >= i,
    decreases t.len() - pos,
{
    if 0 <= pos <= t.len() {
        lemma_find_in(t, 0xFFu8, pos, t.len() as int);
        let hi = find_in(t, 0xFFu8, pos, t.len() as int);
        if hi < t.len() && hi >= pos {
            lemma_scan_index_from(t, chr, hi + 1, i + 1);
        }
    }
}

/// A character that is not ASCII and that no record of a PSF2 font's unicode table lists (the table being
/// made of the records `recs` alone) has no glyph.
pub proof fn law_psf2_unlisted_no_glyph(m: Psf2Model, recs: Seq<(Seq<char>, Seq<Seq<char>>)>, c: char)
    requires
        m.unicode_mappings == psf2_table_bytes(recs),
        psf2_seqs_nonempty(recs),
        c as u32 > 0x7F,
        forall|k: int| 0 <= k < recs.len() ==> !psf2_lists(#[trigger] recs[k], c),
    ensures
        psf2_glyph_index(m, c) is None,
{
    let t = m.unicode_mappings;
    let e = vstd::utf8::encode_scalar(c as u32);
    let tail = Seq::<u8>::empty();
    assert(t == psf2_table_bytes(recs) + tail);
    lemma_utf8_char(c);
    if scan_table(t, e, 0, 0) is Some {
        let k = scan_table(t, e, 0, 0)->0;
        lemma_scan_index_from(t, e, 0, 0);
        law_scan_finds_first_listing(t, e, k as nat);
        assert(first_listing(t, e, k as nat));
        let n = recs.len() as int;
        lemma_table_records(recs, tail, c, n);
        assert(recs.take(n) =~= recs);
        if k < n {
            lemma_table_records(recs, tail, c, k);
        } else if k == n {
            assert(record_scan::<u8>(t, e, n as nat) == ScanOutcome::NoMatch);
        } else {
            assert(rec_end::<u8>(t, n as nat) == t.len());
            assert(record_scan::<u8>(t, e, n as nat) == ScanOutcome::NoMatch && rec_end::<u8>(t, n as nat) < t.len());
        }
    }
}

/// An ASCII character's glyph is the glyph whose index is its code: bytes `code * bytesperglyph ..
/// (code + 1) * bytesperglyph` of the glyphs, none when the font has no glyph of that index.
pub proof fn law_psf2_ascii_glyph(m: Psf2Model, c: char)
    requires
        c as u32 <= 0x7F,
    ensures
        psf2_glyph_index(m, c) == Some(c as u32),
        (match psf2_glyph_index(m, c) {
            Some(g) => psf2_glyph_at(m, g),
            None => None,
        }) == if (c as u32) < m.numglyph {
            Some(m.glyphs.subrange((c as u32) * m.bytesperglyph, (c as u32 + 1) * m.bytesperglyph))
        } else {
            None::<Seq<u8>>
        },
{
    lemma_utf8_char(c);
    let i = c as u32;
    assert((i + 1) * m.bytesperglyph == i * m.bytesperglyph + m.bytesperglyph) by (nonlinear_arith);
}

/// A PSF2 font over the bytes it was parsed from.
pub struct Psf2Font<'a> {
    header: Psf2Header,
    glyphs: &'a [u8],
    unicode_mappings: &'a [u8],
}

impl<'a> Psf2Font<'a> {
    #[verifier::type_invariant]
    spec fn inv(self) -> bool {
        self.glyphs@.len() == self.header.numglyph * self.header.bytesperglyph
    }

    /// The font, as values.
    pub closed spec fn model(&self) -> Psf2Model {
        Psf2Model {
            headersize: self.header.headersize,
            flags: self.header.flags,
            numglyph: self.header.numglyph,
            bytesperglyph: self.header.bytesperglyph,
            height: self.header.height,
            width: self.header.width,
            glyphs: self.glyphs@,
            unicode_mappings: self.unicode_mappings@,
        }
    }

    /// Parses `font_bytes` as a PSF2 font.
    pub fn from_bytes(font_bytes: &'a [u8]) -> (r: Result<Self, PsfError>)
        ensures
            match r {
                Ok(f) => psf2_parse(font_bytes@) == Ok::<Psf2Model, PsfError>(f.model()),
                Err(e) => psf2_parse(font_bytes@) == Err::<Psf2Model, PsfError>(e),
            },
    {
        let len = font_bytes.len();
        if len < 32 {
            return Err(PsfError::MalformedHeader);
        }
        let magic = read_le_u32(font_bytes, 0);
        if magic != 0x864ab572 {
            return Err(PsfError::WrongMagicValue);
        }
        // only version 0 is supported (as it is the only one that exists, for now)
        let version = read_le_u32(font_bytes, 4);
        if version != 0 {
            return Err(PsfError::UnsupportedVersion);
        }
        let header = Psf2Header {
            magic,
            version,
            headersize: read_le_u32(font_bytes, 8),
            flags: read_le_u32(font_bytes, 12),
            numglyph: read_le_u32(font_bytes, 16),
            bytesperglyph: read_le_u32(font_bytes, 20),
            height: read_le_u32(font_bytes, 24),
            width: read_le_u32(font_bytes, 28),
        };
        let glyphs_offset: u64 = header.headersize as u64;
        assert(header.numglyph * header.bytesperglyph <= 0xFFFF_FFFE_0000_0001) by (nonlinear_arith)
            requires
                header.numglyph <= 0xFFFF_FFFF,
                header.bytesperglyph <= 0xFFFF_FFFF,
        ;
        let glyphs_size: u64 = header.numglyph as u64 * header.bytesperglyph as u64;
        let unicode_offset: u64 = glyphs_offset + glyphs_size;
        if (header.flags & 0x1) != 0 {
            // the unicode mapping table must have positive size
            if unicode_offset >= len as u64 {
                return Err(PsfError::MalformedUnicodeMappingTable);
            }
            let glyphs = slice_subrange(font_bytes, glyphs_offset as usize, unicode_offset as usize);
            let unicode_mappings = slice_subrange(font_bytes, unicode_offset as usize, len);
            Ok(Psf2Font { header, glyphs, unicode_mappings })
        } else {
            // sanity check the bitmap glyphs size
            if unicode_offset > len as u64 {
                return Err(PsfError::MalformedGlyphsTable);
            }
            let glyphs = slice_subrange(font_bytes, glyphs_offset as usize, unicode_offset as usize);
            let unicode_mappings = slice_subrange(font_bytes, 0, 0);
            let r = Psf2Font { header, glyphs, unicode_mappings };
            assert(r.model().unicode_mappings =~= seq![]);
            Ok(r)
        }
    }

    /// The bitmap of glyph `idx`, `None` past the last glyph.
    fn get_glyph_by_idx(&self, idx: u32) -> (r: Option<&'a [u8]>)
        ensures
            glyph_view(r) == psf2_glyph_at(self.model(), idx),
    {
        proof {
            use_type_invariant(self);
        }
        if idx >= self.header.numglyph {
            return None;
        }
        let bpg = self.header.bytesperglyph as usize;
        let glen = self.glyphs.len();
        assert(idx * bpg + bpg <= self.header.numglyph * bpg) by (nonlinear_arith)
            requires
                idx < self.header.numglyph,
        ;
        let start = idx as usize * bpg;
        let end = start + bpg;
        Some(slice_subrange(self.glyphs, start, end))
    }

    /// How many bytes the UTF-8 character that starts with `b` takes; `None` for a continuation or invalid byte.
    pub fn next_utf8_len(b: u8) -> (r: Option<usize>)
        ensures
            r matches Some(n) ==> crate::graphics::klogger::psf::unicode_table::utf8_len(b) == Some(n as nat),
            r is None ==> crate::graphics::klogger::psf::unicode_table::utf8_len(b) is None,
    {
        crate::graphics::klogger::psf::unicode_table::next_utf8_len(b)
    }

    /// The index of the record of the unicode table that lists `chr`.
    fn scan_unicode_table(&self, chr: &[u8]) -> (r: Option<u32>)
        ensures
            r == (match scan_table(self.model().unicode_mappings, chr@, 0, 0) {
                Some(i) => Some(#[verifier::truncate] (i as u32)),
                None => None,
            }),
    {
        scan_unicode_table(self.unicode_mappings, chr)
    }

    /// The bitmap of the glyph that draws `chr`, if the font has one.
    pub fn get_glyph(&self, chr: char) -> (r: Option<&'a [u8]>)
        ensures
            glyph_view(r) == (match psf2_glyph_index(self.model(), chr) {
                Some(i) => psf2_glyph_at(self.model(), i),
                None => None,
            }),
    {
        let bytes = encode_utf8(chr);
        // check if the character is simple ASCII
        if bytes.len() == 1 && bytes[0] <= 0x7f {
            return self.get_glyph_by_idx(bytes[0] as u32);
        }
        if let Some(idx) = self.scan_unicode_table(bytes.as_slice()) {
            return self.get_glyph_by_idx(idx);
        }
        None
    }

    pub fn pixel_width(&self) -> (r: u32)
        ensures
            r == self.model().width,
    {
        self.header.width
    }

    pub fn pixel_height(&self) -> (r: u32)
        ensures
            r == self.model().height,
    {
        self.header.height
    }
}

} // verus!
