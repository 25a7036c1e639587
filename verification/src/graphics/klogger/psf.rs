//! PC Screen Fonts (PSF1 and PSF2).
// Useful Resources:
// - https://docs.rs/spleen-font/latest/spleen_font/index.html
// - https://en.wikipedia.org/wiki/PC_Screen_Font
// - http://justsolve.archiveteam.org/wiki/PC_Screen_Font
use vstd::prelude::*;
use crate::graphics::klogger::psf::psf1::{
    glyph_view, law_psf1_unicode_lookup, psf1_glyph_at, psf1_glyph_index, psf1_lists, psf1_parse, psf1_records_ok, psf1_table_units, Psf1Font,
    Psf1Model,
};
use crate::graphics::klogger::psf::psf2::{
    law_psf2_unicode_lookup, psf2_glyph_at, psf2_glyph_index, psf2_lists, psf2_parse, psf2_seqs_nonempty, psf2_table_bytes, Psf2Font,
    Psf2Model,
};

pub mod unicode_table;
pub mod psf1;
pub mod psf2;

verus! {

#[derive(Debug, PartialEq, Eq, Structural, Clone, Copy)]
pub enum PsfError {
    MalformedHeader,
    MalformedUnicodeMappingTable,
    MalformedGlyphsTable,
    WrongMagicValue,
    UnsupportedVersion,
}

/// A parsed font, as values.
pub enum PsfModel {
    Type1(Psf1Model),
    Type2(Psf2Model),
}

/// What parsing `b` as a font gives: a PSF1 font if it parses as one, else a PSF2 font if it
/// parses as one, else both parsing errors (PSF1 first).
pub open spec fn psf_parse(b: Seq<u8>) -> Result<PsfModel, (PsfError, PsfError)> {
    match psf1_parse(b) {
        Ok(m) => Ok(PsfModel::Type1(m)),
        Err(e1) => match psf2_parse(b) {
            Ok(m) => Ok(PsfModel::Type2(m)),
            Err(e2) => Err((e1, e2)),
        },
    }
}

/// The bitmap of the glyph that draws `c` in the font `m`, if it has one.
pub open spec fn psf_glyph(m: PsfModel, c: char) -> Option<Seq<u8>> {
    match m {
        PsfModel::Type1(f) => match psf1_glyph_index(f, c) {
            Some(i) => psf1_glyph_at(f, i),
            None => None,
        },
        PsfModel::Type2(f) => match psf2_glyph_index(f, c) {
            Some(i) => psf2_glyph_at(f, i),
            None => None,
        },
    }
}

/// In a PSF2 font whose unicode table is made of the records `recs`, a character that is not ASCII
/// is drawn with the glyph of the first record that lists it.
pub proof fn law_psf_glyph_psf2_table(
    m: Psf2Model,
    recs: Seq<(Seq<char>, Seq<Seq<char>>)>,
    tail: Seq<u8>,
    c: char,
    i: int,
)
    requires
        m.unicode_mappings == psf2_table_bytes(recs) + tail,
        psf2_seqs_nonempty(recs),
        c as u32 > 0x7F,
        0 <= i < recs.len(),
        i <= u32::MAX,
        psf2_lists(recs[i], c),
        forall|k: int| 0 <= k < i ==> !psf2_lists(#[trigger] recs[k], c),
    ensures
        psf_glyph(PsfModel::Type2(m), c) == if i < m.numglyph {
            Some(m.glyphs.subrange(i * m.bytesperglyph, (i + 1) * m.bytesperglyph))
        } else {
            None::<Seq<u8>>
        },
{
    law_psf2_unicode_lookup(m, recs, tail, c, i);
}

/// In a PSF1 font whose unicode table is made of the well formed records `recs`, a character of the
/// basic multilingual plane that is not ASCII is drawn with the glyph of the first record that lists it.
pub proof fn law_psf_glyph_psf1_table(
    m: Psf1Model,
    recs: Seq<(Seq<u16>, Seq<Seq<u16>>)>,
    tail: Seq<u16>,
    c: char,
    i: int,
)
    requires
        m.unicode_mappings == psf1_table_units(recs) + tail,
        psf1_records_ok(recs),
        0x7F < c as u32 <= 0xFFFF,
        0 <= i < recs.len(),
        i <= u32::MAX,
        psf1_lists(recs[i], c as u16),
        forall|k: int| 0 <= k < i ==> !psf1_lists(#[trigger] recs[k], c as u16),
    ensures
        psf_glyph(PsfModel::Type1(m), c) == if i < (if m.mode & 0x1 != 0 { 512int } else { 256int }) {
            Some(m.glyphs.subrange(i * m.bytesperglyph, (i + 1) * m.bytesperglyph))
        } else {
            None::<Seq<u8>>
        },
{
    law_psf1_unicode_lookup(m, recs, tail, c, i);
}

enum PsfType<'a> {
    Type1(Psf1Font<'a>),
    Type2(Psf2Font<'a>),
}

/// A PC Screen Font of either version.
pub struct Psf<'a>(PsfType<'a>);

impl<'a> Psf<'a> {
    /// The font, as values.
    pub closed spec fn model(&self) -> PsfModel {
        match self.0 {
            PsfType::Type1(f) => PsfModel::Type1(f.model()),
            PsfType::Type2(f) => PsfModel::Type2(f.model()),
        }
    }

    /// Creates a Pc Screen Font (PSF) from `font_bytes`.
    ///
    /// In case the provided `font_bytes` cannot be parsed as either PSF1 or PSF2,
    /// their parsing errors will be returned in order PSF1 and then PSF2.
    pub fn from_bytes(font_bytes: &'a [u8]) -> (r: Result<Self, (PsfError, PsfError)>)
        ensures
            match r {
                Ok(f) => psf_parse(font_bytes@) == Ok::<PsfModel, (PsfError, PsfError)>(f.model()),
                Err(e) => psf_parse(font_bytes@) == Err::<PsfModel, (PsfError, PsfError)>(e),
            },
    {
        let psf1_err = match Psf1Font::from_bytes(font_bytes) {
            Ok(font) => {
                return Ok(Self(PsfType::Type1(font)));
            },
            Err(psf1_err) => psf1_err,
        };
        let psf2_err = match Psf2Font::from_bytes(font_bytes) {
            Ok(font) => {
                return Ok(Self(PsfType::Type2(font)));
            },
            Err(psf2_err) => psf2_err,
        };
        Err((psf1_err, psf2_err))
    }

    /// The bitmap of the glyph that draws `chr`, if the font has one.
    pub fn get_glyph(&self, chr: char) -> (r: Option<&'a [u8]>)
        ensures
            glyph_view(r) == psf_glyph(self.model(), chr),
    {
        match &self.0 {
            PsfType::Type1(font) => font.get_glyph(chr),
            PsfType::Type2(font) => font.get_glyph(chr),
        }
    }

    /// The width of a glyph in pixels.
    pub fn pixel_width(&self) -> (r: u32)
        ensures
            r == (match self.model() {
                PsfModel::Type1(_) => 8u32,
                PsfModel::Type2(m) => m.width,
            }),
    {
        match &self.0 {
            PsfType::Type1(font) => font.pixel_width(),
            PsfType::Type2(font) => font.pixel_width(),
        }
    }

    /// The height of a glyph in pixels.
    pub fn pixel_height(&self) -> (r: u32)
        ensures
            r == (match self.model() {
                PsfModel::Type1(m) => m.bytesperglyph as u32,
                PsfModel::Type2(m) => m.height,
            }),
    {
        match &self.0 {
            PsfType::Type1(font) => font.pixel_height(),
            PsfType::Type2(font) => font.pixel_height(),
        }
    }
}

} // verus!
