//! The two shaping engines, as sources of glyph runs.
//!
//! What a shaper returns for a text is its own affair. What this module
//! adds is certain whatever the shaper returned: the pen positions that go
//! with the glyphs.

use vstd::prelude::*;
use vstd::string::StringSliceAdditionalSpecFns;
use crate::glyph::{pen_position_spec, pen_positions, pens_fit, GlyphRecord, PenPosition};

verus! {

/// `rustybuzz::Face`: a font as rustybuzz holds it. It is handed on to the
/// shaper as it came; nothing is read from it here.
#[verifier::external_type_specification]
#[verifier::external_body]
pub struct ExRustybuzzFace<'a>(rustybuzz::Face<'a>);

/// `harfbuzz_rs::Font`: a font as harfbuzz holds it. It is handed on to the
/// shaper as it came; nothing is read from it here.
#[verifier::external_type_specification]
#[verifier::external_body]
pub struct ExHarfbuzzFont<'a>(harfbuzz_rs::Font<'a>);

/// A line of text as one shaper placed it: the glyphs in the shaper's
/// order, and the pen position of each where the caret stays in range.
pub struct ShapedRun {
    pub glyphs: Vec<GlyphRecord>,
    pub pens: Option<Vec<PenPosition>>,
}

impl ShapedRun {
    /// Whether the pens are those of the glyphs.
    pub open spec fn well_formed(self) -> bool {
        &&& self.pens is Some <==> pens_fit(self.glyphs@, self.glyphs@.len() as int)
        &&& self.pens matches Some(list) ==> {
            &&& list@.len() == self.glyphs@.len()
            &&& forall|i: int|
                0 <= i < list@.len() ==> #[trigger] list@[i] == pen_position_spec(self.glyphs@, i)
        }
    }
}

/// The glyphs that rustybuzz gives for a text in a face, with no features
/// asked for: they depend on the face and the text alone.
pub uninterp spec fn rustybuzz_glyphs(face: rustybuzz::Face<'_>, text: Seq<char>) -> Seq<GlyphRecord>;

/// `rustybuzz::shape`, with no features, on a buffer that holds the text:
/// the glyphs that the face gives for the text, each with its placement.
/// Of the glyphs themselves nothing is claimed but that the same face and
/// text give the same glyphs.
#[verifier::external_body]
fn rustybuzz_shape(face: &rustybuzz::Face<'_>, text: &str) -> (glyphs: Vec<GlyphRecord>)
    ensures
        glyphs@ == rustybuzz_glyphs(*face, text@),
{
    let mut buffer = rustybuzz::UnicodeBuffer::new();
    buffer.push_str(text);
    let shaped = rustybuzz::shape(face, &[], buffer);
    let placed = shaped.glyph_positions().iter().zip(shaped.glyph_infos());
    placed.map(|(p, g)| GlyphRecord {
        glyph_id: g.glyph_id,
        x_advance: p.x_advance,
        y_advance: p.y_advance,
        x_offset: p.x_offset,
        y_offset: p.y_offset,
    }).collect()
}

/// `harfbuzz_rs::shape`, with no features, on a buffer that holds the text:
/// the glyphs that the font gives for the text, each with its placement.
/// Nothing is claimed of them. The crate reads the text's length as a
/// signed 32-bit number and cannot read the glyphs of a buffer that never
/// held a character, so the precondition leaves out longer and empty texts.
#[verifier::external_body]
fn harfbuzz_shape(font: &harfbuzz_rs::Font<'_>, text: &str) -> Vec<GlyphRecord>
    requires
        0 < text.spec_bytes().len() <= i32::MAX,
{
    let buffer = harfbuzz_rs::UnicodeBuffer::new().add_str(text);
    let shaped = harfbuzz_rs::shape(font, buffer, &[]);
    let placed = shaped.get_glyph_positions().iter().zip(shaped.get_glyph_infos());
    placed.map(|(p, g)| GlyphRecord {
        glyph_id: g.codepoint,
        x_advance: p.x_advance,
        y_advance: p.y_advance,
        x_offset: p.x_offset,
        y_offset: p.y_offset,
    }).collect()
}

/// Shapes a line of text with rustybuzz and places the pen for each glyph.
pub fn shape_with_rustybuzz(face: &rustybuzz::Face<'_>, text: &str) -> (run: ShapedRun)
    ensures
        run.glyphs@ == rustybuzz_glyphs(*face, text@),
        run.well_formed(),
{
    let glyphs = rustybuzz_shape(face, text);
    let pens = pen_positions(&glyphs);
    ShapedRun { glyphs, pens }
}

/// Shapes a line of text with harfbuzz and places the pen for each glyph.
/// An empty text gives an empty run; `None` where the text is longer than
/// harfbuzz can take. Which glyphs harfbuzz gives is not stated: it reads
/// settings of the process it runs in.
pub fn shape_with_harfbuzz(font: &harfbuzz_rs::Font<'_>, text: &str) -> (run: Option<ShapedRun>)
    ensures
        run is Some <==> text.spec_bytes().len() <= i32::MAX,
        run matches Some(shaped) ==> {
            &&& shaped.well_formed()
            &&& text.spec_bytes().len() == 0 ==> shaped.glyphs@.len() == 0
        },
{
    let length = text.as_bytes().len();
    if length > 0x7fff_ffff {
        return None;
    }
    let glyphs = if length == 0 {
        Vec::new()
    } else {
        harfbuzz_shape(font, text)
    };
    let pens = pen_positions(&glyphs);
    Some(ShapedRun { glyphs, pens })
}

} // verus!
