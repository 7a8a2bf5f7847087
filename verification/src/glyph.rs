//! Shaped glyphs and the caret that walks along a line of them.
//!
//! All lengths here are in the font's own units. The caret starts at zero
//! and moves by each glyph's horizontal advance, in the order in which the
//! shaper gave the glyphs.

use vstd::prelude::*;

verus! {

/// One glyph as a shaper places it: which glyph, how far the caret moves
/// after it, and how far the glyph is shifted from the caret.
#[derive(Clone, Copy, Debug, PartialEq, Eq, Structural)]
pub struct GlyphRecord {
    pub glyph_id: u32,
    pub x_advance: i32,
    pub y_advance: i32,
    pub x_offset: i32,
    pub y_offset: i32,
}

/// Where the pen stands for one glyph, before any scaling: the glyph to
/// outline, the caret plus the glyph's horizontal offset, and the glyph's
/// vertical offset.
#[derive(Clone, Copy, Debug, PartialEq, Eq, Structural)]
pub struct PenPosition {
    pub glyph: u16,
    pub x: i32,
    pub y_offset: i32,
}

/// The caret after the first `n` glyphs of a run.
pub open spec fn caret_after(glyphs: Seq<GlyphRecord>, n: int) -> int
    decreases n,
{
    if n <= 0 {
        0
    } else {
        caret_after(glyphs, n - 1) + glyphs[n - 1].x_advance
    }
}

/// The caret at the end of a run: the sum of its horizontal advances.
pub open spec fn total_advance(glyphs: Seq<GlyphRecord>) -> int {
    caret_after(glyphs, glyphs.len() as int)
}

/// Whether a value can be held in an `i32`.
pub open spec fn fits_i32(value: int) -> bool {
    i32::MIN <= value <= i32::MAX
}

/// The horizontal pen position of glyph `i`: the caret before it plus its
/// horizontal offset.
pub open spec fn pen_x(glyphs: Seq<GlyphRecord>, i: int) -> int {
    caret_after(glyphs, i) + glyphs[i].x_offset
}

/// Whether the caret and the pen stay within `i32` over the first `n`
/// glyphs of a run.
pub open spec fn pens_fit(glyphs: Seq<GlyphRecord>, n: int) -> bool {
    forall|i: int|
        0 <= i < n ==> fits_i32(#[trigger] pen_x(glyphs, i)) && fits_i32(
            caret_after(glyphs, i + 1),
        )
}

/// The pen position of glyph `i`. The glyph's identifier is cut to its low
/// sixteen bits, the width of an outline font's glyph index.
pub open spec fn pen_position_spec(glyphs: Seq<GlyphRecord>, i: int) -> PenPosition {
    PenPosition {
        glyph: (glyphs[i].glyph_id % 0x1_0000) as u16,
        x: pen_x(glyphs, i) as i32,
        y_offset: glyphs[i].y_offset,
    }
}

/// A bound on how far the caret can have moved after `n` glyphs.
pub proof fn lemma_caret_bound(glyphs: Seq<GlyphRecord>, n: int)
    requires
        0 <= n,
    ensures
        -0x8000_0000 * n <= caret_after(glyphs, n) <= 0x7fff_ffff * n,
    decreases n,
{
    if n > 0 {
        lemma_caret_bound(glyphs, n - 1);
    }
}

/// The glyph index that an outline font is asked for.
pub fn outline_glyph_index(glyph_id: u32) -> (index: u16)
    ensures
        index == glyph_id % 0x1_0000,
{
    (glyph_id % 0x1_0000) as u16
}

/// The sum of the horizontal advances of a run.
pub fn sum_advances(glyphs: &Vec<GlyphRecord>) -> (total: i128)
    ensures
        total == total_advance(glyphs@),
{
    let count = glyphs.len();
    let mut total: i128 = 0;
    let mut i: usize = 0;
    while i < count
        invariant
            count == glyphs@.len(),
            i <= count,
            total == caret_after(glyphs@, i as int),
        decreases count - i,
    {
        proof {
            lemma_caret_bound(glyphs@, i as int);
            assert(0x8000_0000 * i <= 0x8000_0000 * 0xffff_ffff_ffff_ffff) by (nonlinear_arith)
                requires
                    0 <= i <= 0xffff_ffff_ffff_ffff,
            ;
        }
        total = total + glyphs[i].x_advance as i128;
        i += 1;
    }
    total
}

/// The pen position of every glyph of a run, in order, with the caret
/// starting at zero. `None` where the caret or a pen position leaves the
/// range of an `i32`.
pub fn pen_positions(glyphs: &Vec<GlyphRecord>) -> (pens: Option<Vec<PenPosition>>)
    ensures
        pens is Some <==> pens_fit(glyphs@, glyphs@.len() as int),
        pens matches Some(list) ==> {
            &&& list@.len() == glyphs@.len()
            &&& forall|i: int|
                0 <= i < list@.len() ==> #[trigger] list@[i] == pen_position_spec(glyphs@, i)
        },
{
    let count = glyphs.len();
    let mut list: Vec<PenPosition> = Vec::new();
    let mut caret: i32 = 0;
    let mut i: usize = 0;
    while i < count
        invariant
            count == glyphs@.len(),
            i <= count,
            caret == caret_after(glyphs@, i as int),
            pens_fit(glyphs@, i as int),
            list@.len() == i,
            forall|k: int| 0 <= k < i ==> #[trigger] list@[k] == pen_position_spec(glyphs@, k),
        decreases count - i,
    {
        let glyph = glyphs[i];
        let x: i64 = caret as i64 + glyph.x_offset as i64;
        let next: i64 = caret as i64 + glyph.x_advance as i64;
        assert(x == pen_x(glyphs@, i as int));
        assert(next == caret_after(glyphs@, i + 1));
        if x < -0x8000_0000 || x > 0x7fff_ffff || next < -0x8000_0000 || next > 0x7fff_ffff {
            assert(!pens_fit(glyphs@, glyphs@.len() as int));
            return None;
        }
        list.push(
            PenPosition {
                glyph: outline_glyph_index(glyph.glyph_id),
                x: x as i32,
                y_offset: glyph.y_offset,
            },
        );
        proof {
            assert forall|k: int| 0 <= k < i + 1 implies fits_i32(#[trigger] pen_x(glyphs@, k))
                && fits_i32(caret_after(glyphs@, k + 1)) by {
                if k == i {
                    assert(fits_i32(x as int) && fits_i32(next as int));
                } else {
                    assert(fits_i32(pen_x(glyphs@, k)));
                    assert(fits_i32(caret_after(glyphs@, k + 1)));
                }
            }
        }
        caret = next as i32;
        i += 1;
    }
    Some(list)
}

} // verus!
