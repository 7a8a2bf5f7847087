//! Colours and the coverage-weighted blend of an ink colour over a pixel.
//!
//! Coverage is an integer in units of 1/255: `0` means that the ink does not
//! touch the pixel, `FULL_COVERAGE` that it hides it. A blended channel is
//! the weighted mean of ink and pixel, rounded down.

use vstd::prelude::*;

verus! {

/// The coverage of a pixel that the ink hides completely.
pub const FULL_COVERAGE: u8 = 255;

/// An RGBA colour with eight bits per channel.
#[derive(Clone, Copy, Debug, PartialEq, Eq, Structural)]
pub struct Color {
    pub r: u8,
    pub g: u8,
    pub b: u8,
    pub a: u8,
}

/// A raw coverage value brought into the range `0..=255`.
pub open spec fn clamp_coverage_spec(raw: int) -> int {
    if raw < 0 {
        0
    } else if raw > 255 {
        255
    } else {
        raw
    }
}

/// One channel of ink over one channel of a pixel, at the given coverage.
pub open spec fn blend_channel_spec(ink: int, under: int, coverage: int) -> int {
    (ink * coverage + under * (255 - coverage)) / 255
}

/// The ink colour over a pixel's colour, channel by channel.
pub open spec fn blend_spec(ink: Color, under: Color, coverage: int) -> Color {
    Color {
        r: blend_channel_spec(ink.r as int, under.r as int, coverage) as u8,
        g: blend_channel_spec(ink.g as int, under.g as int, coverage) as u8,
        b: blend_channel_spec(ink.b as int, under.b as int, coverage) as u8,
        a: blend_channel_spec(ink.a as int, under.a as int, coverage) as u8,
    }
}

/// One channel of a colour: red, green, blue and alpha are channels 0 to 3.
pub open spec fn channel(color: Color, k: int) -> int {
    if k == 0 {
        color.r as int
    } else if k == 1 {
        color.g as int
    } else if k == 2 {
        color.b as int
    } else {
        color.a as int
    }
}

/// Whether a channel that went from `from` to `to` moved towards the ink:
/// not away from it and not past it.
pub open spec fn moved_toward(ink: int, from: int, to: int) -> bool {
    &&& ink <= from ==> ink <= to <= from
    &&& from <= ink ==> from <= to <= ink
}

/// A blended channel lies between the pixel's channel and the ink's.
pub proof fn lemma_blend_channel_between(ink: int, under: int, coverage: int)
    requires
        0 <= ink <= 255,
        0 <= under <= 255,
        0 <= coverage <= 255,
    ensures
        ink <= under ==> ink <= blend_channel_spec(ink, under, coverage) <= under,
        under <= ink ==> under <= blend_channel_spec(ink, under, coverage) <= ink,
{
    let total = ink * coverage + under * (255 - coverage);
    if ink <= under {
        assert(ink * 255 <= total <= under * 255) by (nonlinear_arith)
            requires
                total == ink * coverage + under * (255 - coverage),
                ink <= under,
                0 <= coverage <= 255,
        ;
    } else {
        assert(under * 255 <= total <= ink * 255) by (nonlinear_arith)
            requires
                total == ink * coverage + under * (255 - coverage),
                under <= ink,
                0 <= coverage <= 255,
        ;
    }
}

/// At coverage zero the pixel stays as it is; at full coverage it becomes
/// the ink.
pub proof fn lemma_blend_channel_extremes(ink: int, under: int)
    ensures
        blend_channel_spec(ink, under, 0) == under,
        blend_channel_spec(ink, under, 255) == ink,
{
    assert(ink * 0 + under * (255 - 0) == under * 255) by (nonlinear_arith);
    assert(ink * 255 + under * (255 - 255) == ink * 255) by (nonlinear_arith);
}

/// With ink darker than the pixel and any coverage above zero, the blended
/// channel is strictly darker than the pixel.
pub proof fn lemma_blend_channel_darkens(ink: int, under: int, coverage: int)
    requires
        0 <= ink < under <= 255,
        0 < coverage <= 255,
    ensures
        ink <= blend_channel_spec(ink, under, coverage) < under,
{
    lemma_blend_channel_between(ink, under, coverage);
    let total = ink * coverage + under * (255 - coverage);
    assert(total < under * 255) by (nonlinear_arith)
        requires
            total == ink * coverage + under * (255 - coverage),
            ink < under,
            0 < coverage,
    ;
}

/// With ink lighter than the pixel, the blended channel is lighter than the
/// pixel exactly when the weighted difference reaches one whole step.
pub proof fn lemma_blend_channel_lightens(ink: int, under: int, coverage: int)
    requires
        0 <= under < ink <= 255,
        0 <= coverage <= 255,
    ensures
        under <= blend_channel_spec(ink, under, coverage) <= ink,
        blend_channel_spec(ink, under, coverage) > under <==> (ink - under) * coverage >= 255,
{
    lemma_blend_channel_between(ink, under, coverage);
    let total = ink * coverage + under * (255 - coverage);
    assert(total == under * 255 + (ink - under) * coverage) by (nonlinear_arith)
        requires
            total == ink * coverage + under * (255 - coverage),
    ;
}

/// Blending the same ink at the same coverage a second time moves a channel
/// further towards the ink, never back and never past it.
pub proof fn lemma_blend_channel_twice(ink: int, under: int, coverage: int)
    requires
        0 <= ink <= 255,
        0 <= under <= 255,
        0 <= coverage <= 255,
    ensures
        ({
            let once = blend_channel_spec(ink, under, coverage);
            let twice = blend_channel_spec(ink, once, coverage);
            &&& ink <= under ==> ink <= twice <= once <= under
            &&& under <= ink ==> under <= once <= twice <= ink
            &&& (coverage == 0 || coverage == 255) ==> twice == once
            &&& (0 < coverage < 255 && ink < once) ==> twice < once
        }),
{
    let once = blend_channel_spec(ink, under, coverage);
    lemma_blend_channel_between(ink, under, coverage);
    lemma_blend_channel_between(ink, once, coverage);
    lemma_blend_channel_extremes(ink, under);
    lemma_blend_channel_extremes(ink, once);
    if 0 < coverage < 255 && ink < once {
        lemma_blend_channel_darkens(ink, once, coverage);
    }
}

/// The blend of two colours, stated for whole colours: coverage zero keeps
/// the pixel, full coverage gives the ink, and the same blend applied again
/// changes nothing at either extreme.
pub proof fn lemma_blend_extremes(ink: Color, under: Color)
    ensures
        blend_spec(ink, under, 0) == under,
        blend_spec(ink, under, 255) == ink,
        blend_spec(ink, blend_spec(ink, under, 0), 0) == blend_spec(ink, under, 0),
        blend_spec(ink, blend_spec(ink, under, 255), 255) == blend_spec(ink, under, 255),
{
    lemma_blend_channel_extremes(ink.r as int, under.r as int);
    lemma_blend_channel_extremes(ink.g as int, under.g as int);
    lemma_blend_channel_extremes(ink.b as int, under.b as int);
    lemma_blend_channel_extremes(ink.a as int, under.a as int);
    lemma_blend_channel_extremes(ink.r as int, ink.r as int);
    lemma_blend_channel_extremes(ink.g as int, ink.g as int);
    lemma_blend_channel_extremes(ink.b as int, ink.b as int);
    lemma_blend_channel_extremes(ink.a as int, ink.a as int);
}

/// Each channel of a blended colour is the blend of that channel.
pub proof fn lemma_blend_by_channel(ink: Color, under: Color, coverage: int, k: int)
    requires
        0 <= coverage <= 255,
    ensures
        channel(blend_spec(ink, under, coverage), k) == blend_channel_spec(
            channel(ink, k),
            channel(under, k),
            coverage,
        ),
        moved_toward(channel(ink, k), channel(under, k), channel(blend_spec(ink, under, coverage), k)),
{
    lemma_blend_channel_between(channel(ink, k), channel(under, k), coverage);
}

/// Brings a raw coverage value into the range `0..=255`.
pub fn clamp_coverage(raw: i32) -> (coverage: u8)
    ensures
        coverage as int == clamp_coverage_spec(raw as int),
{
    if raw < 0 {
        0
    } else if raw > 255 {
        FULL_COVERAGE
    } else {
        raw as u8
    }
}

/// Blends one channel of ink over one channel of a pixel.
pub fn blend_channel(ink: u8, under: u8, coverage: u8) -> (out: u8)
    ensures
        out as int == blend_channel_spec(ink as int, under as int, coverage as int),
{
    let weight: u32 = coverage as u32;
    let rest: u32 = 255 - weight;
    assert(ink as int * weight as int <= 255 * 255) by (nonlinear_arith)
        requires
            0 <= ink as int <= 255,
            0 <= weight as int <= 255,
    ;
    assert(under as int * rest as int <= 255 * 255) by (nonlinear_arith)
        requires
            0 <= under as int <= 255,
            0 <= rest as int <= 255,
    ;
    let total: u32 = ink as u32 * weight + under as u32 * rest;
    proof {
        lemma_blend_channel_between(ink as int, under as int, coverage as int);
    }
    (total / 255) as u8
}

/// Blends the ink colour over a pixel's colour at the given coverage.
pub fn blend(ink: Color, under: Color, coverage: u8) -> (out: Color)
    ensures
        out == blend_spec(ink, under, coverage as int),
{
    Color {
        r: blend_channel(ink.r, under.r, coverage),
        g: blend_channel(ink.g, under.g, coverage),
        b: blend_channel(ink.b, under.b, coverage),
        a: blend_channel(ink.a, under.a, coverage),
    }
}

} // verus!
