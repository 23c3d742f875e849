use vstd::prelude::*;

verus! {

/// An RGBA pixel with four 8-bit channels.
#[derive(Clone, Copy, PartialEq, Eq, Structural, Debug)]
pub struct Pixel {
    pub r: u8,
    pub g: u8,
    pub b: u8,
    pub a: u8,
}

impl Pixel {
    /// A fully opaque pixel with the given colour channels.
    pub open spec fn spec_opaque(r: u8, g: u8, b: u8) -> Pixel {
        Pixel { r, g, b, a: 255 }
    }

    pub fn opaque(r: u8, g: u8, b: u8) -> (p: Pixel)
        ensures
            p == Pixel::spec_opaque(r, g, b),
    {
        Pixel { r, g, b, a: 255 }
    }
}

/// The same colour forced fully opaque.  The canvas never keeps a source
/// pixel's alpha: alpha is a blending input only, never persisted.
pub open spec fn spec_flatten(p: Pixel) -> Pixel {
    Pixel { r: p.r, g: p.g, b: p.b, a: 255 }
}

/// Linear alpha interpolation of one 8-bit channel: the mask's alpha `a`
/// weighs the mask channel `m` against the underlying channel `c`, on the
/// 0..=255 scale.
pub open spec fn blend_channel(c: int, m: int, a: int) -> int {
    ((255 - a) * c + a * m) / 255
}

/// Alpha compositing of a mask pixel over an underlying pixel: each colour
/// channel is interpolated by the mask's alpha, and the result is opaque.
pub open spec fn spec_apply_mask(input: Pixel, mask: Pixel) -> Pixel {
    Pixel {
        r: blend_channel(input.r as int, mask.r as int, mask.a as int) as u8,
        g: blend_channel(input.g as int, mask.g as int, mask.a as int) as u8,
        b: blend_channel(input.b as int, mask.b as int, mask.a as int) as u8,
        a: 255,
    }
}

/// The blended channel always stays on the 0..=255 scale, so the cast to
/// `u8` in `spec_apply_mask` never truncates.
pub proof fn lemma_blend_channel_range(c: int, m: int, a: int)
    requires
        0 <= c <= 255,
        0 <= m <= 255,
        0 <= a <= 255,
    ensures
        0 <= blend_channel(c, m, a) <= 255,
{
    assert(0 <= (255 - a) * c + a * m <= 255 * 255) by (nonlinear_arith)
        requires
            0 <= c <= 255,
            0 <= m <= 255,
            0 <= a <= 255,
    ;
}

/// Blend one pixel of the corner mask over one pixel of the photograph.
pub fn apply_mask(input: Pixel, mask: Pixel) -> (out: Pixel)
    ensures
        out == spec_apply_mask(input, mask),
{
    let a = mask.a as u32;
    proof {
        lemma_blend_channel_range(input.r as int, mask.r as int, mask.a as int);
        lemma_blend_channel_range(input.g as int, mask.g as int, mask.a as int);
        lemma_blend_channel_range(input.b as int, mask.b as int, mask.a as int);
    }
    let r = (((255 - a) * (input.r as u32) + a * (mask.r as u32)) / 255) as u8;
    let g = (((255 - a) * (input.g as u32) + a * (mask.g as u32)) / 255) as u8;
    let b = (((255 - a) * (input.b as u32) + a * (mask.b as u32)) / 255) as u8;
    Pixel { r, g, b, a: 255 }
}

/// A fully opaque mask pixel replaces the photograph's colour outright.
pub proof fn lemma_blend_opaque(input: Pixel, mask: Pixel)
    requires
        mask.a == 255,
    ensures
        spec_apply_mask(input, mask) == (Pixel { r: mask.r, g: mask.g, b: mask.b, a: 255 }),
{
    assert(blend_channel(input.r as int, mask.r as int, 255) == mask.r as int);
    assert(blend_channel(input.g as int, mask.g as int, 255) == mask.g as int);
    assert(blend_channel(input.b as int, mask.b as int, 255) == mask.b as int);
}

/// A fully transparent mask pixel leaves the photograph's colour untouched
/// (only the alpha channel is forced opaque).
pub proof fn lemma_blend_transparent(input: Pixel, mask: Pixel)
    requires
        mask.a == 0,
    ensures
        spec_apply_mask(input, mask) == (Pixel { r: input.r, g: input.g, b: input.b, a: 255 }),
{
    assert(blend_channel(input.r as int, mask.r as int, 0) == input.r as int);
    assert(blend_channel(input.g as int, mask.g as int, 0) == input.g as int);
    assert(blend_channel(input.b as int, mask.b as int, 0) == input.b as int);
}

/// Blending a colour over itself changes nothing, at every alpha: the
/// interpolation is exact at both endpoints and consistent in between.
pub proof fn lemma_blend_self(c: int, a: int)
    requires
        0 <= c <= 255,
        0 <= a <= 255,
    ensures
        blend_channel(c, c, a) == c,
{
    assert((255 - a) * c + a * c == 255 * c) by (nonlinear_arith);
}

} // verus!
