use vstd::prelude::*;
use crate::pixel::{Pixel, spec_apply_mask, spec_flatten, apply_mask};
use crate::raster::Raster;
use crate::mask::{spec_mask_pixel, tile_col, tile_row, make_corner_mask};
use crate::scale::{spec_fit_dims, spec_x_offset, spec_y_offset, fit_dims};
use crate::text::{Glyph, wf_glyphs, ink_at, ink_pixel, max_ink_x, render_caption_strip};
use crate::codec::{
    image_decoding, png_encoding, flat_pixel, pixel_channel, decode_rgba,
    resize_lanczos, encode_png, raster_from_bytes, raster_to_bytes, lemma_flat_bytes_unique,
};

verus! {

/// The geometry of one composition, as the caller configures it: the
/// canvas dimensions, the symmetric margin, the extra bottom margin that
/// reserves room for the caption, the corner rounding radius, the caption
/// text size, and the background colour.
#[derive(Clone, Copy, PartialEq, Eq, Structural, Debug)]
pub struct CanvasConfig {
    pub canvas_width: u32,
    pub canvas_height: u32,
    pub margin: u32,
    pub bottom_extra: u32,
    pub corner_radius: u32,
    pub text_size: u32,
    pub background: Pixel,
}

impl Default for CanvasConfig {
    /// The stock wallpaper geometry: a 2560 x 1530 canvas, a 50 pixel
    /// margin with 150 more at the bottom for the caption, 50 pixel
    /// corners, 60 pixel text, on an off-white background.
    fn default() -> (out: CanvasConfig)
        ensures
            out.canvas_width == 2560,
            out.canvas_height == 1530,
            out.margin == 50,
            out.bottom_extra == 150,
            out.corner_radius == 50,
            out.text_size == 60,
            out.background == Pixel::spec_opaque(229, 223, 199),
    {
        CanvasConfig {
            canvas_width: 2560,
            canvas_height: 1530,
            margin: 50,
            bottom_extra: 150,
            corner_radius: 50,
            text_size: 60,
            background: Pixel { r: 229, g: 223, b: 199, a: 255 },
        }
    }
}

/// Why a composition was refused.
#[derive(Clone, Copy, PartialEq, Eq, Structural, Debug)]
pub enum ComposeError {
    /// The source bytes are not a decodable raster image.
    DecodeError,
    /// The configuration is degenerate for this source: empty boxes, a
    /// translucent background, a corner radius beyond half the scaled
    /// image, or no room for text.
    GeometryError,
    /// The final raster could not be serialized.
    EncodeError,
}

/// Width of the content box the photo is fitted into.
pub open spec fn box_w(cfg: CanvasConfig) -> int {
    cfg.canvas_width - 2 * cfg.margin
}

/// Height of the content box: the canvas less the margins and the room
/// reserved for the caption.
pub open spec fn box_h(cfg: CanvasConfig) -> int {
    cfg.canvas_height - 2 * cfg.margin - cfg.bottom_extra
}

/// Whether the configuration is workable for a `w0 x h0` source: all
/// boxes non-empty, the canvas within the machine bound of 16384 on each
/// side (so every index and buffer size fits the machine's integers),
/// an opaque background (the finished canvas is fully opaque, so a
/// translucent background colour could not be honoured), both rounded
/// corners fitting the scaled photo twice over - with `2r` beyond a
/// scaled dimension the four corner regions would overlap and the result
/// would depend on the order the corners are blended in, where they are
/// meant to be one function under reflection - and the caption line
/// fitting under the photo.
pub open spec fn geometry_ok(cfg: CanvasConfig, w0: int, h0: int) -> bool {
    let sw = spec_fit_dims(w0, h0, box_w(cfg), box_h(cfg)).0;
    let sh = spec_fit_dims(w0, h0, box_w(cfg), box_h(cfg)).1;
    &&& 1 <= w0
    &&& 1 <= h0
    &&& cfg.background.a == 255
    &&& 1 <= cfg.canvas_width <= 16384
    &&& 1 <= cfg.canvas_height <= 16384
    &&& 2 * cfg.margin < cfg.canvas_width
    &&& 2 * cfg.margin + cfg.bottom_extra < cfg.canvas_height
    &&& 1 <= sw
    &&& 1 <= sh
    &&& 2 * cfg.corner_radius <= sw
    &&& 2 * cfg.corner_radius <= sh
    &&& spec_y_offset(cfg.canvas_height as int, sh, cfg.bottom_extra as int) + sh + (
    cfg.margin as int) / 2 + cfg.text_size <= cfg.canvas_height
}

/// Decide `geometry_ok` for this configuration and source size.
pub fn check_geometry(cfg: &CanvasConfig, w0: u32, h0: u32) -> (ok: bool)
    ensures
        ok == geometry_ok(*cfg, w0 as int, h0 as int),
{
    if w0 < 1 || h0 < 1 {
        return false;
    }
    if cfg.background.a != 255 {
        return false;
    }
    if cfg.canvas_width < 1 || cfg.canvas_width > 16384 || cfg.canvas_height < 1
        || cfg.canvas_height > 16384 {
        return false;
    }
    if 2 * (cfg.margin as u64) >= cfg.canvas_width as u64 {
        return false;
    }
    if 2 * (cfg.margin as u64) + (cfg.bottom_extra as u64) >= cfg.canvas_height as u64 {
        return false;
    }
    let bw = cfg.canvas_width - 2 * cfg.margin;
    let bh = cfg.canvas_height - 2 * cfg.margin - cfg.bottom_extra;
    let (sw, sh) = fit_dims(w0, h0, bw, bh);
    if sw < 1 || sh < 1 {
        return false;
    }
    if 2 * (cfg.corner_radius as u64) > sw as u64 || 2 * (cfg.corner_radius as u64) > sh as u64 {
        return false;
    }
    let y_off = (cfg.canvas_height - sh - cfg.bottom_extra) / 2;
    if (y_off as u64) + (sh as u64) + ((cfg.margin / 2) as u64) + (cfg.text_size as u64) > (
    cfg.canvas_height as u64) {
        return false;
    }
    true
}

/// Copy the `rw x rh` top-left region of `src` into `canvas` with its own
/// top-left corner at `(dx, dy)`; every pixel outside the target region
/// keeps its value.
pub fn blit_rect(canvas: &mut Raster, src: &Raster, rw: u32, rh: u32, dx: u32, dy: u32)
    requires
        old(canvas).wf(),
        src.wf(),
        rw <= src.width,
        rh <= src.height,
        dx as int + rw as int <= old(canvas).width,
        dy as int + rh as int <= old(canvas).height,
    ensures
        final(canvas).wf(),
        final(canvas).width == old(canvas).width,
        final(canvas).height == old(canvas).height,
        forall|x: int, y: int|
            0 <= x < final(canvas).width && 0 <= y < final(canvas).height
                ==> #[trigger] final(canvas).pix(x, y) == (if dx <= x < dx + rw && dy <= y < dy
                + rh {
                src.pix(x - dx, y - dy)
            } else {
                old(canvas).pix(x, y)
            }),
{
    let ghost canvas0 = *canvas;
    let mut j: u32 = 0;
    while j < rh
        invariant
            canvas.wf(),
            src.wf(),
            canvas.width == canvas0.width,
            canvas.height == canvas0.height,
            rw <= src.width,
            rh <= src.height,
            dx as int + rw as int <= canvas0.width,
            dy as int + rh as int <= canvas0.height,
            j <= rh,
            forall|x: int, y: int|
                0 <= x < canvas0.width && 0 <= y < canvas0.height
                    ==> #[trigger] canvas.pix(x, y) == (if dx <= x < dx + rw && dy <= y < dy
                    + j {
                    src.pix(x - dx, y - dy)
                } else {
                    canvas0.pix(x, y)
                }),
        decreases rh - j,
    {
        let mut i: u32 = 0;
        while i < rw
            invariant
                canvas.wf(),
                src.wf(),
                canvas.width == canvas0.width,
                canvas.height == canvas0.height,
                rw <= src.width,
                rh <= src.height,
                dx as int + rw as int <= canvas0.width,
                dy as int + rh as int <= canvas0.height,
                j < rh,
                i <= rw,
                forall|x: int, y: int|
                    0 <= x < canvas0.width && 0 <= y < canvas0.height
                        ==> #[trigger] canvas.pix(x, y) == (if (dx <= x < dx + rw && dy <= y < dy
                        + j) || (dy + j == y && dx <= x < dx + i) {
                        src.pix(x - dx, y - dy)
                    } else {
                        canvas0.pix(x, y)
                    }),
            decreases rw - i,
        {
            let p = src.get(i, j);
            canvas.set(dx + i, dy + j, p);
            i = i + 1;
        }
        j = j + 1;
    }
}

/// The first column of one corner region of a `pw`-wide placed image:
/// the left corners start at its left edge, the right corners end at its
/// right edge.
pub open spec fn corner_x0(left: bool, pw: int, r: int) -> int {
    if left {
        0
    } else {
        pw - r
    }
}

/// The first row of one corner region of a `ph`-tall placed image.
pub open spec fn corner_y0(top: bool, ph: int, r: int) -> int {
    if top {
        0
    } else {
        ph - r
    }
}

/// Blend the corner mask tile over one `r x r` corner of the photo placed
/// at `(x0, y0)` on the canvas, reflecting the tile so its alpha grows
/// toward the photo's outer corner; all other canvas pixels keep their
/// value.  The blend reads the photo, not the canvas, as the underlying
/// colour.
pub fn blend_corner(
    canvas: &mut Raster,
    photo: &Raster,
    tile: &Raster,
    x0: u32,
    y0: u32,
    left: bool,
    top: bool,
)
    requires
        old(canvas).wf(),
        photo.wf(),
        tile.wf(),
        tile.width == tile.height,
        2 * (tile.width as int) <= photo.width,
        2 * (tile.width as int) <= photo.height,
        x0 as int + photo.width as int <= old(canvas).width,
        y0 as int + photo.height as int <= old(canvas).height,
    ensures
        final(canvas).wf(),
        final(canvas).width == old(canvas).width,
        final(canvas).height == old(canvas).height,
        forall|x: int, y: int|
            0 <= x < final(canvas).width && 0 <= y < final(canvas).height
                ==> #[trigger] final(canvas).pix(x, y) == (if corner_x0(
                left,
                photo.width as int,
                tile.width as int,
            ) <= x - x0 < corner_x0(left, photo.width as int, tile.width as int) + tile.width
                && corner_y0(top, photo.height as int, tile.width as int) <= y - y0 < corner_y0(
                top,
                photo.height as int,
                tile.width as int,
            ) + tile.width {
                spec_apply_mask(
                    photo.pix(x - x0, y - y0),
                    tile.pix(
                        tile_col(left, x - x0, photo.width as int, tile.width as int),
                        tile_row(top, y - y0, photo.height as int, tile.width as int),
                    ),
                )
            } else {
                old(canvas).pix(x, y)
            }),
{
    let ghost canvas0 = *canvas;
    let r = tile.width;
    let pw = photo.width;
    let ph = photo.height;
    let xs: u32 = if left {
        0
    } else {
        pw - r
    };
    let ys: u32 = if top {
        0
    } else {
        ph - r
    };
    let mut iy: u32 = 0;
    while iy < r
        invariant
            canvas.wf(),
            photo.wf(),
            tile.wf(),
            canvas.width == canvas0.width,
            canvas.height == canvas0.height,
            r == tile.width,
            r == tile.height,
            pw == photo.width,
            ph == photo.height,
            2 * (r as int) <= pw,
            2 * (r as int) <= ph,
            x0 as int + pw as int <= canvas0.width,
            y0 as int + ph as int <= canvas0.height,
            xs as int == corner_x0(left, pw as int, r as int),
            ys as int == corner_y0(top, ph as int, r as int),
            iy <= r,
            forall|x: int, y: int|
                0 <= x < canvas0.width && 0 <= y < canvas0.height
                    ==> #[trigger] canvas.pix(x, y) == (if xs <= x - x0 < xs + r && ys <= y - y0
                    < ys + iy {
                    spec_apply_mask(
                        photo.pix(x - x0, y - y0),
                        tile.pix(
                            tile_col(left, x - x0, pw as int, r as int),
                            tile_row(top, y - y0, ph as int, r as int),
                        ),
                    )
                } else {
                    canvas0.pix(x, y)
                }),
        decreases r - iy,
    {
        let mut ix: u32 = 0;
        while ix < r
            invariant
                canvas.wf(),
                photo.wf(),
                tile.wf(),
                canvas.width == canvas0.width,
                canvas.height == canvas0.height,
                r == tile.width,
                r == tile.height,
                pw == photo.width,
                ph == photo.height,
                2 * (r as int) <= pw,
                2 * (r as int) <= ph,
                x0 as int + pw as int <= canvas0.width,
                y0 as int + ph as int <= canvas0.height,
                xs as int == corner_x0(left, pw as int, r as int),
                ys as int == corner_y0(top, ph as int, r as int),
                iy < r,
                ix <= r,
                forall|x: int, y: int|
                    0 <= x < canvas0.width && 0 <= y < canvas0.height
                        ==> #[trigger] canvas.pix(x, y) == (if (xs <= x - x0 < xs + r && ys <= y
                        - y0 < ys + iy) || (y - y0 == ys + iy && xs <= x - x0 < xs + ix) {
                        spec_apply_mask(
                            photo.pix(x - x0, y - y0),
                            tile.pix(
                                tile_col(left, x - x0, pw as int, r as int),
                                tile_row(top, y - y0, ph as int, r as int),
                            ),
                        )
                    } else {
                        canvas0.pix(x, y)
                    }),
            decreases r - ix,
        {
            let px = xs + ix;
            let py = ys + iy;
            let p = photo.get(px, py);
            let tc: u32 = if left {
                r - 1 - px
            } else {
                px - (pw - r)
            };
            let tr: u32 = if top {
                r - 1 - py
            } else {
                py - (ph - r)
            };
            let m = tile.get(tc, tr);
            let blended = apply_mask(p, m);
            canvas.set(x0 + px, y0 + py, blended);
            ix = ix + 1;
        }
        iy = iy + 1;
    }
}

/// The canvas column where the caption's leftmost ink lands: the inked
/// part of the strip, `max_ink_x` wide, is centred on the canvas width.
pub open spec fn caption_x(cfg: CanvasConfig, glyphs: Seq<Glyph>) -> int {
    (cfg.canvas_width - max_ink_x(glyphs, cfg.canvas_width as int, cfg.text_size as int + 8)) / 2
}

/// The canvas row where the caption starts: immediately below the placed
/// photo, half a margin down.
pub open spec fn caption_y(cfg: CanvasConfig, sh: int) -> int {
    spec_y_offset(cfg.canvas_height as int, sh, cfg.bottom_extra as int) + sh + (
    cfg.margin as int) / 2
}

/// The pixel the finished canvas holds at `(x, y)`: the caption strip's
/// ink over the reserved bottom area, the photo - its four corners
/// blended toward the background - inside the content box, and the
/// background everywhere else.  `photo` is the resampled photo's flat
/// RGBA buffer, `sw x sh` its dimensions.
pub open spec fn composed_pixel(
    cfg: CanvasConfig,
    photo: Seq<u8>,
    sw: int,
    sh: int,
    glyphs: Seq<Glyph>,
    x: int,
    y: int,
) -> Pixel {
    let cw = cfg.canvas_width as int;
    let ch = cfg.canvas_height as int;
    let r = cfg.corner_radius as int;
    let x0 = spec_x_offset(cw, sw);
    let y0 = spec_y_offset(ch, sh, cfg.bottom_extra as int);
    let strip_h = cfg.text_size as int + 8;
    let mx = max_ink_x(glyphs, cw, strip_h);
    let tx = caption_x(cfg, glyphs);
    let ty = caption_y(cfg, sh);
    if tx <= x < tx + mx && ty <= y < ty + cfg.text_size {
        if ink_at(glyphs, cw, strip_h, x - tx, y - ty) {
            ink_pixel()
        } else {
            cfg.background
        }
    } else if x0 <= x < x0 + sw && y0 <= y < y0 + sh {
        if (x - x0 < r || x - x0 >= sw - r) && (y - y0 < r || y - y0 >= sh - r) {
            spec_apply_mask(
                spec_flatten(flat_pixel(photo, sw, x - x0, y - y0)),
                spec_mask_pixel(
                    cfg.background,
                    tile_col(x - x0 < r, x - x0, sw, r),
                    tile_row(y - y0 < r, y - y0, sh, r),
                    r,
                ),
            )
        } else {
            spec_flatten(flat_pixel(photo, sw, x - x0, y - y0))
        }
    } else {
        cfg.background
    }
}

/// Opacity invariant: every pixel of the composed canvas carries alpha
/// 255.  Alpha is a blending input only - the photo's own alpha is
/// flattened, the corner blend emits opaque pixels, ink is opaque, and a
/// workable configuration has an opaque background.
pub proof fn lemma_composed_opaque(
    cfg: CanvasConfig,
    photo: Seq<u8>,
    sw: int,
    sh: int,
    glyphs: Seq<Glyph>,
    x: int,
    y: int,
)
    requires
        cfg.background.a == 255,
    ensures
        composed_pixel(cfg, photo, sw, sh, glyphs, x, y).a == 255,
{
}

/// The finished canvas as flat RGBA bytes.
pub open spec fn composed_flat(
    cfg: CanvasConfig,
    photo: Seq<u8>,
    sw: int,
    sh: int,
    glyphs: Seq<Glyph>,
) -> Seq<u8> {
    let cw = cfg.canvas_width as int;
    let ch = cfg.canvas_height as int;
    Seq::new(
        (4 * (cw * ch)) as nat,
        |n: int|
            pixel_channel(
                composed_pixel(cfg, photo, sw, sh, glyphs, (n / 4) % cw, (n / 4) / cw),
                n % 4,
            ),
    )
}

/// What composition yields once the resampled photo's bytes are in hand:
/// the PNG encoding of the fully determined canvas, or the encoder's
/// refusal.  Everything after resampling is a function of these
/// arguments.
pub open spec fn compose_from_photo(
    cfg: CanvasConfig,
    photo: Seq<u8>,
    sw: int,
    sh: int,
    glyphs: Seq<Glyph>,
) -> Result<Seq<u8>, ComposeError> {
    match png_encoding(
        cfg.canvas_width,
        cfg.canvas_height,
        composed_flat(cfg, photo, sw, sh, glyphs),
    ) {
        Option::None => Result::Err(ComposeError::EncodeError),
        Option::Some(b) => Result::Ok(b),
    }
}

/// Whether an executable outcome carries the value of a spec outcome.
pub open spec fn outcome_matches(
    out: Result<Vec<u8>, ComposeError>,
    s: Result<Seq<u8>, ComposeError>,
) -> bool {
    match (out, s) {
        (Result::Ok(b), Result::Ok(bs)) => b@ == bs,
        (Result::Err(e1), Result::Err(e2)) => e1 == e2,
        _ => false,
    }
}

/// Whether `out` is what composition yields for some resampled buffer
/// `ph` of the right size, for a `w0 x h0` source under `cfg`.
pub open spec fn resample_outcome(
    cfg: CanvasConfig,
    w0: int,
    h0: int,
    glyphs: Seq<Glyph>,
    ph: Seq<u8>,
    out: Result<Vec<u8>, ComposeError>,
) -> bool {
    let sw = spec_fit_dims(w0, h0, box_w(cfg), box_h(cfg)).0;
    let sh = spec_fit_dims(w0, h0, box_w(cfg), box_h(cfg)).1;
    &&& ph.len() == 4 * sw * sh
    &&& outcome_matches(out, compose_from_photo(cfg, ph, sw, sh, glyphs))
}

/// The composition stages past resampling are deterministic: one
/// configuration, one resampled buffer and one caption stand for one
/// spec value, so they yield byte-identical output (and identical
/// errors).  Decoding and the geometry check are functions of their
/// inputs too (`image_decoding`, `geometry_ok`); only the resampler's
/// floating-point precision, which std does not promise to be
/// reproducible, stands between this and run-to-run determinism of the
/// whole pipeline.
pub proof fn lemma_compose_deterministic(
    cfg: CanvasConfig,
    photo: Seq<u8>,
    sw: int,
    sh: int,
    glyphs: Seq<Glyph>,
    r1: Result<Seq<u8>, ComposeError>,
    r2: Result<Seq<u8>, ComposeError>,
)
    requires
        r1 == compose_from_photo(cfg, photo, sw, sh, glyphs),
        r2 == compose_from_photo(cfg, photo, sw, sh, glyphs),
    ensures
        r1 == r2,
{
}


/// The flat index of channel `c` of pixel `(x, y)` in a `w x h` RGBA
/// buffer, and how it decomposes back.
proof fn lemma_flat_index(w: int, h: int, x: int, y: int, c: int)
    requires
        w >= 1,
        h >= 1,
        0 <= x < w,
        0 <= y < h,
        0 <= c < 4,
    ensures
        0 <= 4 * (y * w + x) + c < 4 * (w * h),
        (4 * (y * w + x) + c) / 4 == y * w + x,
        (4 * (y * w + x) + c) % 4 == c,
        (y * w + x) % w == x,
        (y * w + x) / w == y,
{
    let p = y * w + x;
    assert(0 <= p && 4 * p + c < 4 * (w * h)) by (nonlinear_arith)
        requires
            0 <= x < w,
            0 <= y < h,
            0 <= c < 4,
            p == y * w + x,
            w >= 1,
    ;
    vstd::arithmetic::div_mod::lemma_fundamental_div_mod_converse_div(4 * p + c, 4, p, c);
    vstd::arithmetic::div_mod::lemma_fundamental_div_mod_converse_mod(4 * p + c, 4, p, c);
    assert(p == w * y + x) by (nonlinear_arith)
        requires
            p == y * w + x,
    ;
    vstd::arithmetic::div_mod::lemma_fundamental_div_mod_converse_div(p, w, y, x);
    vstd::arithmetic::div_mod::lemma_fundamental_div_mod_converse_mod(p, w, y, x);
}

/// `composed_flat` holds exactly `composed_pixel` at every coordinate.
proof fn lemma_composed_flat_pixel(
    cfg: CanvasConfig,
    photo: Seq<u8>,
    sw: int,
    sh: int,
    glyphs: Seq<Glyph>,
    x: int,
    y: int,
)
    requires
        1 <= cfg.canvas_width,
        1 <= cfg.canvas_height,
        0 <= x < cfg.canvas_width,
        0 <= y < cfg.canvas_height,
    ensures
        flat_pixel(composed_flat(cfg, photo, sw, sh, glyphs), cfg.canvas_width as int, x, y)
            == composed_pixel(cfg, photo, sw, sh, glyphs, x, y),
{
    let cw = cfg.canvas_width as int;
    let ch = cfg.canvas_height as int;
    let f = composed_flat(cfg, photo, sw, sh, glyphs);
    let p = composed_pixel(cfg, photo, sw, sh, glyphs, x, y);
    lemma_flat_index(cw, ch, x, y, 0);
    lemma_flat_index(cw, ch, x, y, 1);
    lemma_flat_index(cw, ch, x, y, 2);
    lemma_flat_index(cw, ch, x, y, 3);
    assert(f[4 * (y * cw + x)] == p.r);
    assert(f[4 * (y * cw + x) + 1] == p.g);
    assert(f[4 * (y * cw + x) + 2] == p.b);
    assert(f[4 * (y * cw + x) + 3] == p.a);
}

/// Compose one wallpaper: decode the source bytes, scale the photo to fit
/// the content box, flatten it opaque and centre it on a
/// background-filled canvas, blend the four corner masks, paint the
/// caption glyphs into a strip and centre the strip's inked part below
/// the photo, and encode the canvas as PNG.
///
/// The two rejections are exact: decoding fails on exactly the bytes
/// `image_decoding` refuses, and the geometry error comes exactly on a
/// configuration `geometry_ok` refuses for the decoded size.  Otherwise
/// the output is `compose_from_photo` of some resampled buffer of the
/// fitted size: every stage past the resampler is pinned pixel for
/// pixel, and the resampler's bytes are the one quantity taken as found.
pub fn compose(source: &Vec<u8>, glyphs: &Vec<Glyph>, cfg: &CanvasConfig) -> (out: Result<
    Vec<u8>,
    ComposeError,
>)
    requires
        wf_glyphs(glyphs@),
    ensures
        out == Result::<Vec<u8>, ComposeError>::Err(ComposeError::DecodeError) <==> image_decoding(
            source@,
        ) is None,
        image_decoding(source@) matches Some(d) ==> (out == Result::<
            Vec<u8>,
            ComposeError,
        >::Err(ComposeError::GeometryError) <==> !geometry_ok(*cfg, d.0 as int, d.1 as int)),
        image_decoding(source@) matches Some(d) ==> (geometry_ok(*cfg, d.0 as int, d.1 as int)
            ==> (exists|ph: Seq<u8>| #[trigger] resample_outcome(
            *cfg,
            d.0 as int,
            d.1 as int,
            glyphs@,
            ph,
            out,
        ))),
{
    let decoded = decode_rgba(source);
    let (w0, h0, raw0) = match decoded {
        Some(t) => t,
        None => {
            return Err(ComposeError::DecodeError);
        },
    };
    if !check_geometry(cfg, w0, h0) {
        return Err(ComposeError::GeometryError);
    }
    let cw = cfg.canvas_width;
    let ch = cfg.canvas_height;
    let bg = cfg.background;
    let r = cfg.corner_radius;
    let bw = cw - 2 * cfg.margin;
    let bh = ch - 2 * cfg.margin - cfg.bottom_extra;
    let (sw, sh) = fit_dims(w0, h0, bw, bh);
    proof {
        assert(sw as int == spec_fit_dims(w0 as int, h0 as int, box_w(*cfg), box_h(*cfg)).0);
        assert(sh as int == spec_fit_dims(w0 as int, h0 as int, box_w(*cfg), box_h(*cfg)).1);
        assert(4 * (sw as int) * (sh as int) <= 0x40000000) by (nonlinear_arith)
            requires
                0 <= sw <= 16384,
                0 <= sh <= 16384,
        ;
    }
    let photo_raw = resize_lanczos(w0, h0, &raw0, sw, sh);
    let decoded_photo = raster_from_bytes(sw, sh, &photo_raw);
    let photo = decoded_photo.flattened();
    let mut canvas = Raster::new_filled(cw, ch, bg);
    let ghost c_bg = canvas;
    let x_off = (cw - sw) / 2;
    let y_off = (ch - sh - cfg.bottom_extra) / 2;
    proof {
        assert(x_off as int == spec_x_offset(cw as int, sw as int));
        assert(y_off as int == spec_y_offset(ch as int, sh as int, cfg.bottom_extra as int));
        assert(x_off as int + sw as int <= cw as int);
        assert(y_off as int + sh as int <= ch as int);
    }
    blit_rect(&mut canvas, &photo, sw, sh, x_off, y_off);
    let ghost c_photo = canvas;
    let tile = make_corner_mask(r, bg);
    blend_corner(&mut canvas, &photo, &tile, x_off, y_off, true, true);
    let ghost c1 = canvas;
    blend_corner(&mut canvas, &photo, &tile, x_off, y_off, false, true);
    let ghost c2 = canvas;
    blend_corner(&mut canvas, &photo, &tile, x_off, y_off, false, false);
    let ghost c3 = canvas;
    blend_corner(&mut canvas, &photo, &tile, x_off, y_off, true, false);
    let ghost c4 = canvas;
    let (strip, mx) = render_caption_strip(glyphs, cw, cfg.text_size + 8, bg);
    let tx = (cw - mx) / 2;
    let ty = y_off + sh + cfg.margin / 2;
    proof {
        assert(tx as int + mx as int <= cw as int);
        assert(ty as int + cfg.text_size as int <= ch as int);
    }
    blit_rect(&mut canvas, &strip, mx, cfg.text_size, tx, ty);
    proof {
        let cwi = cw as int;
        let chi = ch as int;
        let swi = sw as int;
        let shi = sh as int;
        let ri = r as int;
        let x0 = x_off as int;
        let y0 = y_off as int;
        let txi = tx as int;
        let tyi = ty as int;
        let mxi = mx as int;
        let ts = cfg.text_size as int;
        let ph = photo_raw@;
        assert forall|x: int, y: int| 0 <= x < cwi && 0 <= y < chi implies #[trigger] canvas.pix(
            x,
            y,
        ) == composed_pixel(*cfg, ph, swi, shi, glyphs@, x, y) by {
            if txi <= x < txi + mxi && tyi <= y < tyi + ts {
                assert(canvas.pix(x, y) == strip.pix(x - txi, y - tyi));
            } else {
                assert(canvas.pix(x, y) == c4.pix(x, y));
                if x0 <= x < x0 + swi && y0 <= y < y0 + shi {
                    let ix = x - x0;
                    let iy = y - y0;
                    assert(photo.pix(ix, iy) == spec_flatten(flat_pixel(ph, swi, ix, iy)));
                    if ix < ri && iy < ri {
                        assert(c1.pix(x, y) == spec_apply_mask(
                            photo.pix(ix, iy),
                            tile.pix(tile_col(true, ix, swi, ri), tile_row(true, iy, shi, ri)),
                        ));
                        assert(c4.pix(x, y) == c1.pix(x, y));
                    } else if ix >= swi - ri && iy < ri {
                        assert(c2.pix(x, y) == spec_apply_mask(
                            photo.pix(ix, iy),
                            tile.pix(tile_col(false, ix, swi, ri), tile_row(true, iy, shi, ri)),
                        ));
                        assert(c4.pix(x, y) == c2.pix(x, y));
                    } else if ix >= swi - ri && iy >= shi - ri {
                        assert(c3.pix(x, y) == spec_apply_mask(
                            photo.pix(ix, iy),
                            tile.pix(tile_col(false, ix, swi, ri), tile_row(false, iy, shi, ri)),
                        ));
                        assert(c4.pix(x, y) == c3.pix(x, y));
                    } else if ix < ri && iy >= shi - ri {
                        assert(c4.pix(x, y) == spec_apply_mask(
                            photo.pix(ix, iy),
                            tile.pix(tile_col(true, ix, swi, ri), tile_row(false, iy, shi, ri)),
                        ));
                    } else {
                        assert(c4.pix(x, y) == c_photo.pix(x, y));
                        assert(c_photo.pix(x, y) == photo.pix(ix, iy));
                    }
                } else {
                    assert(c4.pix(x, y) == c_bg.pix(x, y));
                    assert(c_bg.pix(x, y) == bg);
                }
            }
        }
    }
    let bytes = raster_to_bytes(&canvas);
    proof {
        let cwi = cw as int;
        let chi = ch as int;
        let target = composed_flat(*cfg, photo_raw@, sw as int, sh as int, glyphs@);
        assert forall|x: int, y: int| 0 <= x < cwi && 0 <= y < chi implies #[trigger] flat_pixel(
            bytes@,
            cwi,
            x,
            y,
        ) == flat_pixel(target, cwi, x, y) by {
            lemma_composed_flat_pixel(*cfg, photo_raw@, sw as int, sh as int, glyphs@, x, y);
        }
        lemma_flat_bytes_unique(bytes@, target, cwi, chi);
        assert(4 * ((cw as int) * (ch as int)) == 4 * (cw as int) * (ch as int))
            by (nonlinear_arith);
    }
    let result = match encode_png(cw, ch, &bytes) {
        Some(b) => Ok(b),
        None => Err(ComposeError::EncodeError),
    };
    proof {
        assert(outcome_matches(
            result,
            compose_from_photo(*cfg, photo_raw@, sw as int, sh as int, glyphs@),
        ));
        assert(resample_outcome(*cfg, w0 as int, h0 as int, glyphs@, photo_raw@, result));
        assert(exists|ph: Seq<u8>| #[trigger] resample_outcome(
            *cfg,
            w0 as int,
            h0 as int,
            glyphs@,
            ph,
            result,
        ));
    }
    result
}

/// Caption centering: within the caption's rows, the finished canvas
/// shows ink exactly where the strip's inked part - `maxX` columns wide -
/// lands after being shifted to start at `(canvasW - maxX) / 2`, whatever
/// the canvas width and however long the caption; everything else in
/// those rows is background.
pub proof fn lemma_caption_centering(
    cfg: CanvasConfig,
    photo: Seq<u8>,
    sw: int,
    sh: int,
    glyphs: Seq<Glyph>,
    x: int,
    y: int,
)
    requires
        caption_y(cfg, sh) <= y < caption_y(cfg, sh) + cfg.text_size,
    ensures
        caption_x(cfg, glyphs) == (cfg.canvas_width - max_ink_x(
            glyphs,
            cfg.canvas_width as int,
            cfg.text_size as int + 8,
        )) / 2,
        composed_pixel(cfg, photo, sw, sh, glyphs, x, y) == (if caption_x(cfg, glyphs) <= x < caption_x(
            cfg,
            glyphs,
        ) + max_ink_x(glyphs, cfg.canvas_width as int, cfg.text_size as int + 8) && ink_at(
            glyphs,
            cfg.canvas_width as int,
            cfg.text_size as int + 8,
            x - caption_x(cfg, glyphs),
            y - caption_y(cfg, sh),
        ) {
            ink_pixel()
        } else {
            cfg.background
        }),
{
    let y0 = spec_y_offset(cfg.canvas_height as int, sh, cfg.bottom_extra as int);
    assert(y >= y0 + sh);
}

} // verus!