use vstd::prelude::*;
use vstd::arithmetic::div_mod::{lemma_fundamental_div_mod, lemma_mod_bound};
use crate::pixel::Pixel;
use crate::raster::Raster;

verus! {

/// What `image`'s decoder yields for a byte stream: the dimensions and the
/// raw RGBA bytes of the decoded picture, or nothing when the bytes are not
/// a supported raster image.  Decoding is a function of the bytes alone.
pub uninterp spec fn image_decoding(bytes: Seq<u8>) -> Option<(u32, u32, Seq<u8>)>;

/// What `image`'s PNG encoder yields for a raw `w x h` RGBA buffer, or
/// nothing when the encoder refuses it: a function of its arguments alone.
pub uninterp spec fn png_encoding(w: u32, h: u32, raw: Seq<u8>) -> Option<Seq<u8>>;

/// Relies on `image::guess_format`, which sniffs the format from its
/// built-in magic-byte table alone (it consults no registry, unlike the
/// hook-aware guessing of `load_from_memory`), on
/// `image::load_from_memory_with_format`, which decodes a built-in format
/// without touching the decoding-hook registry, and on
/// `DynamicImage::to_rgba8`, whose result is an RGBA buffer of the
/// decoded dimensions, 4 bytes per pixel.  On that path both the format
/// choice and the decode are functions of the bytes alone.
#[verifier::external_body]
pub(crate) fn decode_rgba(bytes: &Vec<u8>) -> (out: Option<(u32, u32, Vec<u8>)>)
    ensures
        out is Some <==> image_decoding(bytes@) is Some,
        out matches Some(t) ==> image_decoding(bytes@) == Some((t.0, t.1, t.2@)) && t.2@.len() == 4
            * (t.0 as int) * (t.1 as int),
{
    let format = match image::guess_format(bytes) {
        Ok(f) => f,
        Err(_) => return None,
    };
    match image::load_from_memory_with_format(bytes, format) {
        Ok(img) => {
            let rgba = img.to_rgba8();
            let (w, h) = (rgba.width(), rgba.height());
            Some((w, h, rgba.into_raw()))
        },
        Err(_) => None,
    }
}

/// Relies on `image::imageops::resize` with `FilterType::Lanczos3`,
/// which returns a buffer of exactly the requested dimensions (4 bytes
/// per pixel), and on `ImageBuffer::from_raw`/`into_raw`, which carry a
/// matching raw buffer in and out unchanged in layout.  The resampling
/// arithmetic runs through `f32::sin`, whose precision std does not
/// promise to be reproducible, so nothing beyond the length is claimed
/// of the bytes: callers take the buffer as an argument and are verified
/// for every value of it.
#[verifier::external_body]
pub(crate) fn resize_lanczos(w: u32, h: u32, raw: &Vec<u8>, nw: u32, nh: u32) -> (out: Vec<u8>)
    requires
        raw@.len() == 4 * (w as int) * (h as int),
        w >= 1,
        h >= 1,
        nw >= 1,
        nh >= 1,
        4 * (nw as int) * (nh as int) <= 0x40000000,
    ensures
        out@.len() == 4 * (nw as int) * (nh as int),
{
    let buf = image::RgbaImage::from_raw(w, h, raw.clone()).unwrap();
    let res = image::imageops::resize(&buf, nw, nh, image::imageops::FilterType::Lanczos3);
    res.into_raw()
}

/// Relies on `ImageBuffer::write_to` with `ImageFormat::Png`: encoding to
/// an in-memory cursor is deterministic in the dimensions and bytes.
#[verifier::external_body]
pub(crate) fn encode_png(w: u32, h: u32, raw: &Vec<u8>) -> (out: Option<Vec<u8>>)
    requires
        raw@.len() == 4 * (w as int) * (h as int),
        w >= 1,
        h >= 1,
    ensures
        out is Some <==> png_encoding(w, h, raw@) is Some,
        out matches Some(b) ==> png_encoding(w, h, raw@) == Some(b@),
{
    let buf = image::RgbaImage::from_raw(w, h, raw.clone()).unwrap();
    let mut cur = std::io::Cursor::new(Vec::new());
    match buf.write_to(&mut cur, image::ImageFormat::Png) {
        Ok(()) => Some(cur.into_inner()),
        Err(_) => None,
    }
}

/// The pixel at `(x, y)` of a `w`-wide raster laid out as flat RGBA bytes.
pub open spec fn flat_pixel(raw: Seq<u8>, w: int, x: int, y: int) -> Pixel {
    Pixel {
        r: raw[4 * (y * w + x)],
        g: raw[4 * (y * w + x) + 1],
        b: raw[4 * (y * w + x) + 2],
        a: raw[4 * (y * w + x) + 3],
    }
}

/// Channel `c` of a pixel, in RGBA order.
pub open spec fn pixel_channel(p: Pixel, c: int) -> u8 {
    if c == 0 {
        p.r
    } else if c == 1 {
        p.g
    } else if c == 2 {
        p.b
    } else {
        p.a
    }
}

/// Flat index `n` of a `w x h` RGBA buffer decomposes uniquely into a
/// pixel coordinate and a channel.
pub proof fn lemma_flat_decompose(n: int, w: int, h: int)
    requires
        w >= 1,
        h >= 0,
        0 <= n < 4 * (w * h),
    ensures
        0 <= n % 4 < 4,
        0 <= (n / 4) % w < w,
        0 <= (n / 4) / w < h,
        n == 4 * (((n / 4) / w) * w + (n / 4) % w) + n % 4,
{
    let p = n / 4;
    let c = n % 4;
    lemma_fundamental_div_mod(n, 4);
    lemma_mod_bound(n, 4);
    let y = p / w;
    let x = p % w;
    lemma_fundamental_div_mod(p, w);
    lemma_mod_bound(p, w);
    assert(p < w * h) by (nonlinear_arith)
        requires
            n == 4 * p + c,
            0 <= c < 4,
            n < 4 * (w * h),
    ;
    assert(0 <= y < h && p == y * w + x) by (nonlinear_arith)
        requires
            p == w * y + x,
            0 <= x < w,
            0 <= p < w * h,
            w >= 1,
            h >= 0,
    ;
}

/// Two flat RGBA buffers of the same dimensions that agree on every pixel
/// are the same bytes.
pub proof fn lemma_flat_bytes_unique(a: Seq<u8>, b: Seq<u8>, w: int, h: int)
    requires
        w >= 1,
        h >= 0,
        a.len() == 4 * (w * h),
        b.len() == 4 * (w * h),
        forall|x: int, y: int|
            0 <= x < w && 0 <= y < h ==> #[trigger] flat_pixel(a, w, x, y) == flat_pixel(b, w, x, y),
    ensures
        a == b,
{
    assert forall|n: int| 0 <= n < a.len() implies a[n] == b[n] by {
        lemma_flat_decompose(n, w, h);
        let c = n % 4;
        let x = (n / 4) % w;
        let y = (n / 4) / w;
        assert(flat_pixel(a, w, x, y) == flat_pixel(b, w, x, y));
        assert(a[n] == pixel_channel(flat_pixel(a, w, x, y), c));
        assert(b[n] == pixel_channel(flat_pixel(b, w, x, y), c));
    }
    assert(a =~= b);
}

/// Rebuild a raster from a flat RGBA byte buffer.
pub fn raster_from_bytes(w: u32, h: u32, raw: &Vec<u8>) -> (out: Raster)
    requires
        raw@.len() == 4 * (w as int) * (h as int),
        w >= 1,
    ensures
        out.wf(),
        out.width == w,
        out.height == h,
        forall|x: int, y: int|
            0 <= x < w && 0 <= y < h ==> #[trigger] out.pix(x, y) == flat_pixel(
                raw@,
                w as int,
                x,
                y,
            ),
{
    let mut rows: Vec<Vec<Pixel>> = Vec::new();
    let mut y: u32 = 0;
    while y < h
        invariant
            y <= h,
            w >= 1,
            raw@.len() == 4 * (w as int) * (h as int),
            rows.len() == y,
            forall|yy: int| 0 <= yy < y ==> (#[trigger] rows@[yy]).len() == w,
            forall|xx: int, yy: int|
                0 <= xx < w && 0 <= yy < y ==> #[trigger] rows@[yy]@[xx] == flat_pixel(
                    raw@,
                    w as int,
                    xx,
                    yy,
                ),
        decreases h - y,
    {
        let mut row: Vec<Pixel> = Vec::new();
        let mut x: u32 = 0;
        while x < w
            invariant
                x <= w,
                y < h,
                w >= 1,
                raw@.len() == 4 * (w as int) * (h as int),
                row.len() == x,
                forall|xx: int|
                    0 <= xx < x ==> #[trigger] row@[xx] == flat_pixel(raw@, w as int, xx, y as int),
            decreases w - x,
        {
            proof {
                assert(0 <= 4 * ((y as int) * (w as int) + (x as int)) && 4 * ((y as int) * (
                w as int) + (x as int)) + 3 < 4 * (w as int) * (h as int)) by (nonlinear_arith)
                    requires
                        0 <= x < w,
                        0 <= y < h,
                ;
            }
            let len: usize = raw.len();
            proof {
                assert(4 * ((y as int) * (w as int) + (x as int)) + 3 < len as int);
            }
            let base: usize = 4 * ((y as usize) * (w as usize) + (x as usize));
            let p = Pixel { r: raw[base], g: raw[base + 1], b: raw[base + 2], a: raw[base + 3] };
            row.push(p);
            x = x + 1;
        }
        rows.push(row);
        y = y + 1;
    }
    Raster { width: w, height: h, rows }
}

/// Flatten a raster into its RGBA byte layout.
pub fn raster_to_bytes(im: &Raster) -> (out: Vec<u8>)
    requires
        im.wf(),
        im.width >= 1,
    ensures
        out@.len() == 4 * ((im.width as int) * (im.height as int)),
        forall|x: int, y: int|
            0 <= x < im.width && 0 <= y < im.height ==> #[trigger] flat_pixel(
                out@,
                im.width as int,
                x,
                y,
            ) == im.pix(x, y),
{
    let w = im.width;
    let h = im.height;
    let mut out: Vec<u8> = Vec::new();
    let mut y: u32 = 0;
    while y < h
        invariant
            y <= h,
            w == im.width,
            h == im.height,
            im.wf(),
            w >= 1,
            out@.len() == 4 * ((y as int) * (w as int)),
            forall|xx: int, yy: int|
                0 <= xx < w && 0 <= yy < y ==> #[trigger] flat_pixel(out@, w as int, xx, yy)
                    == im.pix(xx, yy),
        decreases h - y,
    {
        let mut x: u32 = 0;
        while x < w
            invariant
                x <= w,
                y < h,
                w == im.width,
                h == im.height,
                im.wf(),
                w >= 1,
                out@.len() == 4 * ((y as int) * (w as int) + (x as int)),
                forall|xx: int, yy: int|
                    0 <= xx < w && 0 <= yy < y ==> #[trigger] flat_pixel(out@, w as int, xx, yy)
                        == im.pix(xx, yy),
                forall|xx: int|
                    0 <= xx < x ==> #[trigger] flat_pixel(out@, w as int, xx, y as int) == im.pix(
                        xx,
                        y as int,
                    ),
            decreases w - x,
        {
            let ghost out0 = out@;
            let p = im.get(x, y);
            out.push(p.r);
            out.push(p.g);
            out.push(p.b);
            out.push(p.a);
            proof {
                let base = 4 * ((y as int) * (w as int) + (x as int));
                assert(out@.len() == base + 4);
                assert(out@ == out0.push(p.r).push(p.g).push(p.b).push(p.a));
                assert(forall|m: int| 0 <= m < base ==> #[trigger] out@[m] == out0[m]);
                assert(out@[base] == p.r && out@[base + 1] == p.g && out@[base + 2] == p.b && out@[
                    base + 3] == p.a);
                assert(flat_pixel(out@, w as int, x as int, y as int) == p);
                assert forall|xx: int, yy: int|
                    0 <= xx < w && 0 <= yy < y implies #[trigger] flat_pixel(out@, w as int, xx, yy)
                    == im.pix(xx, yy) by {
                    assert(0 <= 4 * (yy * (w as int) + xx) && 4 * (yy * (w as int) + xx) + 3
                        < base) by (nonlinear_arith)
                        requires
                            0 <= xx < w,
                            0 <= yy < y,
                            base == 4 * ((y as int) * (w as int) + (x as int)),
                            0 <= x,
                    ;
                    assert(flat_pixel(out@, w as int, xx, yy) == flat_pixel(out0, w as int, xx, yy));
                }
                assert forall|xx: int|
                    0 <= xx < x implies #[trigger] flat_pixel(out@, w as int, xx, y as int)
                    == im.pix(xx, y as int) by {
                    assert(0 <= 4 * ((y as int) * (w as int) + xx) && 4 * ((y as int) * (w as int)
                        + xx) + 3 < base) by (nonlinear_arith)
                        requires
                            0 <= xx < x,
                            base == 4 * ((y as int) * (w as int) + (x as int)),
                            0 <= y,
                            x <= w,
                    ;
                    assert(flat_pixel(out@, w as int, xx, y as int) == flat_pixel(
                        out0,
                        w as int,
                        xx,
                        y as int,
                    ));
                }
            }
            x = x + 1;
        }
        proof {
            assert(4 * ((y as int) * (w as int) + (w as int)) == 4 * (((y as int) + 1) * (
            w as int))) by (nonlinear_arith);
        }
        y = y + 1;
    }
    proof {
        assert(4 * ((h as int) * (w as int)) == 4 * ((w as int) * (h as int))) by (nonlinear_arith);
    }
    out
}

} // verus!
