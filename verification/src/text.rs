use vstd::prelude::*;
use crate::pixel::Pixel;
use crate::raster::Raster;

verus! {

/// The colour captions are painted in: opaque black.
pub open spec fn ink_pixel() -> Pixel {
    Pixel { r: 0, g: 0, b: 0, a: 255 }
}

/// One rasterized glyph: a coverage bitmap together with its bounding box,
/// already placed in strip coordinates by the caller's layout.
pub struct Glyph {
    pub min_x: u32,
    pub min_y: u32,
    pub width: u32,
    pub height: u32,
    pub coverage: Vec<u8>,
}

impl Glyph {
    /// Well-formedness: one coverage byte for each bitmap cell.
    pub open spec fn wf(self) -> bool {
        self.coverage.len() == self.width * self.height
    }

    /// Whether this glyph paints ink at strip position `(x, y)` of a
    /// `w x h` strip: the position falls inside both the glyph's box and
    /// the strip, and the coverage there exceeds one half of full.
    pub open spec fn ink_at(self, w: int, h: int, x: int, y: int) -> bool {
        let i = x - self.min_x;
        let j = y - self.min_y;
        &&& 0 <= i < self.width
        &&& 0 <= j < self.height
        &&& 0 <= x < w
        &&& 0 <= y < h
        &&& self.coverage@[j * self.width + i] > 127
    }

    /// The part of this glyph already painted when the row loop stands at
    /// row `j` and the column loop within that row at column `i`.
    pub open spec fn ink_before(self, w: int, h: int, j: int, i: int, x: int, y: int) -> bool {
        &&& self.ink_at(w, h, x, y)
        &&& (y - self.min_y < j || (y - self.min_y == j && x - self.min_x < i))
    }
}

pub open spec fn wf_glyphs(glyphs: Seq<Glyph>) -> bool {
    forall|k: int| 0 <= k < glyphs.len() ==> (#[trigger] glyphs[k]).wf()
}

/// Whether any glyph of the caption paints ink at `(x, y)`.
pub open spec fn ink_at(glyphs: Seq<Glyph>, w: int, h: int, x: int, y: int) -> bool {
    exists|k: int| 0 <= k < glyphs.len() && (#[trigger] glyphs[k]).ink_at(w, h, x, y)
}

/// Whether column `x` of the strip holds any ink.
pub open spec fn col_has_ink(glyphs: Seq<Glyph>, w: int, h: int, x: int) -> bool {
    exists|y: int| #[trigger] ink_at(glyphs, w, h, x, y)
}

/// The rightmost inked column at or left of column `x`, or 0 when none.
pub open spec fn max_ink_upto(glyphs: Seq<Glyph>, w: int, h: int, x: int) -> int
    decreases x,
{
    if x <= 0 {
        0
    } else if col_has_ink(glyphs, w, h, x) {
        x
    } else {
        max_ink_upto(glyphs, w, h, x - 1)
    }
}

/// The caption's ink extent: the rightmost strip column painted by any
/// glyph, or 0 when the caption paints nothing.
pub open spec fn max_ink_x(glyphs: Seq<Glyph>, w: int, h: int) -> int {
    if w <= 0 {
        0
    } else {
        max_ink_upto(glyphs, w, h, w - 1)
    }
}

proof fn lemma_max_ink_upto_of(glyphs: Seq<Glyph>, w: int, h: int, x: int, m: int)
    requires
        0 <= m <= x,
        forall|xx: int, yy: int| #[trigger] ink_at(glyphs, w, h, xx, yy) ==> xx <= m,
        m == 0 || col_has_ink(glyphs, w, h, m),
    ensures
        max_ink_upto(glyphs, w, h, x) == m,
    decreases x,
{
    if x > m {
        if col_has_ink(glyphs, w, h, x) {
            let y = choose|y: int| #[trigger] ink_at(glyphs, w, h, x, y);
            assert(x <= m);
        }
        lemma_max_ink_upto_of(glyphs, w, h, x - 1, m);
    } else {
        if m == 0 {
            assert(max_ink_upto(glyphs, w, h, 0) == 0);
        }
    }
}

/// Any value with the two properties the painting loop maintains - an
/// upper bound on all inked columns that is itself inked or zero - is the
/// ink extent.
pub proof fn lemma_max_ink_x_unique(glyphs: Seq<Glyph>, w: int, h: int, m: int)
    requires
        0 <= m < w,
        forall|xx: int, yy: int| #[trigger] ink_at(glyphs, w, h, xx, yy) ==> xx <= m,
        m == 0 || col_has_ink(glyphs, w, h, m),
    ensures
        max_ink_x(glyphs, w, h) == m,
{
    lemma_max_ink_upto_of(glyphs, w, h, w - 1, m);
}

/// Growing the prefix of painted glyphs by one adds exactly that glyph's
/// ink.
pub proof fn lemma_ink_prefix_push(glyphs: Seq<Glyph>, k: int, w: int, h: int)
    requires
        0 <= k < glyphs.len(),
    ensures
        forall|x: int, y: int| #[trigger]
            ink_at(glyphs.take(k + 1), w, h, x, y) <==> (ink_at(glyphs.take(k), w, h, x, y)
                || glyphs[k].ink_at(w, h, x, y)),
{
    assert forall|x: int, y: int| #[trigger]
        ink_at(glyphs.take(k + 1), w, h, x, y) implies (ink_at(glyphs.take(k), w, h, x, y)
        || glyphs[k].ink_at(w, h, x, y)) by {
        let kk = choose|kk: int|
            0 <= kk < glyphs.take(k + 1).len() && (#[trigger] glyphs.take(k + 1)[kk]).ink_at(
                w,
                h,
                x,
                y,
            );
        if kk < k {
            assert(glyphs.take(k)[kk].ink_at(w, h, x, y));
        } else {
            assert(glyphs[k].ink_at(w, h, x, y));
        }
    }
    assert forall|x: int, y: int|
        (ink_at(glyphs.take(k), w, h, x, y) || glyphs[k].ink_at(w, h, x, y)) implies #[trigger]
        ink_at(glyphs.take(k + 1), w, h, x, y) by {
        if ink_at(glyphs.take(k), w, h, x, y) {
            let kk = choose|kk: int|
                0 <= kk < glyphs.take(k).len() && (#[trigger] glyphs.take(k)[kk]).ink_at(
                    w,
                    h,
                    x,
                    y,
                );
            assert(glyphs.take(k + 1)[kk].ink_at(w, h, x, y));
        } else {
            assert(glyphs.take(k + 1)[k].ink_at(w, h, x, y));
        }
    }
}

/// Paint one glyph's covered pixels onto the strip in black, clipped to
/// the strip, and widen the running ink extent `max_x` to cover them.
fn paint_glyph(strip: &mut Raster, g: &Glyph, max_x: &mut u32)
    requires
        old(strip).wf(),
        g.wf(),
        old(strip).width >= 1,
        *old(max_x) < old(strip).width,
    ensures
        final(strip).wf(),
        final(strip).width == old(strip).width,
        final(strip).height == old(strip).height,
        forall|x: int, y: int|
            0 <= x < final(strip).width && 0 <= y < final(strip).height
                ==> #[trigger] final(strip).pix(x, y) == (if g.ink_at(
                old(strip).width as int,
                old(strip).height as int,
                x,
                y,
            ) {
                ink_pixel()
            } else {
                old(strip).pix(x, y)
            }),
        *old(max_x) <= *final(max_x) < old(strip).width,
        forall|x: int, y: int| #[trigger]
            g.ink_at(old(strip).width as int, old(strip).height as int, x, y) ==> x
                <= *final(max_x),
        *final(max_x) == *old(max_x) || (exists|y: int| #[trigger]
            g.ink_at(
                old(strip).width as int,
                old(strip).height as int,
                *final(max_x) as int,
                y,
            )),
{
    let ghost strip0 = *strip;
    let ghost m0 = *max_x;
    let w = strip.width;
    let h = strip.height;
    let mut j: u32 = 0;
    while j < g.height
        invariant
            strip.wf(),
            g.wf(),
            strip.width == w,
            strip.height == h,
            w >= 1,
            j <= g.height,
            strip0.width == w,
            strip0.height == h,
            forall|x: int, y: int|
                0 <= x < w && 0 <= y < h ==> #[trigger] strip.pix(x, y) == (if g.ink_before(
                    w as int,
                    h as int,
                    j as int,
                    0,
                    x,
                    y,
                ) {
                    ink_pixel()
                } else {
                    strip0.pix(x, y)
                }),
            m0 <= *max_x < w,
            forall|x: int, y: int| #[trigger]
                g.ink_before(w as int, h as int, j as int, 0, x, y) ==> x <= *max_x,
            *max_x == m0 || (exists|y: int| #[trigger]
                g.ink_at(w as int, h as int, *max_x as int, y)),
        decreases g.height - j,
    {
        let mut i: u32 = 0;
        while i < g.width
            invariant
                strip.wf(),
                g.wf(),
                strip.width == w,
                strip.height == h,
                w >= 1,
                j < g.height,
                i <= g.width,
                strip0.width == w,
                strip0.height == h,
                forall|x: int, y: int|
                    0 <= x < w && 0 <= y < h ==> #[trigger] strip.pix(x, y) == (if g.ink_before(
                        w as int,
                        h as int,
                        j as int,
                        i as int,
                        x,
                        y,
                    ) {
                        ink_pixel()
                    } else {
                        strip0.pix(x, y)
                    }),
                m0 <= *max_x < w,
                forall|x: int, y: int| #[trigger]
                    g.ink_before(w as int, h as int, j as int, i as int, x, y) ==> x <= *max_x,
                *max_x == m0 || (exists|y: int| #[trigger]
                    g.ink_at(w as int, h as int, *max_x as int, y)),
            decreases g.width - i,
        {
            proof {
                assert((j as int) * (g.width as int) + (i as int) < (g.width as int) * (
                g.height as int) && (j as int) * (g.width as int) >= 0) by (nonlinear_arith)
                    requires
                        0 <= i < g.width,
                        0 <= j < g.height,
                ;
            }
            let idx: usize = (j as usize) * (g.width as usize) + (i as usize);
            let ghost gi = g.min_x as int + i as int;
            let ghost gj = g.min_y as int + j as int;
            proof {
                assert(idx as int == (gj - g.min_y) * g.width + (gi - g.min_x));
            }
            if g.coverage[idx] > 127 {
                let x64: u64 = (g.min_x as u64) + (i as u64);
                let y64: u64 = (g.min_y as u64) + (j as u64);
                if x64 < (w as u64) && y64 < (h as u64) {
                    let x = x64 as u32;
                    let y = y64 as u32;
                    proof {
                        assert(x as int == gi && y as int == gj);
                        assert(g.ink_at(w as int, h as int, gi, gj));
                    }
                    strip.set(x, y, Pixel { r: 0, g: 0, b: 0, a: 255 });
                    if x > *max_x {
                        *max_x = x;
                        proof {
                            assert(g.ink_at(w as int, h as int, *max_x as int, gj));
                            assert(exists|yy: int| #[trigger]
                                g.ink_at(w as int, h as int, *max_x as int, yy));
                        }
                    }
                } else {
                    proof {
                        assert(!g.ink_at(w as int, h as int, gi, gj));
                    }
                }
            } else {
                proof {
                    assert(!g.ink_at(w as int, h as int, gi, gj));
                }
            }
            proof {
                assert forall|x: int, y: int|
                    g.ink_before(w as int, h as int, j as int, i as int + 1, x, y) && !g.ink_before(
                        w as int,
                        h as int,
                        j as int,
                        i as int,
                        x,
                        y,
                    ) implies (x == gi && y == gj && g.ink_at(w as int, h as int, x, y)) by {}
                assert forall|x: int, y: int| 0 <= x < w && 0 <= y < h implies #[trigger] strip.pix(
                    x,
                    y,
                ) == (if g.ink_before(w as int, h as int, j as int, i as int + 1, x, y) {
                    ink_pixel()
                } else {
                    strip0.pix(x, y)
                }) by {}
            }
            i = i + 1;
        }
        proof {
            assert forall|x: int, y: int| #[trigger]
                g.ink_before(w as int, h as int, j as int + 1, 0, x, y) implies x <= *max_x by {
                assert(g.ink_before(w as int, h as int, j as int, g.width as int, x, y));
            }
            assert forall|x: int, y: int| 0 <= x < w && 0 <= y < h implies #[trigger] strip.pix(
                x,
                y,
            ) == (if g.ink_before(w as int, h as int, j as int + 1, 0, x, y) {
                ink_pixel()
            } else {
                strip0.pix(x, y)
            }) by {
                assert(g.ink_before(w as int, h as int, j as int + 1, 0, x, y) == g.ink_before(
                    w as int,
                    h as int,
                    j as int,
                    g.width as int,
                    x,
                    y,
                ));
            }
        }
        j = j + 1;
    }
    proof {
        assert forall|x: int, y: int|
            g.ink_at(w as int, h as int, x, y) == g.ink_before(
                w as int,
                h as int,
                g.height as int,
                0,
                x,
                y,
            ) by {}
    }
}

/// Rasterize a caption into a fresh strip: paint every glyph's ink in
/// black over the `bg`-filled strip, left to right, and report the ink
/// extent - the rightmost painted column - alongside.
pub fn render_caption_strip(glyphs: &Vec<Glyph>, w: u32, h: u32, bg: Pixel) -> (out: (Raster, u32))
    requires
        wf_glyphs(glyphs@),
        w >= 1,
    ensures
        out.0.wf(),
        out.0.width == w,
        out.0.height == h,
        forall|x: int, y: int|
            0 <= x < w && 0 <= y < h ==> #[trigger] out.0.pix(x, y) == (if ink_at(
                glyphs@,
                w as int,
                h as int,
                x,
                y,
            ) {
                ink_pixel()
            } else {
                bg
            }),
        out.1 < w,
        out.1 as int == max_ink_x(glyphs@, w as int, h as int),
{
    let mut strip = Raster::new_filled(w, h, bg);
    let mut max_x: u32 = 0;
    let mut k: usize = 0;
    while k < glyphs.len()
        invariant
            wf_glyphs(glyphs@),
            strip.wf(),
            strip.width == w,
            strip.height == h,
            w >= 1,
            k <= glyphs.len(),
            forall|x: int, y: int|
                0 <= x < w && 0 <= y < h ==> #[trigger] strip.pix(x, y) == (if ink_at(
                    glyphs@.take(k as int),
                    w as int,
                    h as int,
                    x,
                    y,
                ) {
                    ink_pixel()
                } else {
                    bg
                }),
            max_x < w,
            forall|x: int, y: int| #[trigger]
                ink_at(glyphs@.take(k as int), w as int, h as int, x, y) ==> x <= max_x,
            max_x == 0 || col_has_ink(glyphs@.take(k as int), w as int, h as int, max_x as int),
        decreases glyphs.len() - k,
    {
        let ghost prev = glyphs@.take(k as int);
        let ghost prev_max = max_x;
        let g = &glyphs[k];
        paint_glyph(&mut strip, g, &mut max_x);
        proof {
            lemma_ink_prefix_push(glyphs@, k as int, w as int, h as int);
            if max_x != prev_max {
                let y = choose|y: int| #[trigger]
                    g.ink_at(w as int, h as int, max_x as int, y);
                assert(ink_at(glyphs@.take(k as int + 1), w as int, h as int, max_x as int, y));
                assert(col_has_ink(glyphs@.take(k as int + 1), w as int, h as int, max_x as int));
            } else if max_x != 0 {
                let y = choose|y: int| #[trigger]
                    ink_at(prev, w as int, h as int, max_x as int, y);
                assert(ink_at(glyphs@.take(k as int + 1), w as int, h as int, max_x as int, y));
                assert(col_has_ink(glyphs@.take(k as int + 1), w as int, h as int, max_x as int));
            }
        }
        k = k + 1;
    }
    proof {
        assert(glyphs@.take(glyphs@.len() as int) =~= glyphs@);
        lemma_max_ink_x_unique(glyphs@, w as int, h as int, max_x as int);
    }
    (strip, max_x)
}

} // verus!
