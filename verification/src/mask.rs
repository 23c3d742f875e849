use vstd::prelude::*;
use crate::pixel::Pixel;
use crate::raster::Raster;

verus! {

/// The integer square root, rounded down.
pub open spec fn sqrt_floor(n: nat) -> nat
    decreases n,
{
    if n == 0 {
        0
    } else {
        let s = sqrt_floor((n - 1) as nat);
        if (s + 1) * (s + 1) <= n {
            s + 1
        } else {
            s
        }
    }
}

/// `sqrt_floor(n)` is the unique value whose square is at most `n` while
/// the next square is beyond it.
pub proof fn lemma_sqrt_floor_bounds(n: nat)
    ensures
        sqrt_floor(n) * sqrt_floor(n) <= n,
        (sqrt_floor(n) + 1) * (sqrt_floor(n) + 1) > n,
    decreases n,
{
    let t = sqrt_floor(n);
    if n == 0 {
        assert(t == 0);
        assert(t * t <= n && (t + 1) * (t + 1) > n) by (nonlinear_arith)
            requires
                t == 0,
                n == 0,
        ;
    } else {
        lemma_sqrt_floor_bounds((n - 1) as nat);
        let s = sqrt_floor((n - 1) as nat);
        assert(s * s <= n - 1);
        assert((s + 1) * (s + 1) > n - 1);
        if (s + 1) * (s + 1) <= n {
            assert(t == s + 1);
            assert(t * t <= n && (t + 1) * (t + 1) > n) by (nonlinear_arith)
                requires
                    t == s + 1,
                    (s + 1) * (s + 1) <= n,
                    (s + 1) * (s + 1) > n - 1,
                    s >= 0,
            ;
        } else {
            assert(t == s);
            assert(t * t <= n && (t + 1) * (t + 1) > n) by (nonlinear_arith)
                requires
                    t == s,
                    s * s <= n - 1,
                    (s + 1) * (s + 1) > n,
                    s >= 0,
            ;
        }
    }
}

pub proof fn lemma_sqrt_floor_unique(n: nat, r: nat)
    requires
        r * r <= n,
        (r + 1) * (r + 1) > n,
    ensures
        r == sqrt_floor(n),
{
    lemma_sqrt_floor_bounds(n);
    let s = sqrt_floor(n);
    assert(r == s) by (nonlinear_arith)
        requires
            r * r <= n,
            (r + 1) * (r + 1) > n,
            s * s <= n,
            (s + 1) * (s + 1) > n,
            r >= 0,
            s >= 0,
    ;
}

/// Integer square root by bisection.
pub fn isqrt(n: u64) -> (r: u64)
    ensures
        r == sqrt_floor(n as nat),
{
    let mut lo: u64 = 0;
    let mut hi: u64 = 0x1_0000_0000;
    while lo + 1 < hi
        invariant
            (lo as int) * (lo as int) <= n as int,
            (hi as int) * (hi as int) > n as int,
            lo < hi <= 0x1_0000_0000,
        decreases hi - lo,
    {
        let mid = lo + (hi - lo) / 2;
        proof {
            assert(mid < hi);
            assert((mid as int) * (mid as int) < 0x10000000000000000) by (nonlinear_arith)
                requires
                    0 <= mid < 0x100000000,
            ;
        }
        if mid * mid <= n {
            lo = mid;
        } else {
            hi = mid;
        }
    }
    proof {
        lemma_sqrt_floor_unique(n as nat, lo as nat);
    }
    lo
}

/// The mask tile's alpha at tile coordinate `(x, y)` for radius `r`: a
/// fixed-point rendering, on the 0..=255 scale, of how far the point lies
/// beyond the quarter circle of radius `r` around the tile origin, with a
/// half-pixel band of partial coverage at the boundary.  `sqrt_floor` of
/// the squared distance times `255^2` is the distance scaled by 255, so
/// the clamped difference from `255 * r - 127` smooths the edge.
pub open spec fn mask_alpha_val(x: int, y: int, r: int) -> u8 {
    let s = sqrt_floor(((x * x + y * y) * 65025) as nat);
    let raw = s - 255 * r + 127;
    if raw < 0 {
        0u8
    } else if raw > 255 {
        255u8
    } else {
        raw as u8
    }
}

/// One pixel of the corner mask tile: the canvas background colour, with
/// the antialiased quarter-circle alpha.
pub open spec fn spec_mask_pixel(bg: Pixel, x: int, y: int, r: int) -> Pixel {
    Pixel { r: bg.r, g: bg.g, b: bg.b, a: mask_alpha_val(x, y, r) }
}

/// Compute the alpha of one tile pixel.
fn mask_alpha(x: u32, y: u32, r: u32) -> (a: u8)
    requires
        x < r,
        y < r,
        r <= 65535,
    ensures
        a == mask_alpha_val(x as int, y as int, r as int),
{
    proof {
        assert((x as int) * (x as int) + (y as int) * (y as int) < 0x200000000
            && ((x as int) * (x as int) + (y as int) * (y as int)) * 65025 < 0x10000000000000000)
            by (nonlinear_arith)
            requires
                0 <= x < 65536,
                0 <= y < 65536,
        ;
    }
    let d2: u64 = (x as u64) * (x as u64) + (y as u64) * (y as u64);
    let s: u64 = isqrt(d2 * 65025);
    proof {
        lemma_sqrt_floor_bounds((d2 * 65025) as nat);
        assert(s < 0x2000000) by (nonlinear_arith)
            requires
                (s as int) * (s as int) <= (d2 as int) * 65025,
                0 <= (d2 as int) < 0x200000000,
        ;
    }
    let bound: u64 = 255 * (r as u64);
    if s + 127 < bound {
        0
    } else if s + 127 >= bound + 255 {
        255
    } else {
        (s + 127 - bound) as u8
    }
}

/// Generate the `r x r` corner mask tile: every pixel carries the
/// background colour, and the antialiased quarter-circle alpha.
pub fn make_corner_mask(r: u32, bg: Pixel) -> (out: Raster)
    requires
        r <= 65535,
    ensures
        out.wf(),
        out.width == r,
        out.height == r,
        forall|x: int, y: int|
            0 <= x < r && 0 <= y < r ==> #[trigger] out.pix(x, y) == spec_mask_pixel(
                bg,
                x,
                y,
                r as int,
            ),
{
    let mut tile = Raster::new_filled(r, r, bg);
    let mut y: u32 = 0;
    while y < r
        invariant
            y <= r,
            r <= 65535,
            tile.wf(),
            tile.width == r,
            tile.height == r,
            forall|xx: int, yy: int|
                0 <= xx < r && 0 <= yy < y ==> #[trigger] tile.pix(xx, yy) == spec_mask_pixel(
                    bg,
                    xx,
                    yy,
                    r as int,
                ),
        decreases r - y,
    {
        let mut x: u32 = 0;
        while x < r
            invariant
                x <= r,
                y < r,
                r <= 65535,
                tile.wf(),
                tile.width == r,
                tile.height == r,
                forall|xx: int, yy: int|
                    0 <= xx < r && 0 <= yy < y ==> #[trigger] tile.pix(xx, yy) == spec_mask_pixel(
                        bg,
                        xx,
                        yy,
                        r as int,
                    ),
                forall|xx: int|
                    0 <= xx < x ==> #[trigger] tile.pix(xx, y as int) == spec_mask_pixel(
                        bg,
                        xx,
                        y as int,
                        r as int,
                    ),
            decreases r - x,
        {
            let a = mask_alpha(x, y, r);
            tile.set(x, y, Pixel { r: bg.r, g: bg.g, b: bg.b, a });
            x = x + 1;
        }
        y = y + 1;
    }
    tile
}

/// The column of the mask tile consulted at column `ix` of the placed
/// image, for a corner on the left or on the right edge: the tile is
/// reflected so that alpha grows toward the image's true corner.
pub open spec fn tile_col(left: bool, ix: int, sw: int, r: int) -> int {
    if left {
        r - 1 - ix
    } else {
        ix - (sw - r)
    }
}

/// The row of the mask tile consulted at row `iy` of the placed image,
/// for a corner on the top or on the bottom edge.
pub open spec fn tile_row(top: bool, iy: int, sh: int, r: int) -> int {
    if top {
        r - 1 - iy
    } else {
        iy - (sh - r)
    }
}

/// Corner symmetry: the four corner treatments are one function under
/// coordinate reflection.  A position `(ix, iy)` inside the top-left
/// corner region and its three reflections consult the same tile pixel,
/// so on equal photo pixels all four corners blend to equal results.
pub proof fn lemma_corner_symmetry(sw: int, sh: int, r: int, ix: int, iy: int)
    requires
        0 <= ix < r,
        0 <= iy < r,
        2 * r <= sw,
        2 * r <= sh,
    ensures
        tile_col(false, sw - 1 - ix, sw, r) == tile_col(true, ix, sw, r),
        tile_row(false, sh - 1 - iy, sh, r) == tile_row(true, iy, sh, r),
        forall|bg: Pixel, p: Pixel| #[trigger]
            crate::pixel::spec_apply_mask(
                p,
                spec_mask_pixel(bg, tile_col(false, sw - 1 - ix, sw, r), tile_row(true, iy, sh, r), r),
            ) == crate::pixel::spec_apply_mask(
                p,
                spec_mask_pixel(bg, tile_col(true, ix, sw, r), tile_row(true, iy, sh, r), r),
            ),
        forall|bg: Pixel, p: Pixel| #[trigger]
            crate::pixel::spec_apply_mask(
                p,
                spec_mask_pixel(bg, tile_col(true, ix, sw, r), tile_row(false, sh - 1 - iy, sh, r), r),
            ) == crate::pixel::spec_apply_mask(
                p,
                spec_mask_pixel(bg, tile_col(true, ix, sw, r), tile_row(true, iy, sh, r), r),
            ),
        forall|bg: Pixel, p: Pixel| #[trigger]
            crate::pixel::spec_apply_mask(
                p,
                spec_mask_pixel(
                    bg,
                    tile_col(false, sw - 1 - ix, sw, r),
                    tile_row(false, sh - 1 - iy, sh, r),
                    r,
                ),
            ) == crate::pixel::spec_apply_mask(
                p,
                spec_mask_pixel(bg, tile_col(true, ix, sw, r), tile_row(true, iy, sh, r), r),
            ),
{
    assert(tile_col(false, sw - 1 - ix, sw, r) == r - 1 - ix);
    assert(tile_row(false, sh - 1 - iy, sh, r) == r - 1 - iy);
}

} // verus!
