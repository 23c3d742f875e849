use vstd::prelude::*;
use vstd::arithmetic::div_mod::{
    lemma_div_is_ordered, lemma_div_multiples_vanish_fancy, lemma_div_pos_is_pos,
    lemma_fundamental_div_mod, lemma_mod_bound,
};

verus! {

/// Aspect-preserving fit of a `w x h` source into a `bw x bh` box: the
/// uniform scale factor is `min(bw/w, bh/h)` as an exact rational, so the
/// binding axis fills the box exactly and the other is rounded to the
/// nearest pixel (halves up): `round(a / b) == (2a + b) / (2b)` in
/// integers.
pub open spec fn spec_fit_dims(w: int, h: int, bw: int, bh: int) -> (int, int) {
    if bw * h <= bh * w {
        (bw, (2 * h * bw + w) / (2 * w))
    } else {
        ((2 * w * bh + h) / (2 * h), bh)
    }
}

/// Horizontal placement that centres a span of `sw` inside a span of `cw`.
pub open spec fn spec_x_offset(cw: int, sw: int) -> int {
    (cw - sw) / 2
}

/// Vertical placement that centres a span of `sh` inside the part of `ch`
/// that is not reserved for the caption (`be` at the bottom).
pub open spec fn spec_y_offset(ch: int, sh: int, be: int) -> int {
    (ch - sh - be) / 2
}

/// The scaled image fits the box, and fills it exactly on at least one
/// axis: the scale factor binds on exactly one dimension.  Rounding the
/// derived axis to the nearest pixel never overshoots the box, since the
/// exact value already lies at or below the box's own side.
pub proof fn lemma_fit_bound(w: int, h: int, bw: int, bh: int)
    requires
        w >= 1,
        h >= 1,
        bw >= 1,
        bh >= 1,
    ensures
        spec_fit_dims(w, h, bw, bh).0 <= bw,
        spec_fit_dims(w, h, bw, bh).1 <= bh,
        spec_fit_dims(w, h, bw, bh).0 == bw || spec_fit_dims(w, h, bw, bh).1 == bh,
        spec_fit_dims(w, h, bw, bh).0 >= 0,
        spec_fit_dims(w, h, bw, bh).1 >= 0,
{
    if bw * h <= bh * w {
        let d = 2 * w;
        let n = 2 * h * bw + w;
        assert(n <= d * bh + w && n >= 0 && d * bh == 2 * w * bh) by (nonlinear_arith)
            requires
                bw * h <= bh * w,
                d == 2 * w,
                n == 2 * h * bw + w,
                w >= 1,
                h >= 1,
                bw >= 1,
                bh >= 1,
        ;
        lemma_div_is_ordered(n, d * bh + w, d);
        lemma_div_multiples_vanish_fancy(bh, w, d);
        lemma_div_pos_is_pos(n, d);
    } else {
        let d = 2 * h;
        let n = 2 * w * bh + h;
        assert(n <= d * bw + h && n >= 0 && d * bw == 2 * h * bw) by (nonlinear_arith)
            requires
                bh * w <= bw * h,
                d == 2 * h,
                n == 2 * w * bh + h,
                w >= 1,
                h >= 1,
                bw >= 1,
                bh >= 1,
        ;
        lemma_div_is_ordered(n, d * bw + h, d);
        lemma_div_multiples_vanish_fancy(bw, h, d);
        lemma_div_pos_is_pos(n, d);
    }
}

/// Aspect preservation: the scaled dimensions stand in the source's ratio
/// `w : h` to within half a pixel of rounding on the derived axis (the
/// difference of the cross products, doubled, stays within one source
/// unit).
pub proof fn lemma_fit_preserves_aspect(w: int, h: int, bw: int, bh: int)
    requires
        w >= 1,
        h >= 1,
        bw >= 1,
        bh >= 1,
    ensures
        (2 * (spec_fit_dims(w, h, bw, bh).0 * h - spec_fit_dims(w, h, bw, bh).1 * w) <= w && 2 * (
        spec_fit_dims(w, h, bw, bh).1 * w - spec_fit_dims(w, h, bw, bh).0 * h) <= w) || (2 * (
        spec_fit_dims(w, h, bw, bh).1 * w - spec_fit_dims(w, h, bw, bh).0 * h) <= h && 2 * (
        spec_fit_dims(w, h, bw, bh).0 * h - spec_fit_dims(w, h, bw, bh).1 * w) <= h),
{
    if bw * h <= bh * w {
        let d = 2 * w;
        let n = 2 * h * bw + w;
        let sh = n / d;
        lemma_fundamental_div_mod(n, d);
        lemma_mod_bound(n, d);
        assert(n == d * sh + n % d);
        assert(2 * (bw * h - sh * w) == n % d - w && 2 * (sh * w - bw * h) == w - n % d)
            by (nonlinear_arith)
            requires
                n == d * sh + n % d,
                d == 2 * w,
                n == 2 * h * bw + w,
        ;
    } else {
        let d = 2 * h;
        let n = 2 * w * bh + h;
        let sw = n / d;
        lemma_fundamental_div_mod(n, d);
        lemma_mod_bound(n, d);
        assert(n == d * sw + n % d);
        assert(2 * (bh * w - sw * h) == n % d - h && 2 * (sw * h - bh * w) == h - n % d)
            by (nonlinear_arith)
            requires
                n == d * sw + n % d,
                d == 2 * h,
                n == 2 * w * bh + h,
        ;
    }
}

/// Centering: the blank margins that the offset leaves on the two sides of
/// the placed span differ by at most one pixel of integer rounding, both
/// horizontally and, within the area above the caption room, vertically.
pub proof fn lemma_centering(cw: int, sw: int, ch: int, sh: int, be: int)
    requires
        0 <= sw <= cw,
        0 <= sh,
        0 <= be,
        sh + be <= ch,
    ensures
        spec_x_offset(cw, sw) >= 0,
        spec_y_offset(ch, sh, be) >= 0,
        (cw - sw - spec_x_offset(cw, sw)) - spec_x_offset(cw, sw) == (cw - sw) % 2,
        ((ch - be) - sh - spec_y_offset(ch, sh, be)) - spec_y_offset(ch, sh, be) == (ch - sh - be)
            % 2,
        0 <= (cw - sw) % 2 <= 1,
        0 <= (ch - sh - be) % 2 <= 1,
{
    lemma_fundamental_div_mod(cw - sw, 2);
    lemma_mod_bound(cw - sw, 2);
    lemma_fundamental_div_mod(ch - sh - be, 2);
    lemma_mod_bound(ch - sh - be, 2);
}

/// Compute the scaled dimensions for fitting a `w x h` source into a
/// `bw x bh` content box.
pub fn fit_dims(w: u32, h: u32, bw: u32, bh: u32) -> (out: (u32, u32))
    requires
        w >= 1,
        h >= 1,
        bw >= 1,
        bh >= 1,
    ensures
        out.0 as int == spec_fit_dims(w as int, h as int, bw as int, bh as int).0,
        out.1 as int == spec_fit_dims(w as int, h as int, bw as int, bh as int).1,
        out.0 <= bw,
        out.1 <= bh,
        out.0 == bw || out.1 == bh,
{
    proof {
        lemma_fit_bound(w as int, h as int, bw as int, bh as int);
        assert((bw as int) * (h as int) < 0x10000000000000000 && (bh as int) * (w as int)
            < 0x10000000000000000 && 2 * (h as int) * (bw as int) + (w as int)
            < 0x80000000000000000 && 2 * (w as int) * (bh as int) + (h as int)
            < 0x80000000000000000) by (nonlinear_arith)
            requires
                bw < 0x100000000,
                bh < 0x100000000,
                w < 0x100000000,
                h < 0x100000000,
        ;
    }
    if (bw as u64) * (h as u64) <= (bh as u64) * (w as u64) {
        let sh = (2u128 * (h as u128) * (bw as u128) + (w as u128)) / (2u128 * (w as u128));
        (bw, sh as u32)
    } else {
        let sw = (2u128 * (w as u128) * (bh as u128) + (h as u128)) / (2u128 * (h as u128));
        (sw as u32, bh)
    }
}

} // verus!
