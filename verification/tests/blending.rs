use wallframe::pixel::{Pixel, apply_mask};
use wallframe::mask::make_corner_mask;

fn bg() -> Pixel {
    Pixel::opaque(229, 223, 199)
}

#[test]
fn opaque_mask_replaces_with_background() {
    let photo = Pixel { r: 10, g: 20, b: 30, a: 255 };
    let mask = Pixel { r: 229, g: 223, b: 199, a: 255 };
    assert_eq!(apply_mask(photo, mask), Pixel { r: 229, g: 223, b: 199, a: 255 });
}

#[test]
fn transparent_mask_keeps_photo() {
    let photo = Pixel { r: 10, g: 20, b: 30, a: 200 };
    let mask = Pixel { r: 229, g: 223, b: 199, a: 0 };
    assert_eq!(apply_mask(photo, mask), Pixel { r: 10, g: 20, b: 30, a: 255 });
}

#[test]
fn half_mask_interpolates_linearly() {
    // alpha 128: channel = (127 * photo + 128 * mask) / 255, truncated.
    let photo = Pixel { r: 0, g: 255, b: 100, a: 255 };
    let mask = Pixel { r: 255, g: 0, b: 200, a: 128 };
    let out = apply_mask(photo, mask);
    assert_eq!(out.r, (128u32 * 255 / 255) as u8);
    assert_eq!(out.g, (127u32 * 255 / 255) as u8);
    assert_eq!(out.b, ((127u32 * 100 + 128 * 200) / 255) as u8);
    assert_eq!(out.a, 255);
}

#[test]
fn blending_a_colour_over_itself_changes_nothing() {
    let c = Pixel { r: 77, g: 88, b: 99, a: 255 };
    for a in [0u8, 1, 64, 127, 128, 200, 255] {
        let m = Pixel { r: 77, g: 88, b: 99, a };
        assert_eq!(apply_mask(c, m), Pixel { r: 77, g: 88, b: 99, a: 255 });
    }
}

#[test]
fn corner_mask_tile_alphas() {
    let tile = make_corner_mask(50, bg());
    assert_eq!(tile.width, 50);
    assert_eq!(tile.height, 50);
    // The tile origin is deep inside the circle: fully transparent.
    assert_eq!(tile.get(0, 0).a, 0);
    // The far corner is far outside the circle: fully opaque.
    assert_eq!(tile.get(49, 49).a, 255);
    // (30, 40) is at distance exactly 50: half a pixel into the boundary
    // band, so the alpha is 127 of 255.
    assert_eq!(tile.get(30, 40).a, 127);
    assert_eq!(tile.get(40, 30).a, 127);
    // Every tile pixel carries the background colour.
    let p = tile.get(17, 3);
    assert_eq!((p.r, p.g, p.b), (229, 223, 199));
}
