use wallframe::pixel::Pixel;
use wallframe::text::{Glyph, render_caption_strip};
use wallframe::compose::{compose, CanvasConfig};

fn bg() -> Pixel {
    Pixel { r: 229, g: 223, b: 199, a: 255 }
}

fn block_glyph(min_x: u32, min_y: u32, width: u32, height: u32) -> Glyph {
    Glyph { min_x, min_y, width, height, coverage: vec![255u8; (width * height) as usize] }
}

fn small_config() -> CanvasConfig {
    CanvasConfig {
        canvas_width: 200,
        canvas_height: 200,
        margin: 10,
        bottom_extra: 40,
        corner_radius: 5,
        text_size: 20,
        background: bg(),
    }
}

fn uniform_png(w: u32, h: u32, rgba: [u8; 4]) -> Vec<u8> {
    let img = image::RgbaImage::from_pixel(w, h, image::Rgba(rgba));
    let mut cur = std::io::Cursor::new(Vec::new());
    img.write_to(&mut cur, image::ImageFormat::Png).unwrap();
    cur.into_inner()
}

#[test]
fn ink_extent_tracks_rightmost_painted_column() {
    let glyphs = vec![block_glyph(5, 2, 3, 3)];
    let (strip, mx) = render_caption_strip(&glyphs, 100, 20, bg());
    assert_eq!(mx, 7);
    assert_eq!(strip.get(5, 2), Pixel { r: 0, g: 0, b: 0, a: 255 });
    assert_eq!(strip.get(4, 2), bg());
    assert_eq!(strip.get(5, 1), bg());
}

#[test]
fn low_coverage_paints_nothing() {
    let g = Glyph { min_x: 5, min_y: 2, width: 3, height: 3, coverage: vec![100u8; 9] };
    let (strip, mx) = render_caption_strip(&vec![g], 100, 20, bg());
    assert_eq!(mx, 0);
    assert_eq!(strip.get(5, 2), bg());
}

#[test]
fn glyphs_are_clipped_to_the_strip() {
    let glyphs = vec![block_glyph(98, 0, 5, 2)];
    let (strip, mx) = render_caption_strip(&glyphs, 100, 20, bg());
    assert_eq!(mx, 99);
    assert_eq!(strip.get(99, 0), Pixel { r: 0, g: 0, b: 0, a: 255 });
}

fn caption_left_edge(caption_cols: u32) -> u32 {
    // One full-coverage block glyph whose ink spans columns 0..=caption_cols.
    let cfg = small_config();
    let src = uniform_png(180, 140, [50, 60, 70, 255]);
    let glyphs = vec![block_glyph(0, 3, caption_cols + 1, 10)];
    let out = compose(&src, &glyphs, &cfg).unwrap();
    let img = image::load_from_memory(&out).unwrap().to_rgba8();
    // The caption strip lands at rows 155..175; find the leftmost black
    // pixel there.
    let mut left = u32::MAX;
    for y in 155..175 {
        for x in 0..200 {
            if img.get_pixel(x, y).0 == [0, 0, 0, 255] && x < left {
                left = x;
            }
        }
    }
    left
}

#[test]
fn caption_is_centred_on_its_ink_extent() {
    // Ink spans maxX = 9 columns; only columns 0..9 of the strip are
    // copied, at (canvasW - maxX) / 2.
    assert_eq!(caption_left_edge(9), (200 - 9) / 2);
    // A longer caption of 19 columns still starts at (canvasW - maxX) / 2.
    assert_eq!(caption_left_edge(19), (200 - 19) / 2);
}
