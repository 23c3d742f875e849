use wallframe::pixel::Pixel;
use wallframe::text::Glyph;
use wallframe::compose::{compose, CanvasConfig, ComposeError};

fn bg() -> Pixel {
    Pixel { r: 229, g: 223, b: 199, a: 255 }
}

fn block_glyph(min_x: u32, min_y: u32, width: u32, height: u32) -> Glyph {
    Glyph { min_x, min_y, width, height, coverage: vec![255u8; (width * height) as usize] }
}

fn small_config() -> CanvasConfig {
    CanvasConfig {
        canvas_width: 200,
        canvas_height: 200,
        margin: 10,
        bottom_extra: 40,
        corner_radius: 5,
        text_size: 20,
        background: bg(),
    }
}

fn uniform_png(w: u32, h: u32, rgba: [u8; 4]) -> Vec<u8> {
    let img = image::RgbaImage::from_pixel(w, h, image::Rgba(rgba));
    let mut cur = std::io::Cursor::new(Vec::new());
    img.write_to(&mut cur, image::ImageFormat::Png).unwrap();
    cur.into_inner()
}

#[test]
fn rejects_undecodable_bytes() {
    let out = compose(&b"not an image at all".to_vec(), &vec![], &small_config());
    assert_eq!(out.unwrap_err(), ComposeError::DecodeError);
}

#[test]
fn rejects_degenerate_geometry() {
    let src = uniform_png(30, 30, [1, 2, 3, 255]);
    let mut cfg = small_config();
    cfg.bottom_extra = 200;
    let out = compose(&src, &vec![], &cfg);
    assert_eq!(out.unwrap_err(), ComposeError::GeometryError);
}

#[test]
fn corners_fade_and_match_under_reflection() {
    // A uniform photo: the four corner treatments must leave identical
    // colours at reflected positions, and the extreme corners are exactly
    // the background.
    let src = uniform_png(180, 140, [50, 60, 70, 255]);
    let out = compose(&src, &vec![], &small_config()).unwrap();
    let img = image::load_from_memory(&out).unwrap().to_rgba8();
    assert_eq!(img.dimensions(), (200, 200));
    // The photo sits at (10, 10)..(190, 150).
    assert_eq!(img.get_pixel(100, 80).0, [50, 60, 70, 255]);
    // Extreme corners: mask alpha 255, so exactly the background.
    for (x, y) in [(10u32, 10u32), (189, 10), (10, 149), (189, 149)] {
        assert_eq!(img.get_pixel(x, y).0, [229, 223, 199, 255], "corner at ({x},{y})");
    }
    // Reflected positions inside the rounded corners agree channel for
    // channel.
    for dx in 0..5u32 {
        for dy in 0..5u32 {
            let tl = img.get_pixel(10 + dx, 10 + dy).0;
            let tr = img.get_pixel(189 - dx, 10 + dy).0;
            let bl = img.get_pixel(10 + dx, 149 - dy).0;
            let br = img.get_pixel(189 - dx, 149 - dy).0;
            assert_eq!(tl, tr);
            assert_eq!(tl, bl);
            assert_eq!(tl, br);
        }
    }
    // Just inside the corner radius the photo is untouched.
    assert_eq!(img.get_pixel(10 + 5, 10 + 5).0, [50, 60, 70, 255]);
}

#[test]
fn source_transparency_is_flattened_opaque() {
    // A fully transparent source: its colour channels are kept, its
    // alpha is never persisted.
    let src = uniform_png(180, 140, [10, 20, 30, 0]);
    let out = compose(&src, &vec![], &small_config()).unwrap();
    let img = image::load_from_memory(&out).unwrap().to_rgba8();
    assert_eq!(img.get_pixel(100, 80).0, [10, 20, 30, 255]);
}

#[test]
fn rejects_translucent_background() {
    let src = uniform_png(30, 30, [1, 2, 3, 255]);
    let mut cfg = small_config();
    cfg.background = Pixel { r: 229, g: 223, b: 199, a: 200 };
    let out = compose(&src, &vec![], &cfg);
    assert_eq!(out.unwrap_err(), ComposeError::GeometryError);
}

#[test]
fn composition_is_deterministic() {
    let src = uniform_png(180, 140, [120, 10, 200, 255]);
    let glyphs1 = vec![block_glyph(0, 3, 12, 10)];
    let glyphs2 = vec![block_glyph(0, 3, 12, 10)];
    let cfg = small_config();
    let a = compose(&src, &glyphs1, &cfg).unwrap();
    let b = compose(&src, &glyphs2, &cfg).unwrap();
    assert_eq!(a, b);
}

#[test]
fn downscaling_keeps_a_uniform_photo_uniform() {
    // Forces a real resample (360x280 down to 180x140) through the
    // Lanczos path.
    let src = uniform_png(360, 280, [90, 120, 150, 255]);
    let out = compose(&src, &vec![], &small_config()).unwrap();
    let img = image::load_from_memory(&out).unwrap().to_rgba8();
    let p = img.get_pixel(100, 80).0;
    for c in 0..3 {
        assert!((p[c] as i32 - [90, 120, 150][c]).abs() <= 1, "channel {c} was {}", p[c]);
    }
}

#[test]
fn end_to_end_stock_wallpaper() {
    // A 4000x3000 JPEG on the stock 2560x1530 canvas with a caption.
    let photo = image::RgbImage::from_pixel(4000, 3000, image::Rgb([128, 128, 128]));
    let mut cur = std::io::Cursor::new(Vec::new());
    photo.write_to(&mut cur, image::ImageFormat::Jpeg).unwrap();
    let src = cur.into_inner();
    // Four crude letter blocks standing in for the caption's glyphs.
    let glyphs = vec![
        block_glyph(0, 10, 20, 40),
        block_glyph(30, 10, 20, 40),
        block_glyph(60, 10, 20, 40),
        block_glyph(90, 10, 20, 40),
    ];
    let cfg = CanvasConfig::default();
    let out = compose(&src, &glyphs, &cfg).unwrap();
    let img = image::load_from_memory(&out).unwrap().to_rgba8();
    assert_eq!(img.dimensions(), (2560, 1530));
    // Fully opaque output.
    for p in img.pixels() {
        assert_eq!(p.0[3], 255);
    }
    // The photo scales to 1707x1280 (the width rounds to nearest) and
    // sits at (426, 50); its extreme top-left corner fades all the way
    // to the off-white background.
    assert_eq!(img.get_pixel(426, 50).0, [229, 223, 199, 255]);
    // Deep inside the corner radius the photo shows (mid grey, within
    // JPEG tolerance).
    let p = img.get_pixel(426 + 50, 50 + 50).0;
    for c in 0..3 {
        assert!((p[c] as i32 - 128).abs() <= 3);
    }
    // Outside the photo the canvas is background.
    assert_eq!(img.get_pixel(5, 5).0, [229, 223, 199, 255]);
    // A block of black caption pixels sits below the photo, above the
    // bottom edge, centred on its ink extent (maxX = 109).
    let ty = 50 + 1280 + 25;
    let tx = (2560 - 109) / 2;
    assert_eq!(img.get_pixel(tx, ty + 10).0, [0, 0, 0, 255]);
    assert_eq!(img.get_pixel(tx - 1, ty + 10).0, [229, 223, 199, 255]);
    let mut found_black = false;
    for y in ty..(ty + 60) {
        for x in 0..2560 {
            if img.get_pixel(x, y).0 == [0, 0, 0, 255] {
                found_black = true;
            }
        }
    }
    assert!(found_black);
}
