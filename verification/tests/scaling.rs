use wallframe::scale::fit_dims;
use wallframe::compose::CanvasConfig;
use wallframe::pixel::Pixel;
use wallframe::state::{to_path, format_state, parse_state, parse_u64_range, parse_i64_range};

#[test]
fn fit_height_bound() {
    // A 4:3 photo into the stock content box: the height binds and the
    // width is 4000 * 1280/3000 = 1706.67, rounded to nearest.
    let (sw, sh) = fit_dims(4000, 3000, 2460, 1280);
    assert_eq!(sh, 1280);
    assert_eq!(sw, 1707);
    // Aspect is kept within half a pixel of rounding on the derived axis.
    assert!(2 * (sw as i64 * 3000 - 4000 * 1280).abs() <= 4000);
}

#[test]
fn fit_rounds_to_nearest() {
    // 3x2 into a square box: the derived height is 200/3 = 66.67, which
    // rounds up to 67 rather than truncating to 66.
    let (sw, sh) = fit_dims(3, 2, 100, 100);
    assert_eq!((sw, sh), (100, 67));
}

#[test]
fn fit_width_bound() {
    let (sw, sh) = fit_dims(100, 50, 2460, 1280);
    assert_eq!(sw, 2460);
    assert_eq!(sh, 1230);
}

#[test]
fn fit_square_box() {
    let (sw, sh) = fit_dims(10, 10, 7, 7);
    assert_eq!((sw, sh), (7, 7));
}

#[test]
fn default_config_matches_stock_geometry() {
    let cfg = CanvasConfig::default();
    assert_eq!(cfg.canvas_width, 2560);
    assert_eq!(cfg.canvas_height, 1530);
    assert_eq!(cfg.margin, 50);
    assert_eq!(cfg.bottom_extra, 150);
    assert_eq!(cfg.corner_radius, 50);
    assert_eq!(cfg.text_size, 60);
    assert_eq!(cfg.background, Pixel { r: 229, g: 223, b: 199, a: 255 });
}

#[test]
fn to_path_joins_with_separator() {
    let p = to_path("pictures", "rose.jpg");
    assert_eq!(p, "pictures/rose.jpg");
}

#[test]
fn state_round_trip() {
    let bytes = format_state(1696969696, 42);
    assert_eq!(bytes, b"1696969696\n42".to_vec());
    assert_eq!(parse_state(&bytes), Some((1696969696, 42)));
}

#[test]
fn state_round_trip_negative_timestamp() {
    let bytes = format_state(-5, 7);
    assert_eq!(bytes, b"-5\n7".to_vec());
    assert_eq!(parse_state(&bytes), Some((-5, 7)));
}

#[test]
fn state_rejects_malformed() {
    assert_eq!(parse_state(&b"abc".to_vec()), None);
    assert_eq!(parse_state(&b"12".to_vec()), None);
    assert_eq!(parse_state(&b"12\n".to_vec()), None);
    assert_eq!(parse_state(&b"12\nx7".to_vec()), None);
    assert_eq!(parse_state(&b"\n7".to_vec()), None);
}

#[test]
fn state_trims_surrounding_whitespace() {
    assert_eq!(parse_state(&b"\n1696969696\n42\n".to_vec()), Some((1696969696, 42)));
    assert_eq!(parse_state(&b" -5\n7\t".to_vec()), Some((-5, 7)));
    // Whitespace inside the pair is still malformed.
    assert_eq!(parse_state(&b"12\n 7".to_vec()), None);
}

#[test]
fn parse_overflow_is_rejected() {
    let v = b"99999999999999999999".to_vec();
    assert_eq!(parse_u64_range(&v, 0, v.len()), None);
    let w = b"18446744073709551615".to_vec();
    assert_eq!(parse_u64_range(&w, 0, w.len()), Some(u64::MAX));
    let x = b"-9223372036854775808".to_vec();
    assert_eq!(parse_i64_range(&x, 0, x.len()), Some(i64::MIN));
    let y = b"9223372036854775808".to_vec();
    assert_eq!(parse_i64_range(&y, 0, y.len()), None);
}
