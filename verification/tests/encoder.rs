use txtr::encoder::{
    alpha, blue, green, luma601, luma709, pixel_level, recognized, red, select, warning, Encoder,
    Weights, SAMPLE_MAX, SCALE,
};
use txtr::raster::Pixel;

#[test]
fn luma709_of_pure_red_is_54() {
    assert_eq!(luma709(255 * SCALE, 0, 0, 0), 54);
    assert_eq!(luma709(255 * SCALE, 0, 0, 255 * SCALE), 54);
}

#[test]
fn luma601_of_pure_green_is_149() {
    assert_eq!(luma601(0, 255 * SCALE, 0, 0), 149);
    assert_eq!(luma601(0, 255 * SCALE, 0, 255 * SCALE), 149);
}

#[test]
fn luma_of_white_is_255() {
    assert_eq!(luma601(SAMPLE_MAX, SAMPLE_MAX, SAMPLE_MAX, 0), 255);
    assert_eq!(luma709(SAMPLE_MAX, SAMPLE_MAX, SAMPLE_MAX, 0), 255);
}

#[test]
fn luma_is_cut_off_not_rounded() {
    // 0.0722 * 255 = 18.411 and 0.114 * 255 = 29.07
    assert_eq!(luma709(0, 0, 255 * SCALE, 0), 18);
    assert_eq!(luma601(0, 0, 255 * SCALE, 0), 29);
    // 0.7152 * 255 = 182.376 and 0.299 * 255 = 76.245
    assert_eq!(luma709(0, 255 * SCALE, 0, 0), 182);
    assert_eq!(luma601(255 * SCALE, 0, 0, 0), 76);
}

#[test]
fn single_channels_pick_their_sample() {
    let (r, g, b, a) = (10 * SCALE, 20 * SCALE, 30 * SCALE, 40 * SCALE);
    assert_eq!(red(r, g, b, a), 10);
    assert_eq!(green(r, g, b, a), 20);
    assert_eq!(blue(r, g, b, a), 30);
    assert_eq!(alpha(r, g, b, a), 40);
}

#[test]
fn fractions_of_a_level_are_dropped() {
    assert_eq!(red(10 * SCALE + 999_999, 0, 0, 0), 10);
    assert_eq!(red(999_999, 0, 0, 0), 0);
}

#[test]
fn select_knows_the_six_names() {
    assert_eq!(select("red"), Encoder::Red);
    assert_eq!(select("green"), Encoder::Green);
    assert_eq!(select("blue"), Encoder::Blue);
    assert_eq!(select("alpha"), Encoder::Alpha);
    assert_eq!(select("luma601"), Encoder::Luma601);
    assert_eq!(select("luma709"), Encoder::Luma709);
}

#[test]
fn unknown_name_falls_back_to_luma709() {
    assert_eq!(select("invalid_encoder"), Encoder::Luma709);
    assert_eq!(select(""), Encoder::Luma709);
    assert_eq!(select("luma_601"), Encoder::Luma709);
    let fallback = select("no such encoder");
    let named = select("luma709");
    for (r, g, b) in [(255u64, 0u64, 0u64), (0, 255, 0), (12, 200, 99), (255, 255, 255)] {
        assert_eq!(
            fallback.level(r * SCALE, g * SCALE, b * SCALE, 0),
            named.level(r * SCALE, g * SCALE, b * SCALE, 0)
        );
        assert_eq!(
            fallback.level(r * SCALE, g * SCALE, b * SCALE, 0),
            luma709(r * SCALE, g * SCALE, b * SCALE, 0)
        );
    }
}

#[test]
fn names_are_case_sensitive() {
    assert_eq!(select("RED"), Encoder::Luma709);
    assert_eq!(select("Red"), Encoder::Luma709);
    assert!(!recognized("RED"));
    assert!(recognized("red"));
}

#[test]
fn recognized_tells_known_names_from_others() {
    for name in ["red", "green", "blue", "alpha", "luma601", "luma709"] {
        assert!(recognized(name));
    }
    for name in ["", "luma", "luma_601", "redd", "re", "invalid_encoder"] {
        assert!(!recognized(name));
    }
}

#[test]
fn encoder_level_dispatches_on_the_variant() {
    let (r, g, b, a) = (10 * SCALE, 20 * SCALE, 30 * SCALE, 40 * SCALE);
    assert_eq!(Encoder::Red.level(r, g, b, a), 10);
    assert_eq!(Encoder::Green.level(r, g, b, a), 20);
    assert_eq!(Encoder::Blue.level(r, g, b, a), 30);
    assert_eq!(Encoder::Alpha.level(r, g, b, a), 40);
    // 0.299 * 10 + 0.587 * 20 + 0.114 * 30 = 18.15
    assert_eq!(Encoder::Luma601.level(r, g, b, a), 18);
    // 0.2126 * 10 + 0.7152 * 20 + 0.0722 * 30 = 18.596
    assert_eq!(Encoder::Luma709.level(r, g, b, a), 18);
}

#[test]
fn weights_are_clamped_to_one() {
    let w = Weights::new(2_000_000, 500_000, 0);
    assert_eq!(w.red, SCALE);
    assert_eq!(w.green, 500_000);
    assert_eq!(w.blue, 0);
    let f = Weights::full();
    assert_eq!((f.red, f.green, f.blue), (SCALE, SCALE, SCALE));
}

#[test]
fn weights_scale_colour_but_not_alpha() {
    let p = Pixel { r: 200, g: 100, b: 50, a: 80 };
    let half = Weights::new(500_000, 500_000, 500_000);
    assert_eq!(pixel_level(Encoder::Red, half, p), 100);
    assert_eq!(pixel_level(Encoder::Green, half, p), 50);
    assert_eq!(pixel_level(Encoder::Blue, half, p), 25);
    assert_eq!(pixel_level(Encoder::Alpha, half, p), 80);
    let none = Weights::new(0, 0, 0);
    assert_eq!(pixel_level(Encoder::Luma709, none, p), 0);
    assert_eq!(pixel_level(Encoder::Alpha, none, p), 80);
}

#[test]
fn unknown_name_gets_a_warning() {
    let text = warning("invalid_encoder").unwrap();
    assert_eq!(text, "unknown encoder 'invalid_encoder', using luma709");
    assert!(text.contains("unknown encoder"));
    assert!(text.contains("luma709"));
    assert_eq!(warning("RED").unwrap(), "unknown encoder 'RED', using luma709");
    assert_eq!(warning("").unwrap(), "unknown encoder '', using luma709");
    assert_eq!(warning("luma_601").unwrap(), "unknown encoder 'luma_601', using luma709");
}

#[test]
fn known_names_get_no_warning() {
    for name in ["red", "green", "blue", "alpha", "luma601", "luma709"] {
        assert_eq!(warning(name), None);
    }
}
