use txtr::encoder::{Encoder, Weights};
use txtr::field::{build, LevelField, Slot};
use txtr::raster::{Pixel, RasterImage, Rgb};
use txtr::render::{render_blocks, render_by_level, render_in_order, HALF_BLOCK};
use txtr::text::{chars_of, same_chars};

fn gray(v: u8) -> Pixel {
    Pixel { r: v, g: v, b: v, a: 255 }
}

fn image(width: usize, height: usize, values: &[u8]) -> RasterImage {
    RasterImage::new(width, height, values.iter().map(|v| gray(*v)).collect()).unwrap()
}

fn field_of(width: usize, height: usize, values: &[u8], colored: bool) -> LevelField {
    build(&image(width, height, values), Encoder::Luma709, Weights::full(), colored)
}

#[test]
fn render_by_level_black_and_white() {
    let img = RasterImage::new(
        2,
        1,
        vec![Pixel { r: 0, g: 0, b: 0, a: 255 }, Pixel { r: 255, g: 255, b: 255, a: 255 }],
    )
    .unwrap();
    let field = build(&img, Encoder::Luma709, Weights::full(), false);
    assert_eq!(render_by_level(&field, "ab"), "ab\n");
}

#[test]
fn render_by_level_buckets() {
    // range 0..=255 over 4 glyphs: buckets of 255 / 4 + 1 = 64 levels
    let field = field_of(6, 1, &[0, 63, 64, 128, 192, 255], false);
    assert_eq!(render_by_level(&field, "abcd"), "aabcdd\n");
}

#[test]
fn render_by_level_counts_from_the_lowest_level() {
    // range 100..=103 over 2 glyphs: buckets of 3 / 2 + 1 = 2 levels
    let field = field_of(4, 1, &[100, 101, 102, 103], false);
    assert_eq!(render_by_level(&field, "ab"), "aabb\n");
}

#[test]
fn render_by_level_top_glyph_can_be_out_of_reach() {
    // range 0..=4 over 3 glyphs: buckets of 4 / 3 + 1 = 2 levels
    let field = field_of(5, 1, &[0, 1, 2, 3, 4], false);
    assert_eq!(render_by_level(&field, "abc"), "aabbc\n");
    // range 0..=3 over 3 glyphs: buckets of 2, the last glyph is never used
    let short = field_of(4, 1, &[0, 1, 2, 3], false);
    assert_eq!(render_by_level(&short, "abc"), "aabb\n");
}

#[test]
fn render_by_level_flat_range_uses_the_first_glyph() {
    let field = field_of(3, 2, &[80; 6], false);
    assert_eq!(render_by_level(&field, "xyz"), "xxx\nxxx\n");
}

#[test]
fn render_by_level_levels_outside_the_range() {
    let field = LevelField {
        slots: vec![
            Slot::Pixel { level: 5, color: None },
            Slot::Pixel { level: 500, color: None },
            Slot::RowEnd,
        ],
        width: 2,
        height: 1,
        min: 10,
        max: 20,
        colored: false,
    };
    assert_eq!(render_by_level(&field, "abc"), "ac\n");
}

#[test]
fn render_by_level_with_colour() {
    let img = RasterImage::new(
        2,
        1,
        vec![Pixel { r: 0, g: 0, b: 0, a: 255 }, Pixel { r: 255, g: 128, b: 7, a: 255 }],
    )
    .unwrap();
    let field = build(&img, Encoder::Red, Weights::full(), true);
    assert_eq!(
        render_by_level(&field, "ab"),
        "\x1b[38;2;0;0;0ma\x1b[38;2;255;128;7mb\x1b[0m\n\x1b[0m"
    );
}

#[test]
fn render_by_level_many_rows() {
    let field = field_of(2, 3, &[0, 255, 255, 0, 0, 0], false);
    assert_eq!(render_by_level(&field, ".#"), ".#\n#.\n..\n");
}

#[test]
fn render_by_level_wide_glyphs() {
    let field = field_of(2, 1, &[0, 255], false);
    assert_eq!(render_by_level(&field, "\u{2591}\u{2588}"), "\u{2591}\u{2588}\n");
}

#[test]
fn render_in_order_cycles_through_the_glyphs() {
    let field = field_of(3, 1, &[255, 255, 255], false);
    assert_eq!(render_in_order(&field, "ab", 0), "aba\n");
}

#[test]
fn render_in_order_skips_dark_pixels() {
    let field = field_of(3, 1, &[255, 0, 255], false);
    assert_eq!(render_in_order(&field, "ab", 100), "a b\n");
}

#[test]
fn render_in_order_threshold_is_strict() {
    let field = field_of(3, 1, &[100, 101, 99], false);
    assert_eq!(render_in_order(&field, "ab", 100), " a \n");
}

#[test]
fn render_in_order_runs_on_across_rows() {
    let field = field_of(2, 3, &[255, 255, 0, 255, 255, 255], false);
    assert_eq!(render_in_order(&field, "abc", 127), "ab\n c\nab\n");
}

#[test]
fn render_in_order_with_colour() {
    let img = RasterImage::new(
        2,
        1,
        vec![Pixel { r: 9, g: 0, b: 0, a: 255 }, Pixel { r: 200, g: 100, b: 50, a: 255 }],
    )
    .unwrap();
    let field = build(&img, Encoder::Red, Weights::full(), true);
    assert_eq!(render_in_order(&field, "ab", 10), " \x1b[38;2;200;100;50ma\x1b[0m\n");
}

#[test]
fn render_blocks_odd_height_gives_two_lines() {
    let field = field_of(2, 3, &[1, 2, 3, 4, 5, 6], true);
    let text = render_blocks(&field);
    assert_eq!(text.lines().count(), 2);
    assert_eq!(text.matches('\n').count(), 2);
    assert_eq!(
        text,
        "\x1b[38;2;1;1;1m\x1b[48;2;3;3;3m\u{2580}\x1b[38;2;2;2;2m\x1b[48;2;4;4;4m\u{2580}\x1b[0m\n\
         \x1b[38;2;5;5;5m\x1b[48;2;5;5;5m\u{2580}\x1b[38;2;6;6;6m\x1b[48;2;6;6;6m\u{2580}\x1b[0m\n"
    );
}

#[test]
fn render_blocks_without_colour_has_no_escapes() {
    let field = field_of(2, 3, &[1, 2, 3, 4, 5, 6], false);
    let text = render_blocks(&field);
    assert!(!text.contains('\x1b'));
    assert_eq!(text, "\u{2580}\u{2580}\n\u{2580}\u{2580}\n");
    assert_eq!(text.chars().filter(|c| *c == HALF_BLOCK).count(), 4);
}

#[test]
fn render_blocks_even_height() {
    let field = field_of(1, 4, &[10, 20, 30, 40], true);
    assert_eq!(
        render_blocks(&field),
        "\x1b[38;2;10;10;10m\x1b[48;2;20;20;20m\u{2580}\x1b[0m\n\
         \x1b[38;2;30;30;30m\x1b[48;2;40;40;40m\u{2580}\x1b[0m\n"
    );
}

#[test]
fn render_blocks_missing_colour_is_black() {
    let field = LevelField {
        slots: vec![
            Slot::Pixel { level: 1, color: None },
            Slot::RowEnd,
            Slot::Pixel { level: 1, color: Some(Rgb { r: 1, g: 2, b: 3 }) },
            Slot::RowEnd,
        ],
        width: 1,
        height: 2,
        min: 1,
        max: 1,
        colored: true,
    };
    assert_eq!(render_blocks(&field), "\x1b[38;2;0;0;0m\x1b[48;2;1;2;3m\u{2580}\x1b[0m\n");
}

#[test]
fn render_blocks_of_nothing_is_empty() {
    let img = RasterImage::new(0, 0, vec![]).unwrap();
    let field = build(&img, Encoder::Red, Weights::full(), true);
    assert_eq!(render_blocks(&field), "");
}

#[test]
fn rendering_twice_gives_the_same_text() {
    let values: Vec<u8> = (0..48).map(|i| ((i * 53) % 256) as u8).collect();
    let img = image(8, 6, &values);
    let run = |colored: bool| {
        let field = build(&img, Encoder::Luma601, Weights::new(900_000, 1_000_000, 300_000), colored);
        (
            render_by_level(&field, " .:-=+*#%@"),
            render_in_order(&field, "txtr", 60),
            render_blocks(&field),
        )
    };
    assert_eq!(run(false), run(false));
    assert_eq!(run(true), run(true));
}

#[test]
fn chars_helpers() {
    assert_eq!(chars_of("a\u{2580}b"), vec!['a', '\u{2580}', 'b']);
    assert!(same_chars(&vec!['a', 'b'], &vec!['a', 'b']));
    assert!(!same_chars(&vec!['a', 'b'], &vec!['a', 'c']));
    assert!(!same_chars(&vec!['a'], &vec!['a', 'b']));
}

#[test]
fn render_blocks_line_and_glyph_counts() {
    for (width, height) in [(1usize, 1usize), (3, 3), (4, 2), (2, 5), (5, 0), (0, 3)] {
        let values = vec![9u8; width * height];
        for colored in [false, true] {
            let text = render_blocks(&field_of(width, height, &values, colored));
            assert_eq!(text.matches('\n').count(), (height + 1) / 2);
            assert_eq!(text.matches(HALF_BLOCK).count(), width * ((height + 1) / 2));
            assert_eq!(text.contains('\x1b'), colored && height > 0);
        }
    }
}
