use txtr::encoder::{Encoder, Weights};
use txtr::field::{assemble, build, build_with, extent, raw_levels, LevelField, Slot};
use txtr::raster::{Pixel, RasterImage, Rgb};

fn gray(v: u8) -> Pixel {
    Pixel { r: v, g: v, b: v, a: 255 }
}

fn image(width: usize, height: usize, values: &[u8]) -> RasterImage {
    RasterImage::new(width, height, values.iter().map(|v| gray(*v)).collect()).unwrap()
}

fn count_row_ends(field: &LevelField) -> usize {
    field.slots.iter().filter(|s| matches!(s, Slot::RowEnd)).count()
}

#[test]
fn raster_image_checks_its_size() {
    assert!(RasterImage::new(2, 2, vec![gray(0); 4]).is_some());
    assert!(RasterImage::new(2, 2, vec![gray(0); 3]).is_none());
    assert!(RasterImage::new(2, 2, vec![gray(0); 5]).is_none());
    assert!(RasterImage::new(0, 0, vec![]).is_some());
    assert!(RasterImage::new(usize::MAX, 2, vec![]).is_none());
    assert!(RasterImage::new(usize::MAX, 1, vec![]).is_none());
}

#[test]
fn raster_image_reads_row_major() {
    let img = image(3, 2, &[1, 2, 3, 4, 5, 6]);
    assert_eq!(img.width(), 3);
    assert_eq!(img.height(), 2);
    assert_eq!(img.pixel(0, 0), gray(1));
    assert_eq!(img.pixel(2, 0), gray(3));
    assert_eq!(img.pixel(0, 1), gray(4));
    assert_eq!(img.pixel(2, 1), gray(6));
    assert_eq!(gray(7).color(), Rgb { r: 7, g: 7, b: 7 });
}

#[test]
fn field_has_one_slot_per_pixel_and_one_per_row() {
    let img = image(3, 2, &[10, 20, 30, 40, 50, 60]);
    let field = build(&img, Encoder::Red, Weights::full(), false);
    assert_eq!(field.slots.len(), 3 * 2 + 2);
    assert_eq!(count_row_ends(&field), 2);
    assert_eq!(field.width, 3);
    assert_eq!(field.height, 2);
    assert!(!field.colored);
    let level = |l: usize| Slot::Pixel { level: l, color: None };
    assert_eq!(
        field.slots,
        vec![
            level(10),
            level(20),
            level(30),
            Slot::RowEnd,
            level(40),
            level(50),
            level(60),
            Slot::RowEnd
        ]
    );
}

#[test]
fn field_range_is_the_lowest_and_highest_level() {
    let img = image(3, 2, &[10, 20, 30, 40, 50, 60]);
    let field = build(&img, Encoder::Red, Weights::full(), false);
    assert_eq!(field.min, 10);
    assert_eq!(field.max, 60);
    assert!(field.min <= field.max);
}

#[test]
fn uniform_image_has_equal_min_and_max() {
    let img = image(4, 3, &[77; 12]);
    let field = build(&img, Encoder::Luma601, Weights::full(), false);
    assert_eq!(field.min, field.max);
    assert_eq!(field.min, 77);
}

#[test]
fn all_black_image_gets_the_full_range() {
    let img = image(2, 2, &[0; 4]);
    let field = build(&img, Encoder::Luma709, Weights::full(), false);
    assert_eq!(field.min, 0);
    assert_eq!(field.max, 255);
}

#[test]
fn one_by_one_image() {
    let img = image(1, 1, &[200]);
    let field = build(&img, Encoder::Green, Weights::full(), false);
    assert_eq!(field.slots, vec![Slot::Pixel { level: 200, color: None }, Slot::RowEnd]);
    assert_eq!((field.min, field.max), (200, 200));
}

#[test]
fn empty_image_has_an_empty_field() {
    let img = RasterImage::new(0, 0, vec![]).unwrap();
    let field = build(&img, Encoder::Red, Weights::full(), true);
    assert!(field.slots.is_empty());
    assert_eq!((field.min, field.max), (0, 255));
}

#[test]
fn colour_is_kept_only_when_asked_for() {
    let img =
        RasterImage::new(2, 1, vec![Pixel { r: 1, g: 2, b: 3, a: 4 }, Pixel { r: 5, g: 6, b: 7, a: 8 }])
            .unwrap();
    let with = build(&img, Encoder::Alpha, Weights::full(), true);
    assert!(with.colored);
    assert_eq!(
        with.slots,
        vec![
            Slot::Pixel { level: 4, color: Some(Rgb { r: 1, g: 2, b: 3 }) },
            Slot::Pixel { level: 8, color: Some(Rgb { r: 5, g: 6, b: 7 }) },
            Slot::RowEnd
        ]
    );
    let without = build(&img, Encoder::Alpha, Weights::full(), false);
    assert_eq!(
        without.slots,
        vec![
            Slot::Pixel { level: 4, color: None },
            Slot::Pixel { level: 8, color: None },
            Slot::RowEnd
        ]
    );
}

#[test]
fn raw_levels_and_extent() {
    let img = image(2, 2, &[9, 3, 200, 4]);
    let levels = raw_levels(&img, Encoder::Blue, Weights::full());
    assert_eq!(levels, vec![9, 3, 200, 4]);
    assert_eq!(extent(&levels), (3, 200));
    assert_eq!(extent(&vec![]), (0, 255));
    assert_eq!(extent(&vec![0, 0]), (0, 255));
    assert_eq!(extent(&vec![5]), (5, 5));
}

#[test]
fn assemble_lays_levels_out_by_rows() {
    let img = image(1, 3, &[0, 0, 0]);
    let field = assemble(&img, &vec![7, 8, 9], 7, 9, false);
    let level = |l: usize| Slot::Pixel { level: l, color: None };
    assert_eq!(
        field.slots,
        vec![level(7), Slot::RowEnd, level(8), Slot::RowEnd, level(9), Slot::RowEnd]
    );
    assert_eq!((field.min, field.max), (7, 9));
}

#[test]
fn build_with_dithers_the_levels_but_keeps_the_range() {
    let img = image(2, 2, &[0, 100, 110, 255]);
    let field = build_with(&img, Encoder::Red, Weights::full(), false, true, 2);
    let level = |l: usize| Slot::Pixel { level: l, color: None };
    assert_eq!(
        field.slots,
        vec![level(0), level(0), Slot::RowEnd, level(255), level(255), Slot::RowEnd]
    );
    assert_eq!((field.min, field.max), (0, 255));
    let plain = build_with(&img, Encoder::Red, Weights::full(), false, false, 2);
    assert_eq!(plain.slots, build(&img, Encoder::Red, Weights::full(), false).slots);
}

#[test]
fn build_with_leaves_a_uniform_image_alone() {
    let img = image(3, 2, &[90; 6]);
    let dithered = build_with(&img, Encoder::Red, Weights::full(), false, true, 4);
    let plain = build(&img, Encoder::Red, Weights::full(), false);
    assert_eq!(dithered.slots, plain.slots);
    assert_eq!((dithered.min, dithered.max), (90, 90));
}
