use txtr::encoder::{Encoder, SCALE};
use txtr::invert::{from_bytes, invert, to_bytes};
use txtr::raster::{Pixel, RasterImage};
use txtr::txtr::Txtr;

#[test]
fn invert_mirrors_colour_and_keeps_alpha() {
    let img = RasterImage::new(
        2,
        1,
        vec![Pixel { r: 0, g: 10, b: 255, a: 7 }, Pixel { r: 200, g: 128, b: 1, a: 255 }],
    )
    .unwrap();
    let out = invert(&img);
    assert_eq!(out.width, 2);
    assert_eq!(out.height, 1);
    assert_eq!(
        out.pixels,
        vec![Pixel { r: 255, g: 245, b: 0, a: 7 }, Pixel { r: 55, g: 127, b: 254, a: 255 }]
    );
}

#[test]
fn invert_twice_gives_the_image_back() {
    let pixels: Vec<Pixel> = (0..12u8)
        .map(|i| Pixel { r: i * 20, g: 255 - i, b: i, a: i * 3 })
        .collect();
    let img = RasterImage::new(4, 3, pixels.clone()).unwrap();
    assert_eq!(invert(&invert(&img)).pixels, pixels);
    assert_ne!(invert(&img).pixels, pixels);
}

#[test]
fn invert_of_an_empty_image() {
    let img = RasterImage::new(0, 0, vec![]).unwrap();
    assert!(invert(&img).pixels.is_empty());
    let no_rows = RasterImage::new(0x4000_0000, 0, vec![]).unwrap();
    let out = invert(&no_rows);
    assert_eq!((out.width, out.height), (0x4000_0000, 0));
    assert!(out.pixels.is_empty());
    let no_columns = RasterImage::new(0, 7, vec![]).unwrap();
    let out = invert(&no_columns);
    assert_eq!((out.width, out.height), (0, 7));
    assert!(out.pixels.is_empty());
}

#[test]
fn invert_of_one_pixel() {
    let img = RasterImage::new(1, 1, vec![Pixel { r: 1, g: 2, b: 3, a: 4 }]).unwrap();
    assert_eq!(invert(&img).pixels, vec![Pixel { r: 254, g: 253, b: 252, a: 4 }]);
}

#[test]
fn bytes_run_red_green_blue_alpha() {
    let pixels = vec![Pixel { r: 1, g: 2, b: 3, a: 4 }, Pixel { r: 5, g: 6, b: 7, a: 8 }];
    assert_eq!(to_bytes(&pixels), vec![1, 2, 3, 4, 5, 6, 7, 8]);
    assert_eq!(from_bytes(&vec![1, 2, 3, 4, 5, 6, 7, 8]), pixels);
    assert!(from_bytes(&vec![]).is_empty());
    assert_eq!(from_bytes(&vec![1, 2, 3, 4, 5, 6]), vec![Pixel { r: 1, g: 2, b: 3, a: 4 }]);
    assert!(from_bytes(&vec![1, 2, 3]).is_empty());
}

#[test]
fn converter_inverts_its_image() {
    let black = Pixel { r: 0, g: 0, b: 0, a: 9 };
    let white = Pixel { r: 255, g: 255, b: 255, a: 9 };
    let img = RasterImage::new(1, 2, vec![black, white]).unwrap();
    let mut art = Txtr::new(img, Encoder::Luma709, SCALE, SCALE, SCALE);
    art.calc_levels();
    assert_eq!(art.print_by_level("ab"), "a\nb\n");
    art.invert();
    assert_eq!(art.img.pixels[0], Pixel { r: 255, g: 255, b: 255, a: 9 });
    assert_eq!(art.print_by_level("ab"), "a\nb\n");
    art.calc_levels();
    assert_eq!(art.print_by_level("ab"), "b\na\n");
}
