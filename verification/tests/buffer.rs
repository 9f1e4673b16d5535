use pixelsynth::{fractal, generate, Color, PixelBuffer, StripeOrientation};
use std::io::Cursor;

#[test]
fn raw_bytes_run_row_after_row() {
    let colors: Vec<Color> = vec![
        Color { red: 1, green: 2, blue: 3 },
        Color { red: 4, green: 5, blue: 6 },
    ];
    let buffer = generate(2, 2, &colors, StripeOrientation::Vertical).unwrap();
    assert_eq!(buffer.into_raw(), vec![1, 2, 3, 4, 5, 6, 1, 2, 3, 4, 5, 6]);
    let buffer = generate(2, 2, &colors, StripeOrientation::Horizontal).unwrap();
    assert_eq!(buffer.into_raw(), vec![1, 2, 3, 1, 2, 3, 4, 5, 6, 4, 5, 6]);
}

#[test]
fn raw_bytes_of_a_wide_image() {
    let counts: Vec<u8> = vec![7, 8, 9];
    let buffer = fractal(3, 1, &counts).unwrap();
    assert_eq!(buffer.into_raw(), vec![0, 7, 0, 0, 8, 0, 0, 9, 0]);
    let buffer = fractal(1, 3, &counts).unwrap();
    assert_eq!(buffer.into_raw(), vec![0, 7, 0, 0, 8, 0, 0, 9, 0]);
}

#[test]
fn size_is_as_requested() {
    let colors: Vec<Color> = vec![Color { red: 9, green: 9, blue: 9 }];
    let buffer = generate(7, 3, &colors, StripeOrientation::Vertical).unwrap();
    assert_eq!(buffer.width(), 7);
    assert_eq!(buffer.height(), 3);
    assert_eq!(buffer.into_raw().len(), 63);
}

#[test]
fn stripes_survive_png_encoding() {
    let colors: Vec<Color> = vec![
        Color { red: 255, green: 0, blue: 0 },
        Color { red: 0, green: 255, blue: 0 },
        Color { red: 10, green: 20, blue: 30 },
    ];
    let width: u32 = 11;
    let height: u32 = 5;
    let buffer = generate(width, height, &colors, StripeOrientation::Vertical).unwrap();
    let raw: Vec<u8> = buffer.into_raw();
    let picture = image::RgbImage::from_raw(width, height, raw.clone()).unwrap();
    let mut encoded: Vec<u8> = Vec::new();
    picture.write_to(&mut Cursor::new(&mut encoded), image::ImageOutputFormat::Png).unwrap();
    let decoded = image::load_from_memory(&encoded).unwrap().into_rgb8();
    assert_eq!(decoded.dimensions(), (width, height));
    assert_eq!(decoded.into_raw(), raw);
}

#[test]
fn a_fractal_image_survives_png_encoding() {
    let width: u32 = 16;
    let height: u32 = 12;
    let counts: Vec<u8> = (0..width * height).map(|i| (i * 7 % 256) as u8).collect();
    let buffer = fractal(width, height, &counts).unwrap();
    let expected: Vec<Option<Color>> = (0..width).map(|x| buffer.pixel(x, 3)).collect();
    let raw: Vec<u8> = buffer.into_raw();
    let picture = image::RgbImage::from_raw(width, height, raw.clone()).unwrap();
    let mut encoded: Vec<u8> = Vec::new();
    picture.write_to(&mut Cursor::new(&mut encoded), image::ImageOutputFormat::Png).unwrap();
    let decoded = image::load_from_memory(&encoded).unwrap().into_rgb8();
    for x in 0..width {
        let pixel = decoded.get_pixel(x, 3);
        let decoded_color = Color { red: pixel.0[0], green: pixel.0[1], blue: pixel.0[2] };
        assert_eq!(Some(decoded_color), expected[x as usize]);
    }
    assert_eq!(decoded.into_raw(), raw);
}

#[test]
fn ordinary_sizes_fit_and_absurd_ones_do_not() {
    assert!(PixelBuffer::fits(0, 0));
    assert!(PixelBuffer::fits(1, 1));
    assert!(PixelBuffer::fits(800, 800));
    assert!(PixelBuffer::fits(u32::MAX, 0));
    assert!(!PixelBuffer::fits(u32::MAX, u32::MAX));
    let most: u128 = isize::MAX as u128 / 3;
    if most <= u32::MAX as u128 {
        assert!(PixelBuffer::fits(most as u32, 1));
        assert!(!PixelBuffer::fits(most as u32 + 1, 1));
    }
}
