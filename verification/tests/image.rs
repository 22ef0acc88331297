use fractal_render::image::{coin_pixel, lerp_pixels, Image, RGBPixel, BLACK, WHITE};
use fractal_render::mandelbrot::ConfigError;
use num::Complex;

#[test]
fn named_colours() {
    assert_eq!(WHITE, (255, 255, 255));
    assert_eq!(BLACK, (0, 0, 0));
}

#[test]
fn coin_flip_colours() {
    assert_eq!(coin_pixel(true), WHITE);
    assert_eq!(coin_pixel(false), BLACK);
}

#[test]
fn interpolation_at_zero_is_the_start_colour() {
    assert_eq!(lerp_pixels(BLACK, WHITE, 0, 1), BLACK);
    assert_eq!(lerp_pixels(WHITE, BLACK, 0, 400), WHITE);
    assert_eq!(lerp_pixels((12, 34, 56), (200, 100, 0), 0, 7), (12, 34, 56));
}

#[test]
fn interpolation_at_one_is_the_end_colour() {
    assert_eq!(lerp_pixels(BLACK, WHITE, 1, 1), WHITE);
    assert_eq!(lerp_pixels(WHITE, BLACK, 400, 400), BLACK);
    assert_eq!(lerp_pixels((12, 34, 56), (200, 100, 0), 7, 7), (200, 100, 0));
    assert_eq!(lerp_pixels(BLACK, WHITE, usize::MAX, usize::MAX), WHITE);
}

#[test]
fn interpolation_cuts_off_and_does_not_round() {
    // 127.5
    assert_eq!(lerp_pixels(BLACK, WHITE, 1, 2), (127, 127, 127));
    assert_eq!(lerp_pixels(WHITE, BLACK, 1, 2), (127, 127, 127));
    // 63.75 and 191.25
    assert_eq!(lerp_pixels(BLACK, WHITE, 1, 4), (63, 63, 63));
    assert_eq!(lerp_pixels(WHITE, BLACK, 1, 4), (191, 191, 191));
    // 0.996...
    assert_eq!(lerp_pixels(BLACK, WHITE, 1, 256), (0, 0, 0));
    // 254.003...
    assert_eq!(lerp_pixels(WHITE, BLACK, 1, 256), (254, 254, 254));
}

#[test]
fn interpolation_works_on_each_channel_by_itself() {
    // 10 + 100/4, 200 - 100/4, 30
    assert_eq!(lerp_pixels((10, 200, 30), (110, 100, 30), 1, 4), (35, 175, 30));
    // 10 + 300/4, 200 - 300/4, 30
    assert_eq!(lerp_pixels((10, 200, 30), (110, 100, 30), 3, 4), (85, 125, 30));
    // whole values are hit exactly: 255 / 3, 255 * 2 / 3
    assert_eq!(lerp_pixels(BLACK, WHITE, 1, 3), (85, 85, 85));
    assert_eq!(lerp_pixels(BLACK, WHITE, 2, 3), (170, 170, 170));
}

#[test]
fn interpolation_with_the_largest_denominator() {
    assert_eq!(lerp_pixels(BLACK, WHITE, usize::MAX / 2, usize::MAX), (127, 127, 127));
    assert_eq!(lerp_pixels(BLACK, WHITE, usize::MAX - 1, usize::MAX), (254, 254, 254));
    assert_eq!(lerp_pixels(WHITE, BLACK, usize::MAX - 1, usize::MAX), (0, 0, 0));
}

#[test]
fn image_of_a_pixel_buffer() {
    let pixels: Vec<RGBPixel> = vec![(1, 2, 3), (4, 5, 6), (7, 8, 9), (10, 11, 12), BLACK, WHITE];
    let image = Image::from_pixels(3, 2, pixels.clone()).unwrap();
    assert_eq!(image.width(), 3);
    assert_eq!(image.height(), 2);
    assert_eq!(image.pixels(), &pixels);
}

#[test]
fn image_needs_one_pixel_for_each_position() {
    let pixels: Vec<RGBPixel> = vec![BLACK; 6];
    assert!(Image::from_pixels(3, 2, pixels.clone()).is_some());
    assert!(Image::from_pixels(2, 3, pixels.clone()).is_some());
    assert!(Image::from_pixels(6, 1, pixels.clone()).is_some());
    assert!(Image::from_pixels(3, 3, pixels.clone()).is_none());
    assert!(Image::from_pixels(5, 1, pixels.clone()).is_none());
    assert!(Image::from_pixels(0, 0, pixels.clone()).is_none());
    assert!(Image::from_pixels(usize::MAX, 2, pixels).is_none());
    assert!(Image::from_pixels(0, 7, Vec::new()).is_some());
}

#[test]
fn index_is_row_major() {
    let image = Image::from_pixels(3, 2, vec![BLACK; 6]).unwrap();
    assert_eq!(image.index(0, 0), 0);
    assert_eq!(image.index(2, 0), 2);
    assert_eq!(image.index(0, 1), 3);
    assert_eq!(image.index(2, 1), 5);
}

#[test]
fn index_finds_the_pixel_of_a_position() {
    let pixels: Vec<RGBPixel> = vec![(1, 2, 3), (4, 5, 6), (7, 8, 9), (10, 11, 12), BLACK, WHITE];
    let image = Image::from_pixels(2, 3, pixels).unwrap();
    assert_eq!(image.pixels()[image.index(1, 0)], (4, 5, 6));
    assert_eq!(image.pixels()[image.index(0, 1)], (7, 8, 9));
    assert_eq!(image.pixels()[image.index(1, 2)], WHITE);
}

#[test]
fn rgba_appends_an_opaque_alpha_to_each_pixel() {
    let pixels: Vec<RGBPixel> = vec![(1, 2, 3), (4, 5, 6), BLACK, WHITE];
    let image = Image::from_pixels(2, 2, pixels.clone()).unwrap();
    let bytes = image.rgba_array();
    assert_eq!(bytes, vec![1, 2, 3, 255, 4, 5, 6, 255, 0, 0, 0, 255, 255, 255, 255, 255]);
    for (i, pixel) in pixels.iter().enumerate() {
        assert_eq!(bytes[4 * i], pixel.0);
        assert_eq!(bytes[4 * i + 1], pixel.1);
        assert_eq!(bytes[4 * i + 2], pixel.2);
        assert_eq!(bytes[4 * i + 3], 255);
    }
}

#[test]
fn rgba_of_an_empty_image_is_empty() {
    let image = Image::from_pixels(0, 0, Vec::new()).unwrap();
    assert!(image.rgba_array().is_empty());
}

#[test]
fn random_image_is_black_and_white() {
    let image = Image::random(16, 9);
    assert_eq!(image.width(), 16);
    assert_eq!(image.height(), 9);
    assert_eq!(image.pixels().len(), 144);
    assert!(image.pixels().iter().all(|&pixel| pixel == WHITE || pixel == BLACK));
    let bytes = image.rgba_array();
    assert_eq!(bytes.len(), 576);
    assert!(bytes.chunks(4).all(|p| p == [255, 255, 255, 255] || p == [0, 0, 0, 255]));
}

#[test]
fn random_image_without_pixels() {
    let image = Image::random(0, 5);
    assert_eq!(image.width(), 0);
    assert_eq!(image.height(), 5);
    assert!(image.pixels().is_empty());
}

#[test]
fn fractal_image_has_the_size_of_the_grid() {
    let image = Image::fractal(
        4,
        3,
        |x: usize, y: usize| {
            Complex::new(-1.5 + 2.5 * (x as f64) / 4.0, -1.0 + 2.0 * (y as f64) / 3.0)
        },
        |z: &Complex<f64>| !(z.norm() < 2.0),
        |z: Complex<f64>, c: Complex<f64>| z * z + c,
    )
    .unwrap();
    assert_eq!(image.width(), 4);
    assert_eq!(image.height(), 3);
    assert_eq!(image.pixels().len(), 12);
    assert_eq!(image.rgba_array().len(), 48);
}

#[test]
fn fractal_image_of_too_large_a_grid_is_refused() {
    let result = Image::fractal(
        usize::MAX,
        2,
        |_x: usize, _y: usize| Complex::new(0.0, 0.0),
        |z: &Complex<f64>| !(z.norm() < 2.0),
        |z: Complex<f64>, c: Complex<f64>| z * z + c,
    );
    assert_eq!(result.err(), Some(ConfigError::GridTooLarge));
}
