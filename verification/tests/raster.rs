use mcimg::color::Color;
use mcimg::raster::{img_average, rgba8_to_rgb8, Image, RgbaImage};

fn rgb(r: u8, g: u8, b: u8) -> Color {
    Color { r, g, b }
}

/// An RGBA image of the given size with one color and one alpha value.
fn plain_rgba(width: u32, height: u32, color: [u8; 3], alpha: u8) -> RgbaImage {
    let mut data = Vec::new();
    for _ in 0..width * height {
        data.extend_from_slice(&color);
        data.push(alpha);
    }
    RgbaImage::from_raw(width, height, data).unwrap()
}

#[test]
fn image_needs_three_samples_per_pixel() {
    assert!(Image::from_raw(2, 2, vec![0; 12]).is_some());
    assert!(Image::from_raw(2, 2, vec![0; 11]).is_none());
    assert!(Image::from_raw(2, 2, vec![0; 13]).is_none());
    assert!(Image::from_raw(2, 2, vec![0; 16]).is_none());
    assert!(Image::from_raw(0, 5, vec![]).is_some());
    assert!(Image::from_raw(0, 5, vec![0]).is_none());
}

#[test]
fn rgba_image_needs_four_samples_per_pixel() {
    assert!(RgbaImage::from_raw(2, 2, vec![0; 16]).is_some());
    assert!(RgbaImage::from_raw(2, 2, vec![0; 12]).is_none());
    assert!(RgbaImage::from_raw(3, 1, vec![0; 12]).is_some());
    assert!(RgbaImage::from_raw(0, 0, vec![]).is_some());
}

#[test]
fn image_gives_back_what_it_was_made_of() {
    let data: Vec<u8> = (0..18).collect();
    let img = Image::from_raw(3, 2, data.clone()).unwrap();
    assert_eq!(img.width(), 3);
    assert_eq!(img.height(), 2);
    assert_eq!(img.pixel_count(), 6);
    assert_eq!(img.as_raw(), &data);
    assert_eq!(img.into_raw(), data);
}

#[test]
fn pixels_are_stored_row_by_row() {
    let data: Vec<u8> = (0..18).collect();
    let img = Image::from_raw(3, 2, data).unwrap();
    assert_eq!(img.get_pixel(0, 0), rgb(0, 1, 2));
    assert_eq!(img.get_pixel(2, 0), rgb(6, 7, 8));
    assert_eq!(img.get_pixel(0, 1), rgb(9, 10, 11));
    assert_eq!(img.get_pixel(2, 1), rgb(15, 16, 17));
    assert_eq!(img.pixel_at(0), rgb(0, 1, 2));
    assert_eq!(img.pixel_at(4), rgb(12, 13, 14));
    assert_eq!(img.pixel_at(4), img.get_pixel(1, 1));
}

#[test]
fn average_of_a_uniform_image_is_its_color() {
    for color in [[0, 0, 0], [255, 255, 255], [255, 0, 0], [1, 2, 3], [200, 10, 10]] {
        let img = plain_rgba(16, 16, color, 255);
        assert_eq!(img_average(&img), Some(rgb(color[0], color[1], color[2])));
    }
    let img = plain_rgba(1, 1, [9, 8, 7], 255);
    assert_eq!(img_average(&img), Some(rgb(9, 8, 7)));
    let img = plain_rgba(3, 5, [254, 1, 128], 255);
    assert_eq!(img_average(&img), Some(rgb(254, 1, 128)));
}

#[test]
fn average_is_the_mean_of_each_channel_rounded_down() {
    let data = vec![
        0, 0, 0, 255, //
        255, 255, 255, 255, //
        10, 20, 30, 255, //
        40, 50, 60, 255,
    ];
    let img = RgbaImage::from_raw(2, 2, data).unwrap();
    // 305 / 4, 325 / 4, 345 / 4
    assert_eq!(img_average(&img), Some(rgb(76, 81, 86)));

    let data = vec![0, 1, 2, 255, 1, 2, 3, 255, 1, 2, 3, 255];
    let img = RgbaImage::from_raw(3, 1, data).unwrap();
    // 2 / 3, 5 / 3, 8 / 3
    assert_eq!(img_average(&img), Some(rgb(0, 1, 2)));
}

#[test]
fn average_of_an_image_that_is_not_opaque_is_none() {
    assert_eq!(img_average(&plain_rgba(16, 16, [1, 2, 3], 254)), None);
    assert_eq!(img_average(&plain_rgba(16, 16, [1, 2, 3], 0)), None);
    // one pixel only, the last
    let mut data = vec![255u8; 16 * 16 * 4];
    data[16 * 16 * 4 - 1] = 254;
    let img = RgbaImage::from_raw(16, 16, data).unwrap();
    assert_eq!(img_average(&img), None);
    // one pixel only, the first
    let mut data = vec![255u8; 16 * 16 * 4];
    data[3] = 0;
    let img = RgbaImage::from_raw(16, 16, data).unwrap();
    assert_eq!(img_average(&img), None);
}

#[test]
fn dropping_alpha_keeps_the_colors() {
    let data = vec![
        1, 2, 3, 255, //
        4, 5, 6, 0, //
        7, 8, 9, 128, //
        10, 11, 12, 255, //
        13, 14, 15, 1, //
        16, 17, 18, 77,
    ];
    let rgba = RgbaImage::from_raw(3, 2, data).unwrap();
    assert_eq!(rgba.width(), 3);
    assert_eq!(rgba.height(), 2);
    assert_eq!(rgba.pixel_count(), 6);
    let rgb_image = rgba8_to_rgb8(&rgba);
    assert_eq!(rgb_image.width(), 3);
    assert_eq!(rgb_image.height(), 2);
    let expected: Vec<u8> = (1..=18).collect();
    assert_eq!(rgb_image.as_raw(), &expected);
}

#[test]
fn dropping_alpha_of_an_empty_image() {
    let rgba = RgbaImage::from_raw(0, 7, vec![]).unwrap();
    let rgb_image = rgba8_to_rgb8(&rgba);
    assert_eq!(rgb_image.width(), 0);
    assert_eq!(rgb_image.height(), 7);
    assert!(rgb_image.as_raw().is_empty());
}
