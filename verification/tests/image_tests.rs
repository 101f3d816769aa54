use wired::image_block::{pick_image, ImageSource, ImageType};
use image::GenericImageView;
use wired::images::image_from_data;

#[test]
fn rgb_data_of_the_right_length_makes_an_image() {
    // 2x2 RGB, rows of 6 bytes: (2 - 1) * 6 + 2 * 3 = 12 bytes.
    let img = image_from_data(2, 2, 6, 8, 3, vec![0u8; 12]).expect("an image");
    assert_eq!(img.width(), 2);
    assert_eq!(img.height(), 2);
    assert!(img.as_rgb8().is_some());
}

#[test]
fn rgba_data_with_padded_rows() {
    // 2x2 RGBA, rows padded to 12 bytes: (2 - 1) * 12 + 2 * 4 = 20 bytes, enough for 16.
    let img = image_from_data(2, 2, 12, 8, 4, vec![7u8; 20]).expect("an image");
    assert!(img.as_rgba8().is_some());
}

#[test]
fn wrong_length_makes_none() {
    assert!(image_from_data(2, 2, 6, 8, 3, vec![0u8; 11]).is_none());
    assert!(image_from_data(2, 2, 6, 8, 3, vec![0u8; 13]).is_none());
}

#[test]
fn unsupported_channels_make_none() {
    // 2x2 grey, 1 byte a pixel: (2 - 1) * 2 + 2 * 1 = 4 bytes.
    assert!(image_from_data(2, 2, 2, 8, 1, vec![0u8; 4]).is_none());
}

#[test]
fn too_few_bytes_for_the_pixels_make_none() {
    // Length matches the row arithmetic, but 3x3 RGB needs 27 bytes.
    assert!(image_from_data(3, 3, 0, 8, 3, vec![0u8; 9]).is_none());
}

#[test]
fn image_choice() {
    assert_eq!(pick_image(ImageType::App, true, true), Some(ImageSource::App));
    assert_eq!(pick_image(ImageType::App, false, true), None);
    assert_eq!(pick_image(ImageType::Hint, true, true), Some(ImageSource::Hint));
    assert_eq!(pick_image(ImageType::AppThenHint, false, true), Some(ImageSource::Hint));
    assert_eq!(pick_image(ImageType::HintThenApp, true, false), Some(ImageSource::App));
    assert_eq!(pick_image(ImageType::HintThenApp, true, true), Some(ImageSource::Hint));
    assert_eq!(pick_image(ImageType::AppThenHint, false, false), None);
}

#[test]
fn a_wide_image_keeps_its_width_height_and_bytes() {
    // 3x1 RGB: (1 - 1) * 9 + 3 * 3 = 9 bytes.
    let bytes: Vec<u8> = (1..=9).collect();
    let img = image_from_data(3, 1, 9, 8, 3, bytes.clone()).expect("an image");
    assert_eq!(img.width(), 3);
    assert_eq!(img.height(), 1);
    assert_eq!(img.as_rgb8().expect("rgb").as_raw(), &bytes);
}
