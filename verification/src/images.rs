//! Images that arrive as raw pixel data with a notification.
use vstd::prelude::*;

verus! {

#[verifier::external_type_specification]
#[verifier::external_body]
pub struct ExDynamicImage(image::DynamicImage);

/// `x / 8` rounded toward zero.
pub open spec fn div8_toward_zero(x: int) -> int {
    if x >= 0 {
        x / 8
    } else {
        -((-x) / 8)
    }
}

/// How many bytes a pixel takes with `channels` samples of `bits_per_sample` bits.
pub open spec fn pixel_stride(channels: i32, bits_per_sample: i32) -> int {
    div8_toward_zero(channels * bits_per_sample + 7)
}

/// How many bytes image data of `height` rows of `rowstride` bytes holds, the last row
/// holding `width` pixels only.
pub open spec fn expected_len(
    width: i32,
    height: i32,
    rowstride: i32,
    bits_per_sample: i32,
    channels: i32,
) -> int {
    (height - 1) * rowstride + width * pixel_stride(channels, bits_per_sample)
}

/// Whether image data with these properties and `len` bytes makes an image: the length is
/// what the properties say, the pixels are RGB (3 channels) or RGBA (4), and the bytes hold
/// that many samples for each of the `width * height` pixels.
pub open spec fn image_data_ok(
    width: i32,
    height: i32,
    rowstride: i32,
    bits_per_sample: i32,
    channels: i32,
    len: nat,
) -> bool {
    &&& len == expected_len(width, height, rowstride, bits_per_sample, channels)
    &&& (channels == 3 || channels == 4)
    &&& channels * (width as u32) * (height as u32) <= len
}

/// The width in pixels of an image.
pub uninterp spec fn image_width(img: image::DynamicImage) -> u32;

/// The height in pixels of an image.
pub uninterp spec fn image_height(img: image::DynamicImage) -> u32;

/// How many 8-bit samples each pixel of an image has (3 for RGB, 4 for RGBA).
pub uninterp spec fn image_channels(img: image::DynamicImage) -> u8;

/// The samples of an image, row after row, as the buffer that it was made from holds them.
pub uninterp spec fn image_bytes(img: image::DynamicImage) -> Seq<u8>;

/// `image::ImageBuffer::from_raw` for 8-bit RGB pixels, made a `DynamicImage`: it takes the
/// buffer as the image when the buffer holds at least three bytes for each of the
/// `width * height` pixels (the product computed without overflow), and gives `None`
/// otherwise. The image keeps the buffer, the width and the height as they were given.
#[verifier::external_body]
fn rgb8_from_raw(width: u32, height: u32, bytes: Vec<u8>) -> (r: Option<image::DynamicImage>)
    ensures
        r is Some <==> 3 * width * height <= bytes@.len(),
        r matches Some(img) ==> image_width(img) == width && image_height(img) == height
            && image_channels(img) == 3 && image_bytes(img) == bytes@,
{
    image::ImageBuffer::from_raw(width, height, bytes).map(image::DynamicImage::ImageRgb8)
}

/// `image::ImageBuffer::from_raw` for 8-bit RGBA pixels, made a `DynamicImage`: it takes the
/// buffer as the image when the buffer holds at least four bytes for each of the
/// `width * height` pixels (the product computed without overflow), and gives `None`
/// otherwise. The image keeps the buffer, the width and the height as they were given.
#[verifier::external_body]
fn rgba8_from_raw(width: u32, height: u32, bytes: Vec<u8>) -> (r: Option<image::DynamicImage>)
    ensures
        r is Some <==> 4 * width * height <= bytes@.len(),
        r matches Some(img) ==> image_width(img) == width && image_height(img) == height
            && image_channels(img) == 4 && image_bytes(img) == bytes@,
{
    image::ImageBuffer::from_raw(width, height, bytes).map(image::DynamicImage::ImageRgba8)
}

/// The image that raw image data makes: `bytes` hold `height` rows of `rowstride` bytes
/// (the last row `width` pixels only) of `channels` samples of `bits_per_sample` bits. Data
/// whose length does not match, or whose pixels are not RGB or RGBA, makes none; see
/// [`image_data_ok`]. The sizes are computed without overflow.
pub fn image_from_data(
    width: i32,
    height: i32,
    rowstride: i32,
    bits_per_sample: i32,
    channels: i32,
    bytes: Vec<u8>,
) -> (r: Option<image::DynamicImage>)
    ensures
        r is Some <==> image_data_ok(
            width,
            height,
            rowstride,
            bits_per_sample,
            channels,
            bytes@.len(),
        ),
        r matches Some(img) ==> image_width(img) == width as u32 && image_height(img)
            == height as u32 && image_channels(img) == channels && image_bytes(img) == bytes@,
{
    let c: i64 = channels as i64;
    let b: i64 = bits_per_sample as i64;
    assert(-0x4000_0000_0000_0000 <= c * b <= 0x4000_0000_0000_0000) by (nonlinear_arith)
        requires
            -0x8000_0000 <= c < 0x8000_0000,
            -0x8000_0000 <= b < 0x8000_0000,
    ;
    let samples: i64 = c * b + 7;
    let stride: i64 = if samples >= 0 {
        samples / 8
    } else {
        -((-samples) / 8)
    };
    assert(stride == pixel_stride(channels, bits_per_sample));
    assert(-0x0800_0000_0000_0001 <= stride <= 0x0800_0000_0000_0001);
    let h1: i128 = height as i128 - 1;
    let rs: i128 = rowstride as i128;
    assert(-0x1_0000_0000_0000_0000 <= h1 * rs <= 0x1_0000_0000_0000_0000) by (nonlinear_arith)
        requires
            -0x8000_0001 <= h1 < 0x8000_0000,
            -0x8000_0000 <= rs < 0x8000_0000,
    ;
    let rows: i128 = h1 * rs;
    let w: i128 = width as i128;
    let st: i128 = stride as i128;
    assert(-0x1_0000_0000_0000_0000_0000_0000 <= w * st <= 0x1_0000_0000_0000_0000_0000_0000)
        by (nonlinear_arith)
        requires
            -0x8000_0000 <= w < 0x8000_0000,
            -0x0800_0000_0000_0001 <= st <= 0x0800_0000_0000_0001,
    ;
    let last: i128 = w * st;
    let expected: i128 = rows + last;
    let len: i128 = bytes.len() as i128;
    if len != expected {
        return None;
    }
    if channels == 3 {
        rgb8_from_raw(#[verifier::truncate] (width as u32), #[verifier::truncate] (height as u32), bytes)
    } else if channels == 4 {
        rgba8_from_raw(#[verifier::truncate] (width as u32), #[verifier::truncate] (height as u32), bytes)
    } else {
        None
    }
}

} // verus!
