//! Resampling of page images through the `image` crate: enlarging small
//! scans before thresholding, and shrinking pages to previews.

use vstd::prelude::*;
use image::imageops::FilterType;
use crate::types::DecodedImage;

verus! {

/// Bytes per pixel of an 8-bit RGB (`true`) or gray image.
pub open spec fn channels(is_rgb: bool) -> int {
    if is_rgb {
        3
    } else {
        1
    }
}

/// What `image::imageops::resize` with the triangle filter makes of the
/// `width` by `height` 8-bit RGB or gray image held (row by row) at the
/// start of `data`, scaled to `new_width` by `new_height`.
pub uninterp spec fn resized(
    data: Seq<u8>,
    width: u32,
    height: u32,
    is_rgb: bool,
    new_width: u32,
    new_height: u32,
) -> Seq<u8>;

/// What `DynamicImage::to_rgb8` makes of the `width` by `height` 8-bit
/// gray image held at the start of `data`.
pub uninterp spec fn gray_as_rgb(data: Seq<u8>, width: u32, height: u32) -> Seq<u8>;

/// `RgbImage::from_raw` or `GrayImage::from_raw`, then
/// `imageops::resize` with `FilterType::Triangle`.  Trusted: the result
/// is `resized(..)` of the arguments, one pixel of the same kind for each
/// of the new size (the triangle kernel uses only basic `f32`
/// arithmetic).  The resampler allocates an intermediate image of four
/// `f32` channels per pixel; `requires` rules out sizes whose buffers
/// would overflow.
#[verifier::external_body]
pub(crate) fn resize_triangle(
    data: &[u8],
    width: u32,
    height: u32,
    is_rgb: bool,
    new_width: u32,
    new_height: u32,
) -> (r: Vec<u8>)
    requires
        data@.len() >= width * height * channels(is_rgb),
        width * new_height * 16 <= isize::MAX,
        new_width * new_height * 16 <= isize::MAX,
    ensures
        r@ == resized(data@, width, height, is_rgb, new_width, new_height),
        r@.len() == new_width * new_height * channels(is_rgb),
{
    if is_rgb {
        let buf = image::RgbImage::from_raw(width, height, data.to_vec()).unwrap_or_default();
        image::imageops::resize(&buf, new_width, new_height, FilterType::Triangle).into_raw()
    } else {
        let buf = image::GrayImage::from_raw(width, height, data.to_vec()).unwrap_or_default();
        image::imageops::resize(&buf, new_width, new_height, FilterType::Triangle).into_raw()
    }
}

/// `RgbImage::from_raw` or `GrayImage::from_raw`, then
/// `imageops::resize` with `FilterType::CatmullRom`.  Trusted: one pixel
/// of the same kind for each of the new size.  The pixel values are not
/// stated: the Catmull-Rom kernel calls `f32::powi`, whose precision std
/// leaves open, so two runs need not agree.
#[verifier::external_body]
pub(crate) fn resize_catmull_rom(
    data: &[u8],
    width: u32,
    height: u32,
    is_rgb: bool,
    new_width: u32,
    new_height: u32,
) -> (r: Vec<u8>)
    requires
        data@.len() >= width * height * channels(is_rgb),
        width * new_height * 16 <= isize::MAX,
        new_width * new_height * 16 <= isize::MAX,
    ensures
        r@.len() == new_width * new_height * channels(is_rgb),
{
    if is_rgb {
        let buf = image::RgbImage::from_raw(width, height, data.to_vec()).unwrap_or_default();
        image::imageops::resize(&buf, new_width, new_height, FilterType::CatmullRom).into_raw()
    } else {
        let buf = image::GrayImage::from_raw(width, height, data.to_vec()).unwrap_or_default();
        image::imageops::resize(&buf, new_width, new_height, FilterType::CatmullRom).into_raw()
    }
}

/// `GrayImage::from_raw` then `DynamicImage::to_rgb8`.  Trusted: the
/// result is `gray_as_rgb(..)` of the arguments, three bytes per pixel.
#[verifier::external_body]
pub(crate) fn gray_to_rgb(data: &[u8], width: u32, height: u32) -> (r: Vec<u8>)
    requires
        data@.len() >= width * height,
        width * height * 3 <= isize::MAX,
    ensures
        r@ == gray_as_rgb(data@, width, height),
        r@.len() == width * height * 3,
{
    let buf = image::GrayImage::from_raw(width, height, data.to_vec()).unwrap_or_default();
    image::DynamicImage::ImageLuma8(buf).to_rgb8().into_raw()
}

/// Whether an image `width` pixels wide is enlarged to `min_width`
/// before it is made bilevel (`min_width` 0 turns enlarging off).
pub fn needs_upscale(width: u32, min_width: u32) -> (r: bool)
    ensures
        r == (min_width != 0 && width < min_width),
{
    min_width != 0 && width < min_width
}

/// Whether the pixel buffer of `img` holds its whole image.
pub open spec fn holds_pixels(img: DecodedImage) -> bool {
    img.data@.len() >= img.width * img.height * channels(img.is_color)
}

/// Enlarges `img` to `new_width` by `new_height` pixels with the
/// Catmull-Rom filter, recording the new resolution `new_dpi_bits`.  The
/// new pixel values are those of the `image` crate's resampler, which
/// this contract leaves open.
pub fn upscale(img: &DecodedImage, new_width: u32, new_height: u32, new_dpi_bits: u64) -> (r: DecodedImage)
    requires
        holds_pixels(*img),
        img.width * new_height * 16 <= isize::MAX,
        new_width * new_height * 16 <= isize::MAX,
    ensures
        r.width == new_width,
        r.height == new_height,
        r.data@.len() == new_width * new_height * channels(img.is_color),
        r.is_color == img.is_color,
        r.dpi_bits == new_dpi_bits,
{
    let data = resize_catmull_rom(img.data.as_slice(), img.width, img.height, img.is_color, new_width, new_height);
    DecodedImage { width: new_width, height: new_height, data, is_color: img.is_color, dpi_bits: new_dpi_bits }
}

} // verus!
