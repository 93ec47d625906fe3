//! Re-encoding of decoded page images: bilevel CCITT Group 4 after a
//! threshold, or JPEG.

use vstd::prelude::*;
use crate::types::{CompressedImage, DecodedImage};

verus! {

#[verifier::external_type_specification]
#[verifier::external_body]
#[verifier::reject_recursive_types(W)]
pub struct ExG4Encoder<W>(fax::encoder::Encoder<W>);

#[verifier::external_type_specification]
#[verifier::external_body]
pub struct ExVecWriter(fax::VecWriter);

/// The lines fed so far to a Group 4 encoder, each as its pixels (`true`
/// for white) and the width it was encoded with.
pub uninterp spec fn encoder_lines(e: fax::encoder::Encoder<fax::VecWriter>) -> Seq<(Seq<bool>, u16)>;

/// The Group 4 (T.6) bitstream, end-of-block marker included and padded
/// to whole bytes, that the `fax` crate's encoder produces for `lines`.
pub uninterp spec fn g4_encoded(lines: Seq<(Seq<bool>, u16)>) -> Seq<u8>;

/// `fax::encoder::Encoder::new` over `fax::VecWriter::with_capacity`.
/// Trusted: the new encoder has been fed no line.
#[verifier::external_body]
fn new_g4_encoder(capacity_bits: usize) -> (r: fax::encoder::Encoder<fax::VecWriter>)
    ensures
        encoder_lines(r) == Seq::<(Seq<bool>, u16)>::empty(),
{
    fax::encoder::Encoder::new(fax::VecWriter::with_capacity(capacity_bits))
}

/// `Encoder::encode_line` with the pixels of `row` (`true` for white).
/// Trusted: the line is recorded after those fed before; writing to a
/// `VecWriter` cannot fail.  The encoder adds pixel positions as 16-bit
/// numbers (`a0 + a1`), which overflows for lines of 32768 pixels or
/// more; `requires` keeps lines below that.
#[verifier::external_body]
fn g4_encode_line(e: &mut fax::encoder::Encoder<fax::VecWriter>, row: &[bool], width: u16)
    requires
        width <= 32767,
        row@.len() == width,
    ensures
        encoder_lines(*final(e)) == encoder_lines(*old(e)).push((row@, width)),
{
    let _ = e.encode_line(row.iter().map(|&white| if white { fax::Color::White } else { fax::Color::Black }), width);
}

/// `Encoder::finish` followed by `VecWriter::finish`.  Trusted: the bytes
/// are `g4_encoded` of the lines fed; writing to a `VecWriter` cannot
/// fail.
#[verifier::external_body]
fn g4_finish(e: fax::encoder::Encoder<fax::VecWriter>) -> (r: Vec<u8>)
    ensures
        r@ == g4_encoded(encoder_lines(e)),
{
    e.finish().map(|w| w.finish()).unwrap_or_default()
}

/// The rows of a `width` by `height` bilevel image stored row by row in
/// `pixels`, each paired with the width as the encoder receives it.
pub open spec fn g4_rows(pixels: Seq<bool>, width: u32, height: u32) -> Seq<(Seq<bool>, u16)> {
    Seq::new(
        height as nat,
        |y: int| (pixels.subrange(y * width, y * width + width), width as u16),
    )
}

/// `c` is a Group 4 image of the given size and resolution holding
/// `data`.
pub open spec fn is_g4_image(c: CompressedImage, data: Seq<u8>, width: u32, height: u32, dpi_bits: u64) -> bool {
    &&& c.data@ == data
    &&& c.width == width
    &&& c.height == height
    &&& c.color_space@ == "DeviceGray"@
    &&& c.bits_per_component == 1
    &&& c.filter@ == "CCITTFaxDecode"@
    &&& c.is_ccitt
    &&& c.dpi_bits == dpi_bits
}

/// Encodes a `width` by `height` bilevel image (`true` for white, row by
/// row) as CCITT Group 4.  Lines are limited to 32767 pixels, the most
/// the encoder's 16-bit position arithmetic handles.
pub fn encode_g4(bw_pixels: &Vec<bool>, width: u32, height: u32, dpi_bits: u64) -> (r: Result<CompressedImage, String>)
    requires
        width <= 32767,
        width * height <= bw_pixels@.len(),
    ensures
        r matches Ok(c) && is_g4_image(c, g4_encoded(g4_rows(bw_pixels@, width, height)), width, height, dpi_bits),
{
    let w = width as usize;
    let h = height as usize;
    let total = bw_pixels.len();
    assert(w * h <= total);
    let mut encoder = new_g4_encoder(w * h / 8);
    let w16: u16 = #[verifier::truncate] (width as u16);
    let mut y: usize = 0;
    while y < h
        invariant
            y <= h,
            w == width,
            h == height,
            w * h <= bw_pixels@.len(),
            total == bw_pixels@.len(),
            w16 == width,
            width <= 32767,
            encoder_lines(encoder) == g4_rows(bw_pixels@, width, height).subrange(0, y as int),
        decreases h - y,
    {
        proof {
            assert((y + 1) * w <= h * w) by (nonlinear_arith)
                requires
                    y + 1 <= h,
            ;
            assert((y + 1) * w == y * w + w) by (nonlinear_arith);
        }
        let row_start = y * w;
        let row = vstd::slice::slice_subrange(bw_pixels.as_slice(), row_start, row_start + w);
        g4_encode_line(&mut encoder, row, w16);
        y += 1;
        proof {
            assert(encoder_lines(encoder) =~= g4_rows(bw_pixels@, width, height).subrange(0, y as int));
        }
    }
    proof {
        assert(g4_rows(bw_pixels@, width, height).subrange(0, h as int) =~= g4_rows(bw_pixels@, width, height));
    }
    let g4_data = g4_finish(encoder);
    Ok(
        CompressedImage {
            data: g4_data,
            width,
            height,
            color_space: String::from_str("DeviceGray"),
            bits_per_component: 1,
            filter: String::from_str("CCITTFaxDecode"),
            is_ccitt: true,
            dpi_bits,
        },
    )
}

/// The luminance of an RGB pixel, `(299 r + 587 g + 114 b) / 1000`
/// rounded down.
pub open spec fn luminance(r: u8, g: u8, b: u8) -> int {
    (r * 299 + g * 587 + b * 114) / 1000
}

/// The bilevel pixels (`true` for white) of a decoded image under a
/// threshold: a pixel is white when its gray value, or the luminance of
/// its RGB value, is above `threshold`.
pub open spec fn threshold_pixels(img: DecodedImage, threshold: u8) -> Seq<bool> {
    if img.is_color {
        Seq::new(
            (img.width * img.height) as nat,
            |i: int| luminance(img.data@[3 * i], img.data@[3 * i + 1], img.data@[3 * i + 2]) > threshold,
        )
    } else {
        img.data@.map_values(|v: u8| v > threshold)
    }
}

/// The threshold test on RGB pixels weighs the channels as the ITU-R
/// BT.601 luma does: pixel `i` of an RGB image is white exactly when
/// 299 R + 587 G + 114 B of its bytes `3i` (red), `3i + 1` (green) and
/// `3i + 2` (blue) reaches 1000 times one more than the threshold, i.e.
/// when that weighted mean, rounded down, exceeds the threshold.  On a
/// gray image pixel `i` is white exactly when its byte exceeds the
/// threshold.
pub proof fn lemma_threshold_pixel(img: DecodedImage, threshold: u8, i: int)
    requires
        has_pixels(img),
        0 <= i < img.width * img.height,
    ensures
        img.is_color ==> threshold_pixels(img, threshold).len() == img.width * img.height,
        img.is_color ==> (threshold_pixels(img, threshold)[i] <==> 299 * img.data@[3 * i] + 587 * img.data@[3 * i
            + 1] + 114 * img.data@[3 * i + 2] >= 1000 * (threshold + 1)),
        !img.is_color ==> (threshold_pixels(img, threshold)[i] <==> img.data@[i] > threshold),
{
    if img.is_color {
        assert(3 * i + 2 < img.data@.len()) by (nonlinear_arith)
            requires
                0 <= i < img.width * img.height,
                img.data@.len() >= img.width * img.height * 3,
        ;
    } else {
        assert(i < img.data@.len()) by (nonlinear_arith)
            requires
                0 <= i < img.width * img.height,
                img.data@.len() >= img.width * img.height * 1,
        ;
    }
}

/// Green counts most towards a pixel's brightness, then red, then blue:
/// a pure green pixel of level `x` is white whenever the pure red pixel
/// of that level is, and that one whenever the pure blue one is; and a
/// gray RGB pixel `(v, v, v)` is white exactly when `v` exceeds the
/// threshold, as a gray byte `v` is.
pub proof fn lemma_luminance_channel_order(x: u8, v: u8, threshold: u8)
    ensures
        luminance(0, x, 0) >= luminance(x, 0, 0),
        luminance(x, 0, 0) >= luminance(0, 0, x),
        (luminance(v, v, v) > threshold) <==> (v > threshold),
{
}

/// Whether an image holds at least the pixel bytes its size calls for:
/// three per pixel for RGB, one for gray.
pub open spec fn has_pixels(img: DecodedImage) -> bool {
    img.data@.len() >= img.width * img.height * (if img.is_color { 3int } else { 1int })
}

/// Thresholds an image to black and white and encodes it as CCITT
/// Group 4 (`-threshold` at the given level).
pub fn convert_to_bw_threshold(img: &DecodedImage, threshold: u8) -> (r: Result<CompressedImage, String>)
    requires
        img.width <= 32767,
        has_pixels(*img),
    ensures
        r matches Ok(c) && is_g4_image(
            c,
            g4_encoded(g4_rows(threshold_pixels(*img, threshold), img.width, img.height)),
            img.width,
            img.height,
            img.dpi_bits,
        ),
{
    let w = img.width as usize;
    let h = img.height as usize;
    let mut bw: Vec<bool> = Vec::new();
    if img.is_color {
        let len = img.data.len();
        proof {
            assert(w * h * 3 <= len);
            assert(w * h <= w * h * 3) by (nonlinear_arith);
        }
        let n = w * h;
        let mut i: usize = 0;
        while i < n
            invariant
                i <= n,
                n == w * h,
                img.is_color,
                n * 3 <= img.data@.len(),
                bw@ =~= threshold_pixels(*img, threshold).subrange(0, i as int),
                n == img.width * img.height,
                len == img.data@.len(),
            decreases n - i,
        {
            assert(3 * i + 2 < n * 3) by (nonlinear_arith)
                requires
                    i < n,
            ;
            let base = 3 * i;
            let r = img.data[base] as u32;
            let g = img.data[base + 1] as u32;
            let b = img.data[base + 2] as u32;
            let lum = (r * 299 + g * 587 + b * 114) / 1000;
            bw.push(lum > threshold as u32);
            i += 1;
        }
        assert(threshold_pixels(*img, threshold).subrange(0, n as int) =~= threshold_pixels(*img, threshold));
    } else {
        let mut i: usize = 0;
        while i < img.data.len()
            invariant
                i <= img.data@.len(),
                !img.is_color,
                bw@ =~= threshold_pixels(*img, threshold).subrange(0, i as int),
            decreases img.data.len() - i,
        {
            bw.push(img.data[i] > threshold);
            i += 1;
        }
        assert(threshold_pixels(*img, threshold).subrange(0, img.data@.len() as int) =~= threshold_pixels(
            *img,
            threshold,
        ));
    }
    encode_g4(&bw, img.width, img.height, img.dpi_bits)
}

/// Black and white at the middle threshold, 128.
pub fn convert_to_bw(img: &DecodedImage) -> (r: Result<CompressedImage, String>)
    requires
        img.width <= 32767,
        has_pixels(*img),
    ensures
        r matches Ok(c) && is_g4_image(
            c,
            g4_encoded(g4_rows(threshold_pixels(*img, 128), img.width, img.height)),
            img.width,
            img.height,
            img.dpi_bits,
        ),
{
    convert_to_bw_threshold(img, 128)
}

/// What `image::codecs::jpeg::JpegEncoder::new_with_quality(.., quality)`
/// writes for a `width` by `height` image of 8-bit RGB (`is_color`) or
/// gray `pixels`, or the display text of its error.
pub uninterp spec fn jpeg_encoded(pixels: Seq<u8>, width: u32, height: u32, is_color: bool, quality: u8) -> Result<
    Seq<u8>,
    Seq<char>,
>;

/// The image sizes the JPEG encoder accepts: both sides 1 to 65535.
pub open spec fn jpeg_size_ok(width: u32, height: u32) -> bool {
    1 <= width <= 65535 && 1 <= height <= 65535
}

/// Encodes pixels as JPEG with `JpegEncoder::encode`.  Trusted: the
/// result is `jpeg_encoded(..)` of the arguments; the encoder panics
/// unless the buffer holds exactly the pixels the size calls for, and
/// (writing into a `Vec` being infallible) fails exactly when a side is 0
/// or above 65535, before it writes anything.
#[verifier::external_body]
pub(crate) fn jpeg_encode(pixels: &[u8], width: u32, height: u32, is_color: bool, quality: u8) -> (r: Result<Vec<u8>, String>)
    requires
        pixels@.len() == width * height * (if is_color { 3int } else { 1int }),
    ensures
        match jpeg_encoded(pixels@, width, height, is_color, quality) {
            Ok(o) => r matches Ok(v) && v@ == o,
            Err(m) => r matches Err(e) && e@ == m,
        },
        r is Ok <==> jpeg_size_ok(width, height),
{
    let mut buf = Vec::new();
    let color_type = if is_color { image::ExtendedColorType::Rgb8 } else { image::ExtendedColorType::L8 };
    match image::codecs::jpeg::JpegEncoder::new_with_quality(&mut buf, quality).encode(pixels, width, height, color_type) {
        Ok(()) => Ok(buf),
        Err(e) => Err(format!("{e}")),
    }
}

/// Encodes an image as JPEG of the given quality (1 to 100), RGB or gray
/// as the image is.
pub fn convert_to_color(img: &DecodedImage, quality: u8) -> (r: Result<CompressedImage, String>)
    requires
        img.data@.len() == img.width * img.height * (if img.is_color { 3int } else { 1int }),
    ensures
        match jpeg_encoded(img.data@, img.width, img.height, img.is_color, quality) {
            Ok(o) => r matches Ok(c) && c.data@ == o && c.width == img.width && c.height == img.height
                && c.color_space@ == (if img.is_color { "DeviceRGB"@ } else { "DeviceGray"@ })
                && c.bits_per_component == 8 && c.filter@ == "DCTDecode"@ && !c.is_ccitt && c.dpi_bits
                == img.dpi_bits,
            Err(m) => r matches Err(e) && e@ == "JPEG encode: "@ + m,
        },
        r is Ok <==> jpeg_size_ok(img.width, img.height),
{
    let color_space = if img.is_color {
        String::from_str("DeviceRGB")
    } else {
        String::from_str("DeviceGray")
    };
    match jpeg_encode(img.data.as_slice(), img.width, img.height, img.is_color, quality) {
        Ok(data) => Ok(
            CompressedImage {
                data,
                width: img.width,
                height: img.height,
                color_space,
                bits_per_component: 8,
                filter: String::from_str("DCTDecode"),
                is_ccitt: false,
                dpi_bits: img.dpi_bits,
            },
        ),
        Err(e) => {
            let mut m = String::from_str("JPEG encode: ");
            m.append(e.as_str());
            Err(m)
        },
    }
}

} // verus!
