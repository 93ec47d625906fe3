//! The preview shown for each page before compression: the page image
//! scaled down, encoded as JPEG and wrapped in a `data:` URL.

use vstd::prelude::*;
use base64::Engine;
use crate::convert::{jpeg_encode, jpeg_encoded};
use crate::resample::{channels, gray_as_rgb, gray_to_rgb, holds_pixels, resize_triangle, resized};
use crate::types::DecodedImage;

verus! {

/// The base64 digit of the 6-bit value `v` (RFC 4648 standard alphabet).
pub open spec fn b64_digit(v: int) -> char {
    if v < 26 {
        (65 + v) as char
    } else if v < 52 {
        (97 + v - 26) as char
    } else if v < 62 {
        (48 + v - 52) as char
    } else if v == 62 {
        '+'
    } else {
        '/'
    }
}

/// The standard base64 encoding of `b`, padded with `=` to a multiple of
/// four characters.
pub open spec fn base64_text(b: Seq<u8>) -> Seq<char>
    decreases b.len(),
{
    if b.len() == 0 {
        Seq::empty()
    } else if b.len() == 1 {
        seq![b64_digit(b[0] as int / 4), b64_digit((b[0] as int % 4) * 16), '=', '=']
    } else if b.len() == 2 {
        seq![
            b64_digit(b[0] as int / 4),
            b64_digit((b[0] as int % 4) * 16 + b[1] as int / 16),
            b64_digit((b[1] as int % 16) * 4),
            '=',
        ]
    } else {
        seq![
            b64_digit(b[0] as int / 4),
            b64_digit((b[0] as int % 4) * 16 + b[1] as int / 16),
            b64_digit((b[1] as int % 16) * 4 + b[2] as int / 64),
            b64_digit(b[2] as int % 64),
        ] + base64_text(b.subrange(3, b.len() as int))
    }
}

/// The length of the base64 text of `n` bytes.
pub open spec fn base64_len(n: nat) -> int {
    (n as int + 2) / 3 * 4
}

/// `base64::engine::general_purpose::STANDARD.encode`.  Trusted: the text
/// is the padded standard base64 encoding of `bytes` (the crate's
/// documented behaviour); the crate panics when the text's length does
/// not fit in memory, which `requires` rules out.
#[verifier::external_body]
fn base64_standard(bytes: &[u8]) -> (r: String)
    requires
        base64_len(bytes@.len()) <= isize::MAX,
    ensures
        r@ == base64_text(bytes@),
{
    base64::engine::general_purpose::STANDARD.encode(bytes)
}

/// The prefix of a JPEG `data:` URL.
pub open spec fn jpeg_url_prefix() -> Seq<char> {
    "data:image/jpeg;base64,"@
}

/// The `data:` URL of the JPEG bytes `jpeg`.
pub fn jpeg_data_url(jpeg: &[u8]) -> (r: String)
    requires
        base64_len(jpeg@.len()) <= isize::MAX,
    ensures
        r@ == jpeg_url_prefix() + base64_text(jpeg@),
{
    let mut s = String::from_str("data:image/jpeg;base64,");
    let t = base64_standard(jpeg);
    s.append(t.as_str());
    proof {
        reveal_strlit("data:image/jpeg;base64,");
    }
    s
}

/// The RGB pixels of the `tw` by `th` preview of `img` (triangle filter).
pub open spec fn preview_pixels(img: DecodedImage, tw: u32, th: u32) -> Seq<u8> {
    let small = resized(img.data@, img.width, img.height, img.is_color, tw, th);
    if img.is_color {
        small
    } else {
        gray_as_rgb(small, tw, th)
    }
}

/// The JPEG (quality 50) of the preview, or no bytes where the encoder
/// fails.
pub open spec fn preview_jpeg(img: DecodedImage, tw: u32, th: u32) -> Seq<u8> {
    match jpeg_encoded(preview_pixels(img, tw, th), tw, th, true, 50) {
        Ok(o) => o,
        Err(_) => Seq::empty(),
    }
}

/// The preview text of `img` at `tw` by `th` pixels: empty when the pixel
/// buffer is short of the image (or the JPEG is too large to be written
/// as text), else the JPEG's `data:` URL.
pub open spec fn spec_make_thumbnail(img: DecodedImage, tw: u32, th: u32) -> Seq<char> {
    if !holds_pixels(img) || base64_len(preview_jpeg(img, tw, th).len()) > isize::MAX {
        Seq::empty()
    } else {
        jpeg_url_prefix() + base64_text(preview_jpeg(img, tw, th))
    }
}

/// The preview of a page image, `tw` by `th` pixels (the caller picks the
/// size: the image scaled to fit 300 by 400, never enlarged, at least one
/// pixel each way), as a JPEG `data:` URL; empty when the image's pixel
/// buffer is short.
pub fn make_thumbnail(img: &DecodedImage, tw: u32, th: u32) -> (r: String)
    requires
        img.width * th * 16 <= isize::MAX,
        tw * th * 16 <= isize::MAX,
    ensures
        r@ == spec_make_thumbnail(*img, tw, th),
{
    let (w, h) = (img.width as u128, img.height as u128);
    assert(w * h <= 0xffff_ffff * 0xffff_ffff) by (nonlinear_arith)
        requires
            w <= 0xffff_ffff,
            h <= 0xffff_ffff,
    ;
    let area: u128 = w * h;
    let needed: u128 = if img.is_color { area * 3 } else { area };
    if (img.data.len() as u128) < needed {
        return String::new();
    }
    let small = resize_triangle(img.data.as_slice(), img.width, img.height, img.is_color, tw, th);
    let pixels = if img.is_color {
        small
    } else {
        assert(channels(img.is_color) == 1);
        assert(small@.len() == tw * th) by (nonlinear_arith)
            requires
                small@.len() == tw * th * channels(img.is_color),
                channels(img.is_color) == 1,
        ;
        gray_to_rgb(small.as_slice(), tw, th)
    };
    let jpeg = match jpeg_encode(pixels.as_slice(), tw, th, true, 50) {
        Ok(v) => v,
        Err(_) => Vec::new(),
    };
    if ((jpeg.len() as u128) + 2) / 3 * 4 > isize::MAX as u128 {
        return String::new();
    }
    jpeg_data_url(jpeg.as_slice())
}

} // verus!
