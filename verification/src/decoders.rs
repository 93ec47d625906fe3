//! Decoders of the self-describing image formats a PDF may embed:
//! JPEG (`DCTDecode`) through the `image` crate and JBIG2 through
//! `hayro-jbig2`.

use vstd::prelude::*;
use image::ColorType as C;

verus! {

/// The pixel layout of a decoded image, as the `image` crate reports it.
#[derive(Debug, Clone, Copy, PartialEq, Eq, Structural)]
pub enum PixelLayout {
    L8,
    La8,
    Rgb8,
    Rgba8,
    L16,
    La16,
    Rgb16,
    Rgba16,
    Rgb32F,
    Rgba32F,
    Other,
}

/// What `image::load_from_memory` makes of `data`: the decoded image's
/// pixel layout, width and height, or the display text of its error.
pub uninterp spec fn loaded_layout(data: Seq<u8>) -> Result<(PixelLayout, u32, u32), Seq<char>>;

/// The decoded image of `data` converted to 8-bit RGB, row by row.
pub uninterp spec fn loaded_rgb8(data: Seq<u8>) -> Seq<u8>;

/// The decoded image of `data` converted to 8-bit gray, row by row.
pub uninterp spec fn loaded_luma8(data: Seq<u8>) -> Seq<u8>;

/// Decodes `data` with `image::load_from_memory` and reports the pixel
/// layout (`DynamicImage::color`), width and height.  Trusted: the
/// result is `loaded_layout(data)`.
#[verifier::external_body]
fn image_layout(data: &[u8]) -> (r: Result<(PixelLayout, u32, u32), String>)
    ensures
        match loaded_layout(data@) {
            Ok(l) => r == Ok::<(PixelLayout, u32, u32), String>(l),
            Err(m) => r matches Err(e) && e@ == m,
        },
{
    let img = image::load_from_memory(data).map_err(|e| format!("{e}"))?;
    let layout = match img.color() {
        C::L8 => PixelLayout::L8, C::La8 => PixelLayout::La8, C::Rgb8 => PixelLayout::Rgb8,
        C::Rgba8 => PixelLayout::Rgba8, C::L16 => PixelLayout::L16, C::La16 => PixelLayout::La16,
        C::Rgb16 => PixelLayout::Rgb16, C::Rgba16 => PixelLayout::Rgba16,
        C::Rgb32F => PixelLayout::Rgb32F, C::Rgba32F => PixelLayout::Rgba32F, _ => PixelLayout::Other,
    };
    Ok((layout, img.width(), img.height()))
}

/// Decodes `data` with `image::load_from_memory` and converts it with
/// `DynamicImage::to_rgb8`.  Trusted: the result is `loaded_rgb8(data)`,
/// three bytes for each of the `width * height` pixels.
#[verifier::external_body]
fn image_rgb8(data: &[u8]) -> (r: Vec<u8>)
    requires
        loaded_layout(data@) is Ok,
    ensures
        r@ == loaded_rgb8(data@),
        r@.len() == match loaded_layout(data@) {
            Ok((l, w, h)) => w * h * 3,
            Err(_) => 0,
        },
{
    image::load_from_memory(data).map(|img| img.to_rgb8().into_raw()).unwrap_or_default()
}

/// Decodes `data` with `image::load_from_memory` and converts it with
/// `DynamicImage::to_luma8`.  Trusted: the result is
/// `loaded_luma8(data)`, one byte for each of the `width * height`
/// pixels.
#[verifier::external_body]
fn image_luma8(data: &[u8]) -> (r: Vec<u8>)
    requires
        loaded_layout(data@) is Ok,
    ensures
        r@ == loaded_luma8(data@),
        r@.len() == match loaded_layout(data@) {
            Ok((l, w, h)) => w * h,
            Err(_) => 0,
        },
{
    image::load_from_memory(data).map(|img| img.to_luma8().into_raw()).unwrap_or_default()
}

/// Whether a decoded layout counts as color: RGB or RGBA, 8 or 16 bits.
pub open spec fn is_color_layout(l: PixelLayout) -> bool {
    l == PixelLayout::Rgb8 || l == PixelLayout::Rgba8 || l == PixelLayout::Rgb16 || l == PixelLayout::Rgba16
}

/// A decoded JPEG stream: pixels, whether they are RGB, width and height
/// (the JPEG's own dimensions).
pub open spec fn spec_decode_jpeg(data: Seq<u8>) -> Result<(Seq<u8>, bool, u32, u32), Seq<char>> {
    match loaded_layout(data) {
        Err(m) => Err("JPEG decode: "@ + m),
        Ok((l, w, h)) => if is_color_layout(l) {
            Ok((loaded_rgb8(data), true, w, h))
        } else {
            Ok((loaded_luma8(data), false, w, h))
        },
    }
}

/// Decodes a JPEG stream to RGB (color JPEGs) or gray, with the JPEG's
/// own dimensions, which may differ from those of the image dictionary.
pub fn decode_jpeg(data: &[u8]) -> (r: Result<(Vec<u8>, bool, u32, u32), String>)
    ensures
        match spec_decode_jpeg(data@) {
            Ok((p, c, w, h)) => r matches Ok((v, c2, w2, h2)) && v@ == p && c2 == c && w2 == w && h2 == h
                && v@.len() == w * h * (if c { 3int } else { 1int }),
            Err(m) => r matches Err(e) && e@ == m,
        },
{
    let (layout, w, h) = match image_layout(data) {
        Ok(x) => x,
        Err(e) => {
            let mut m = String::from_str("JPEG decode: ");
            m.append(e.as_str());
            return Err(m);
        },
    };
    let is_color = layout == PixelLayout::Rgb8 || layout == PixelLayout::Rgba8 || layout == PixelLayout::Rgb16
        || layout == PixelLayout::Rgba16;
    if is_color {
        Ok((image_rgb8(data), true, w, h))
    } else {
        Ok((image_luma8(data), false, w, h))
    }
}

/// What `hayro-jbig2` makes of an embedded JBIG2 page `data` with the
/// optional shared segments `globals`: 8-bit gray pixels (0 black, 255
/// white), width and height; or, on failure, whether it failed while
/// decoding (rather than parsing) and the debug text of the error.
pub uninterp spec fn jbig2_decoded(data: Seq<u8>, globals: Option<Seq<u8>>) -> Result<
    (Seq<u8>, u32, u32),
    (bool, Seq<char>),
>;

/// Parses `globals` with `hayro_jbig2::Globals::new` and the page with
/// `hayro_jbig2::Page::new_embedded`, and decodes the page to 8-bit gray
/// through the crate's `image` decoder (`DynamicImage::from_decoder`,
/// `into_luma8`).  Trusted: the result is `jbig2_decoded(data, globals)`,
/// one byte per pixel.
#[verifier::external_body]
fn jbig2_gray(data: &[u8], globals: Option<&[u8]>) -> (r: Result<(Vec<u8>, u32, u32), (bool, String)>)
    ensures
        match jbig2_decoded(data@, match globals { Some(g) => Some(g@), None => None }) {
            Ok((p, w, h)) => r matches Ok((v, w2, h2)) && v@ == p && w2 == w && h2 == h && p.len() == w * h,
            Err((stage, m)) => r matches Err((s2, e)) && s2 == stage && e@ == m,
        },
{
    let settings = hayro_jbig2::DecodeSettings::default();
    let parsed = match globals {
        Some(g) => Some(hayro_jbig2::Globals::new(g, &settings).map_err(|e| (false, format!("{e:?}")))?),
        None => None,
    };
    let page = hayro_jbig2::Page::new_embedded(data, parsed.as_ref(), &settings).map_err(|e| (false, format!("{e:?}")))?;
    let (w, h) = (page.width(), page.height());
    let img = image::DynamicImage::from_decoder(page).map_err(|e| (true, format!("{e:?}")))?;
    Ok((img.into_luma8().into_raw(), w, h))
}

/// A decoded JBIG2 image: gray pixels, width and height from the
/// codestream.
pub open spec fn spec_decode_jbig2(data: Seq<u8>, globals: Option<Seq<u8>>) -> Result<(Seq<u8>, u32, u32), Seq<char>> {
    match jbig2_decoded(data, globals) {
        Ok(x) => Ok(x),
        Err((false, m)) => Err("JBIG2: "@ + m),
        Err((true, m)) => Err("JBIG2 decode: "@ + m),
    }
}

/// Decodes a JBIG2 image to 8-bit gray (0 black, 255 white), with the
/// dimensions of the codestream.  `globals` is the optional shared
/// symbol-dictionary stream.
pub fn decode_jbig2(data: &[u8], globals: Option<&[u8]>) -> (r: Result<(Vec<u8>, u32, u32), String>)
    ensures
        match spec_decode_jbig2(data@, match globals { Some(g) => Some(g@), None => None }) {
            Ok((p, w, h)) => r matches Ok((v, w2, h2)) && v@ == p && w2 == w && h2 == h && p.len() == w * h,
            Err(m) => r matches Err(e) && e@ == m,
        },
{
    match jbig2_gray(data, globals) {
        Ok(x) => Ok(x),
        Err((false, e)) => {
            let mut m = String::from_str("JBIG2: ");
            m.append(e.as_str());
            Err(m)
        },
        Err((true, e)) => {
            let mut m = String::from_str("JBIG2 decode: ");
            m.append(e.as_str());
            Err(m)
        },
    }
}

} // verus!
