//! Decoding of a page's image XObjects to gray or RGB pixels, and the
//! choice of one image per page.

use vstd::prelude::*;
use crate::ccitt::{ccitt_decoded, decode_ccitt, fit_len, lemma_fit_len};
use crate::colorspace::{resolve_color_space, spec_resolve_color_space};
use crate::decoders::{decode_jbig2, decode_jpeg, spec_decode_jbig2, spec_decode_jpeg};
use crate::filters::{apply_filter, spec_apply_filter};
use crate::model::{DecodeParms, PdfImageData};
use crate::params::{jbig2_globals, spec_jbig2_globals};
use crate::samples::{
    cmyk_converted, interpret_raw, raw_bounds, raw_bounds_ok, spec_interpret_raw, spec_raw_samples, spec_read_pixels,
};
use crate::text::str_eq;
use crate::types::DecodedImage;

verus! {

/// Filters whose output is not raw samples but a self-describing
/// bitstream (JPEG, JPEG 2000, JBIG2) or fax data.
pub open spec fn is_terminal_filter(f: Seq<char>) -> bool {
    f == "DCTDecode"@ || f == "JPXDecode"@ || f == "JBIG2Decode"@ || f == "CCITTFaxDecode"@
}

/// The position of the first terminal filter of `fs`, from `i` on.
pub open spec fn terminal_index(fs: Seq<String>, i: int) -> Option<int>
    decreases fs.len() - i,
{
    if i < 0 || i >= fs.len() {
        None
    } else if is_terminal_filter(fs[i]@) {
        Some(i)
    } else {
        terminal_index(fs, i + 1)
    }
}

proof fn lemma_terminal_index(fs: Seq<String>, i: int)
    ensures
        terminal_index(fs, i) matches Some(j) ==> i <= j < fs.len() && is_terminal_filter(fs[j]@),
    decreases fs.len() - i,
{
    if 0 <= i < fs.len() && !is_terminal_filter(fs[i]@) {
        lemma_terminal_index(fs, i + 1);
    }
}

/// `data` passed through the first `n` filters of `fs`, in order.
pub open spec fn filter_chain(data: Seq<u8>, dp: Option<DecodeParms>, fs: Seq<String>, n: nat) -> Result<
    Seq<u8>,
    Seq<char>,
>
    decreases n,
{
    if n == 0 {
        Ok(data)
    } else {
        match filter_chain(data, dp, fs, (n - 1) as nat) {
            Err(m) => Err(m),
            Ok(d) => spec_apply_filter(d, dp, fs[n - 1]@, n - 1),
        }
    }
}

proof fn lemma_chain_err(data: Seq<u8>, dp: Option<DecodeParms>, fs: Seq<String>, n: nat, m: nat)
    requires
        n <= m,
        filter_chain(data, dp, fs, n) is Err,
    ensures
        filter_chain(data, dp, fs, m) == filter_chain(data, dp, fs, n),
    decreases m - n,
{
    if n < m {
        lemma_chain_err(data, dp, fs, n, (m - 1) as nat);
    }
}

/// The image's filter names (none when it has no `/Filter`).
pub open spec fn filter_names(img: PdfImageData) -> Seq<String> {
    match img.filters {
        Some(fs) => fs@,
        None => Seq::empty(),
    }
}

/// The decoding of data that ends in the terminal filter `filter`, at
/// position `idx`: pixels, whether they are RGB, width and height.
pub open spec fn spec_terminal_decode(d: Seq<u8>, filter: Seq<char>, img: PdfImageData, idx: int) -> Result<
    (Seq<u8>, bool, u32, u32),
    Seq<char>,
> {
    let width = img.width as u32;
    let height = img.height as u32;
    if filter == "DCTDecode"@ {
        spec_decode_jpeg(d)
    } else if filter == "JPXDecode"@ {
        Err("JPEG2000 not supported"@)
    } else if filter == "JBIG2Decode"@ {
        match spec_decode_jbig2(d, spec_jbig2_globals(img.filters, img.decode_parms)) {
            Ok((g, w, h)) => Ok((g, false, w, h)),
            Err(m) => Err(m),
        }
    } else {
        Ok(
            (
                fit_len(ccitt_decoded(d, width, height, img.decode_parms, idx), (width * height) as nat),
                false,
                width,
                height,
            ),
        )
    }
}

/// The color space raw samples are read in: the resolved `/ColorSpace`,
/// else the family name the parser reports, else `DeviceRGB`.
pub open spec fn raw_color_space(img: PdfImageData) -> Seq<char> {
    match spec_resolve_color_space(img.color_space_obj) {
        Some(n) => n,
        None => match img.color_space {
            Some(s) => s@,
            None => "DeviceRGB"@,
        },
    }
}

/// Bits per component of raw samples, 8 by default.
pub open spec fn raw_bpc(img: PdfImageData) -> u32 {
    match img.bits_per_component {
        Some(b) => b as u32,
        None => 8,
    }
}

/// `r` is an image with the given pixels, dimensions and resolution.
pub open spec fn is_decoded(r: Result<DecodedImage, String>, px: Seq<u8>, c: bool, w: u32, h: u32, dpi_bits: u64) -> bool {
    r matches Ok(x) && x.data@ == px && x.is_color == c && x.width == w && x.height == h && x.dpi_bits == dpi_bits
}

/// `r` is the error with message `m`.
pub open spec fn is_error(r: Result<DecodedImage, String>, m: Seq<char>) -> bool {
    r matches Err(e) && e@ == m
}

/// Whether an image's buffer holds exactly its pixels: three bytes each
/// for RGB, one for gray.
pub open spec fn holds_exact_pixels(x: DecodedImage) -> bool {
    x.data@.len() == x.width * x.height * (if x.is_color { 3int } else { 1int })
}

/// Whether an image is read as raw CMYK samples, which are converted
/// four at a time without checking their count against the size.
pub open spec fn is_raw_cmyk(img: PdfImageData) -> bool {
    terminal_index(filter_names(img), 0) is None && raw_color_space(img) == "DeviceCMYK"@
}

/// What decoding an image XObject yields.  Images whose filter chain
/// ends in a terminal filter (JPEG, JPEG 2000, JBIG2, CCITT) have the
/// filters before it undone and are handed to that decoder; all others
/// have every filter undone and are read as raw samples by color space
/// and bits per component.  CMYK samples are converted by `cmyk_to_rgb`,
/// so for them the result is described by the conversion's contract.
/// Every other decoded image holds exactly its pixels.
pub open spec fn decode_outcome<F: Fn(u8, u8, u8, u8) -> (u8, u8, u8)>(
    img: PdfImageData,
    dpi_bits: u64,
    cmyk_to_rgb: F,
    r: Result<DecodedImage, String>,
) -> bool {
    &&& decode_result(img, dpi_bits, cmyk_to_rgb, r)
    &&& r matches Ok(x) ==> holds_exact_pixels(x) || is_raw_cmyk(img)
}

/// The decoding result `decode_outcome` describes, case by case.
pub open spec fn decode_result<F: Fn(u8, u8, u8, u8) -> (u8, u8, u8)>(
    img: PdfImageData,
    dpi_bits: u64,
    cmyk_to_rgb: F,
    r: Result<DecodedImage, String>,
) -> bool {
    let width = img.width as u32;
    let height = img.height as u32;
    let fs = filter_names(img);
    if width == 0 || height == 0 {
        is_error(r, "zero dimension image"@)
    } else {
        match terminal_index(fs, 0) {
            Some(idx) => match filter_chain(img.content@, img.decode_parms, fs, idx as nat) {
                Err(m) => is_error(r, m),
                Ok(d) => match spec_terminal_decode(d, fs[idx]@, img, idx) {
                    Ok((px, c, w, h)) => is_decoded(r, px, c, w, h, dpi_bits),
                    Err(m) => is_error(r, m),
                },
            },
            None => match filter_chain(img.content@, img.decode_parms, fs, fs.len()) {
                Err(m) => is_error(r, m),
                Ok(d) => {
                    let cs = raw_color_space(img);
                    match spec_raw_samples(d, width, height, cs, raw_bpc(img)) {
                        Err(m) => is_error(r, m),
                        Ok(s) => if cs == "DeviceCMYK"@ {
                            r matches Ok(x) && x.is_color && cmyk_converted(cmyk_to_rgb, s, x.data@) && x.width
                                == width && x.height == height && x.dpi_bits == dpi_bits
                        } else {
                            match spec_read_pixels(s, width, height, cs) {
                                Ok((px, c)) => is_decoded(r, px, c, width, height, dpi_bits),
                                Err(m) => is_error(r, m),
                            }
                        },
                    }
                },
            },
        }
    }
}

/// The size limits under which reading an image's raw samples does no
/// arithmetic that would overflow (`raw_bounds`, for the color space and
/// depth the samples are read in).
pub open spec fn raw_size_ok(img: PdfImageData) -> bool {
    raw_bounds(img.width as u32, img.height as u32, raw_color_space(img), raw_bpc(img))
}

/// The size limits under which decoding does no arithmetic that would
/// overflow: none for JPEG, JPEG 2000 and JBIG2 streams, which carry
/// their own dimensions; the pixel count must fit in 32 bits for fax
/// streams; and raw samples must satisfy `raw_size_ok`.
pub open spec fn decodable_size(img: PdfImageData) -> bool {
    let fs = filter_names(img);
    match terminal_index(fs, 0) {
        Some(i) => fs[i]@ == "CCITTFaxDecode"@ ==> (img.width as u32) * (img.height as u32) <= u32::MAX,
        None => raw_size_ok(img),
    }
}

fn first_terminal(fs: &Vec<String>) -> (r: Option<usize>)
    ensures
        match r {
            Some(j) => terminal_index(fs@, 0) == Some(j as int) && j < fs@.len(),
            None => terminal_index(fs@, 0) is None,
        },
{
    let mut i: usize = 0;
    while i < fs.len()
        invariant
            i <= fs.len(),
            terminal_index(fs@, 0) == terminal_index(fs@, i as int),
        decreases fs.len() - i,
    {
        let f = fs[i].as_str();
        if str_eq(f, "DCTDecode") || str_eq(f, "JPXDecode") || str_eq(f, "JBIG2Decode") || str_eq(
            f,
            "CCITTFaxDecode",
        ) {
            return Some(i);
        }
        i += 1;
    }
    None
}

/// Whether an image's size is within what decoding handles
/// (`decodable_size`), for callers to test before decoding.
pub fn is_decodable(img: &PdfImageData) -> (r: bool)
    ensures
        r == decodable_size(*img),
{
    let w = img.width as u32;
    let h = img.height as u32;
    let empty: Vec<String> = Vec::new();
    let filters: &Vec<String> = match &img.filters {
        Some(fs) => fs,
        None => &empty,
    };
    assert(filters@ == filter_names(*img));
    let (w128, h128) = (w as u128, h as u128);
    assert(w128 * h128 <= 0xffff_ffff * 0xffff_ffff) by (nonlinear_arith)
        requires
            w128 <= 0xffff_ffff,
            h128 <= 0xffff_ffff,
    ;
    let area = w128 * h128;
    match first_terminal(filters) {
        Some(i) => {
            proof {
                lemma_terminal_index(filters@, 0);
            }
            if str_eq(filters[i].as_str(), "CCITTFaxDecode") {
                area <= 0xffff_ffff
            } else {
                true
            }
        },
        None => {
            let cs = raw_color_space_of(img);
            raw_bounds_ok(w, h, cs.as_str(), raw_bpc_of(img))
        },
    }
}

/// Applies the first `n` filters of `fs` to `content`.
fn run_filters(content: &Vec<u8>, dp: &Option<DecodeParms>, fs: &Vec<String>, n: usize) -> (r: Result<Vec<u8>, String>)
    requires
        n <= fs.len(),
    ensures
        match filter_chain(content@, *dp, fs@, n as nat) {
            Ok(d) => r matches Ok(v) && v@ == d,
            Err(m) => r matches Err(e) && e@ == m,
        },
{
    let mut data: Vec<u8> = vstd::slice::slice_to_vec(content.as_slice());
    let mut i: usize = 0;
    while i < n
        invariant
            i <= n,
            n <= fs.len(),
            filter_chain(content@, *dp, fs@, i as nat) == Ok::<Seq<u8>, Seq<char>>(data@),
        decreases n - i,
    {
        match apply_filter(data.as_slice(), dp, fs[i].as_str(), i) {
            Ok(v) => {
                data = v;
            },
            Err(e) => {
                proof {
                    lemma_chain_err(content@, *dp, fs@, (i + 1) as nat, n as nat);
                }
                return Err(e);
            },
        }
        i += 1;
    }
    Ok(data)
}

/// Decodes data whose last filter is the terminal filter `f`.
fn decode_terminal(data: &Vec<u8>, f: &str, img: &PdfImageData, idx: usize, dpi_bits: u64) -> (r: Result<
    DecodedImage,
    String,
>)
    requires
        is_terminal_filter(f@),
        f@ == "CCITTFaxDecode"@ ==> (img.width as u32) * (img.height as u32) <= u32::MAX,
    ensures
        match spec_terminal_decode(data@, f@, *img, idx as int) {
            Ok((px, c, w, h)) => is_decoded(r, px, c, w, h, dpi_bits),
            Err(m) => is_error(r, m),
        },
        r matches Ok(x) ==> holds_exact_pixels(x),
{
    let width = img.width as u32;
    let height = img.height as u32;
    if str_eq(f, "DCTDecode") {
        let (px, is_color, w, h) = decode_jpeg(data.as_slice())?;
        Ok(DecodedImage { width: w, height: h, data: px, is_color, dpi_bits })
    } else if str_eq(f, "JPXDecode") {
        Err(String::from_str("JPEG2000 not supported"))
    } else if str_eq(f, "JBIG2Decode") {
        let globals = jbig2_globals(&img.filters, &img.decode_parms);
        let (gray, w, h) = match &globals {
            Some(g) => decode_jbig2(data.as_slice(), Some(g.as_slice()))?,
            None => decode_jbig2(data.as_slice(), None)?,
        };
        Ok(DecodedImage { width: w, height: h, data: gray, is_color: false, dpi_bits })
    } else {
        let (gray, _) = decode_ccitt(data.as_slice(), width, height, &img.decode_parms, idx)?;
        proof {
            lemma_fit_len(
                ccitt_decoded(data@, width, height, img.decode_parms, idx as int),
                (width * height) as nat,
            );
        }
        Ok(DecodedImage { width, height, data: gray, is_color: false, dpi_bits })
    }
}

/// The color space an image's raw samples are read in.
fn raw_color_space_of(img: &PdfImageData) -> (r: String)
    ensures
        r@ == raw_color_space(*img),
{
    match resolve_color_space(&img.color_space_obj) {
        Some(n) => n,
        None => match &img.color_space {
            Some(s) => s.clone(),
            None => String::from_str("DeviceRGB"),
        },
    }
}

/// Bits per component of an image's raw samples.
fn raw_bpc_of(img: &PdfImageData) -> (r: u32)
    ensures
        r == raw_bpc(*img),
{
    match img.bits_per_component {
        Some(b) => b as u32,
        None => 8,
    }
}

/// Reads fully filter-decoded data as raw samples.
fn decode_raw<F: Fn(u8, u8, u8, u8) -> (u8, u8, u8)>(
    data: &Vec<u8>,
    img: &PdfImageData,
    dpi_bits: u64,
    cmyk_to_rgb: &F,
) -> (r: Result<DecodedImage, String>)
    requires
        raw_size_ok(*img),
        forall|c: u8, m: u8, y: u8, k: u8| #[trigger] cmyk_to_rgb.requires((c, m, y, k)),
    ensures
        ({
            let width = img.width as u32;
            let height = img.height as u32;
            let cs = raw_color_space(*img);
            match spec_raw_samples(data@, width, height, cs, raw_bpc(*img)) {
                Err(m) => is_error(r, m),
                Ok(s) => if cs == "DeviceCMYK"@ {
                    r matches Ok(x) && x.is_color && cmyk_converted(*cmyk_to_rgb, s, x.data@) && x.width == width
                        && x.height == height && x.dpi_bits == dpi_bits
                } else {
                    match spec_read_pixels(s, width, height, cs) {
                        Ok((px, c)) => is_decoded(r, px, c, width, height, dpi_bits),
                        Err(m) => is_error(r, m),
                    }
                },
            }
        }),
        r matches Ok(x) ==> holds_exact_pixels(x) || raw_color_space(*img) == "DeviceCMYK"@,
{
    let width = img.width as u32;
    let height = img.height as u32;
    let bpc = raw_bpc_of(img);
    let cs = raw_color_space_of(img);
    let (px, is_color) = interpret_raw(data.as_slice(), width, height, cs.as_str(), bpc, cmyk_to_rgb)?;
    Ok(DecodedImage { width, height, data: px, is_color, dpi_bits })
}

/// Decodes one image XObject to 8-bit gray or RGB pixels, as
/// `decode_outcome` describes.  `dpi_bits` is the page resolution,
/// carried into the result.
pub fn decode_pdf_image<F: Fn(u8, u8, u8, u8) -> (u8, u8, u8)>(
    img: &PdfImageData,
    dpi_bits: u64,
    cmyk_to_rgb: &F,
) -> (r: Result<DecodedImage, String>)
    requires
        decodable_size(*img),
        forall|c: u8, m: u8, y: u8, k: u8| #[trigger] cmyk_to_rgb.requires((c, m, y, k)),
    ensures
        decode_outcome(*img, dpi_bits, *cmyk_to_rgb, r),
{
    let width = img.width as u32;
    let height = img.height as u32;
    if width == 0 || height == 0 {
        return Err(String::from_str("zero dimension image"));
    }
    let empty: Vec<String> = Vec::new();
    let filters: &Vec<String> = match &img.filters {
        Some(fs) => fs,
        None => &empty,
    };
    assert(filters@ == filter_names(*img));
    match first_terminal(filters) {
        Some(idx) => {
            let data = run_filters(&img.content, &img.decode_parms, filters, idx)?;
            proof {
                lemma_terminal_index(filters@, 0);
            }
            decode_terminal(&data, filters[idx].as_str(), img, idx, dpi_bits)
        },
        None => {
            let data = run_filters(&img.content, &img.decode_parms, filters, filters.len())?;
            decode_raw(&data, img, dpi_bits, cmyk_to_rgb)
        },
    }
}

/// Decoding an image that has no JPEG, JPEG 2000, JBIG2 or fax filter is
/// reading, as `interpret_raw` does, the raw samples of its data with all
/// filters undone, at the image's size, color space and depth: for color
/// spaces other than CMYK the result is exactly what `interpret_raw`
/// yields; CMYK pixels are those the conversion gives for each group of
/// four samples, as `interpret_raw` states too, so with a conversion that
/// gives one answer per group both are the same pixels
/// (`lemma_cmyk_conversion_unique`).
pub proof fn lemma_raw_decode_is_interpret_raw<F: Fn(u8, u8, u8, u8) -> (u8, u8, u8)>(
    img: PdfImageData,
    dpi_bits: u64,
    cmyk_to_rgb: F,
    r: Result<DecodedImage, String>,
)
    requires
        decode_outcome(img, dpi_bits, cmyk_to_rgb, r),
        img.width as u32 != 0,
        img.height as u32 != 0,
        terminal_index(filter_names(img), 0) is None,
    ensures
        ({
            let (w, h) = (img.width as u32, img.height as u32);
            let cs = raw_color_space(img);
            let fs = filter_names(img);
            match filter_chain(img.content@, img.decode_parms, fs, fs.len()) {
                Err(m) => is_error(r, m),
                Ok(d) => if cs != "DeviceCMYK"@ {
                    match spec_interpret_raw(d, w, h, cs, raw_bpc(img)) {
                        Ok((px, c)) => is_decoded(r, px, c, w, h, dpi_bits),
                        Err(m) => is_error(r, m),
                    }
                } else {
                    match spec_raw_samples(d, w, h, cs, raw_bpc(img)) {
                        Err(m) => is_error(r, m),
                        Ok(s) => r matches Ok(x) && x.is_color && cmyk_converted(cmyk_to_rgb, s, x.data@)
                            && x.width == w && x.height == h && x.dpi_bits == dpi_bits,
                    }
                },
            }
        }),
{
}

/// When an image's `/ColorSpace` resolves to a device space (a device
/// name, `CalGray`, `CalRGB`, or an ICC profile by its `/N` or
/// `/Alternate`), its raw samples are read in that space, whatever family
/// name the parser reports; only an unresolved color space falls back to
/// that name, and then to `DeviceRGB`.  For resolved spaces other than
/// CMYK the decoded image is exactly what `interpret_raw` makes of the
/// filter-decoded data in the resolved space.
pub proof fn lemma_resolved_color_space_is_used<F: Fn(u8, u8, u8, u8) -> (u8, u8, u8)>(
    img: PdfImageData,
    dpi_bits: u64,
    cmyk_to_rgb: F,
    r: Result<DecodedImage, String>,
)
    ensures
        spec_resolve_color_space(img.color_space_obj) matches Some(n) ==> raw_color_space(img) == n,
        spec_resolve_color_space(img.color_space_obj) is None ==> raw_color_space(img) == match img.color_space {
            Some(s) => s@,
            None => "DeviceRGB"@,
        },
        ({
            let (w, h) = (img.width as u32, img.height as u32);
            let fs = filter_names(img);
            match spec_resolve_color_space(img.color_space_obj) {
                Some(n) => (decode_outcome(img, dpi_bits, cmyk_to_rgb, r) && w != 0 && h != 0 && terminal_index(fs, 0)
                    is None && n != "DeviceCMYK"@) ==> match filter_chain(img.content@, img.decode_parms, fs, fs.len()) {
                    Err(m) => is_error(r, m),
                    Ok(d) => match spec_interpret_raw(d, w, h, n, raw_bpc(img)) {
                        Ok((px, c)) => is_decoded(r, px, c, w, h, dpi_bits),
                        Err(m) => is_error(r, m),
                    },
                },
                None => true,
            }
        }),
{
    let (w, h) = (img.width as u32, img.height as u32);
    if decode_outcome(img, dpi_bits, cmyk_to_rgb, r) && w != 0 && h != 0 && terminal_index(filter_names(img), 0) is None {
        lemma_raw_decode_is_interpret_raw(img, dpi_bits, cmyk_to_rgb, r);
    }
}

} // verus!
