use pdf_compress::ccitt::decode_ccitt;
use pdf_compress::colorspace::{device_name, resolve_color_space};
use pdf_compress::convert::{convert_to_bw, convert_to_bw_threshold, convert_to_color, encode_g4};
use pdf_compress::decode::{decode_pdf_image, is_decodable};
use pdf_compress::decoders::{decode_jbig2, decode_jpeg};
use pdf_compress::extract::{all_decodable, extract_all_images};
use pdf_compress::model::{
    ColorSpaceObj, DecodeParms, FlagEntry, GlobalsEntry, IccAlternate, IccStream, PageData, ParmDict, ParmEntry,
    PdfImageData,
};
use pdf_compress::params::jbig2_globals;
use pdf_compress::samples::interpret_raw;
use pdf_compress::types::DecodedImage;
use std::io::Write;

fn no_cmyk(c: u8, m: u8, y: u8, k: u8) -> (u8, u8, u8) {
    (255 - c.max(k), 255 - m.max(k), 255 - y.max(k))
}

fn dict() -> ParmDict {
    ParmDict {
        predictor: None,
        colors: None,
        bits_per_component: None,
        columns: None,
        k: None,
        black_is_1: FlagEntry::Missing,
        jbig2_globals: GlobalsEntry::Missing,
    }
}

fn g4_parms(columns: i64) -> ParmDict {
    ParmDict { k: Some(-1), columns: Some(columns), ..dict() }
}

fn zlib(data: &[u8]) -> Vec<u8> {
    let mut e = flate2::write::ZlibEncoder::new(Vec::new(), flate2::Compression::default());
    e.write_all(data).unwrap();
    e.finish().unwrap()
}

fn image(id: u32, w: i64, h: i64, filters: &[&str], content: Vec<u8>, cs: Option<&str>) -> PdfImageData {
    PdfImageData {
        id_num: id,
        id_gen: 0,
        width: w,
        height: h,
        color_space: cs.map(|s| s.to_string()),
        filters: if filters.is_empty() { None } else { Some(filters.iter().map(|s| s.to_string()).collect()) },
        bits_per_component: Some(8),
        content,
        decode_parms: None,
        color_space_obj: cs.map(|s| ColorSpaceObj::Name(s.to_string())),
    }
}

/// A 16 by 4 bilevel pattern: a black square on white.
fn pattern() -> Vec<bool> {
    (0..64).map(|i| {
        let (x, y) = (i % 16, i / 16);
        !(x >= 4 && x < 12 && y >= 1 && y < 3)
    })
    .collect()
}

#[test]
fn device_names_pass_through() {
    assert_eq!(device_name("DeviceGray"), Some("DeviceGray".to_string()));
    assert_eq!(device_name("DeviceRGB"), Some("DeviceRGB".to_string()));
    assert_eq!(device_name("DeviceCMYK"), Some("DeviceCMYK".to_string()));
    assert_eq!(device_name("Indexed"), None);
    assert_eq!(device_name("devicergb"), None);
}

#[test]
fn color_space_resolution() {
    let name = |s: &str| Some(ColorSpaceObj::Name(s.to_string()));
    let arr = |f: &str, icc: IccStream| Some(ColorSpaceObj::Array { family: Some(f.to_string()), icc });
    assert_eq!(resolve_color_space(&name("DeviceRGB")), Some("DeviceRGB".to_string()));
    assert_eq!(resolve_color_space(&name("Pattern")), None);
    assert_eq!(resolve_color_space(&arr("CalGray", IccStream::Unresolved)), Some("DeviceGray".to_string()));
    assert_eq!(resolve_color_space(&arr("CalRGB", IccStream::Unresolved)), Some("DeviceRGB".to_string()));
    let icc = |n: Option<i64>, alternate: IccAlternate| arr("ICCBased", IccStream::Resolved { n, alternate });
    assert_eq!(resolve_color_space(&icc(Some(1), IccAlternate::Missing)), Some("DeviceGray".to_string()));
    assert_eq!(resolve_color_space(&icc(Some(3), IccAlternate::Missing)), Some("DeviceRGB".to_string()));
    assert_eq!(resolve_color_space(&icc(Some(4), IccAlternate::Missing)), Some("DeviceCMYK".to_string()));
    assert_eq!(
        resolve_color_space(&icc(Some(2), IccAlternate::Name("DeviceRGB".to_string()))),
        Some("DeviceRGB".to_string())
    );
    assert_eq!(resolve_color_space(&icc(None, IccAlternate::Name("Lab".to_string()))), None);
    assert_eq!(resolve_color_space(&icc(None, IccAlternate::Other)), None);
    assert_eq!(resolve_color_space(&arr("ICCBased", IccStream::Unresolved)), None);
    assert_eq!(resolve_color_space(&arr("Indexed", IccStream::Unresolved)), None);
    assert_eq!(
        resolve_color_space(&Some(ColorSpaceObj::Array { family: None, icc: IccStream::Unresolved })),
        None
    );
    assert_eq!(resolve_color_space(&Some(ColorSpaceObj::Other)), None);
    assert_eq!(resolve_color_space(&None), None);
}

#[test]
fn jbig2_globals_lookup() {
    let globals = ParmDict { jbig2_globals: GlobalsEntry::Reference(Some(vec![1, 2, 3])), ..dict() };
    let filters = Some(vec!["FlateDecode".to_string(), "JBIG2Decode".to_string()]);
    // Array aligned with the filters: the entry at the JBIG2 position.
    let dp = Some(DecodeParms::Array(vec![ParmEntry::Dict(dict()), ParmEntry::Dict(globals.clone())]));
    assert_eq!(jbig2_globals(&filters, &dp), Some(vec![1, 2, 3]));
    // Entry at the JBIG2 position is not a dictionary: the first one with the key.
    let dp = Some(DecodeParms::Array(vec![ParmEntry::Dict(globals.clone()), ParmEntry::Other]));
    assert_eq!(jbig2_globals(&filters, &dp), Some(vec![1, 2, 3]));
    let dp = Some(DecodeParms::Dict(globals.clone()));
    assert_eq!(jbig2_globals(&filters, &dp), Some(vec![1, 2, 3]));
    // No JBIG2 filter, no parameters, or an unusable entry.
    assert_eq!(jbig2_globals(&Some(vec!["FlateDecode".to_string()]), &dp), None);
    assert_eq!(jbig2_globals(&None, &dp), None);
    assert_eq!(jbig2_globals(&filters, &None), None);
    let dp = Some(DecodeParms::Dict(ParmDict { jbig2_globals: GlobalsEntry::Reference(None), ..dict() }));
    assert_eq!(jbig2_globals(&filters, &dp), None);
    let dp = Some(DecodeParms::Dict(ParmDict { jbig2_globals: GlobalsEntry::Other, ..dict() }));
    assert_eq!(jbig2_globals(&filters, &dp), None);
}

#[test]
fn g4_encoding_round_trips_through_ccitt_decoding() {
    let px = pattern();
    let c = encode_g4(&px, 16, 4, 7).unwrap();
    assert_eq!((c.width, c.height, c.bits_per_component, c.is_ccitt, c.dpi_bits), (16, 4, 1, true, 7));
    assert_eq!(c.color_space, "DeviceGray");
    assert_eq!(c.filter, "CCITTFaxDecode");
    let dp = Some(DecodeParms::Dict(g4_parms(16)));
    let (gray, is_color) = decode_ccitt(&c.data, 16, 4, &dp, 0).unwrap();
    assert!(!is_color);
    let expected: Vec<u8> = px.iter().map(|&w| if w { 255 } else { 0 }).collect();
    assert_eq!(gray, expected);
}

#[test]
fn ccitt_black_is_1_swaps_colors() {
    let px = pattern();
    let c = encode_g4(&px, 16, 4, 0).unwrap();
    let dp = Some(DecodeParms::Dict(ParmDict { black_is_1: FlagEntry::Boolean(true), ..g4_parms(16) }));
    let (gray, _) = decode_ccitt(&c.data, 16, 4, &dp, 0).unwrap();
    let expected: Vec<u8> = px.iter().map(|&w| if w { 0 } else { 255 }).collect();
    assert_eq!(gray, expected);
    // An integer 1 counts as true too.
    let dp = Some(DecodeParms::Dict(ParmDict { black_is_1: FlagEntry::Integer(1), ..g4_parms(16) }));
    assert_eq!(decode_ccitt(&c.data, 16, 4, &dp, 0).unwrap().0, expected);
}

#[test]
fn ccitt_output_is_fitted_to_the_image_size() {
    let px = pattern();
    let c = encode_g4(&px, 16, 4, 0).unwrap();
    let dp = Some(DecodeParms::Dict(g4_parms(16)));
    // Taller than the stream: the extra rows are white.
    let (gray, _) = decode_ccitt(&c.data, 16, 6, &dp, 0).unwrap();
    assert_eq!(gray.len(), 96);
    assert!(gray[64..].iter().all(|&v| v == 255));
    // Garbage still yields exactly width * height bytes.
    let (gray, _) = decode_ccitt(&[0xff, 0x00, 0x13], 10, 3, &None, 0).unwrap();
    assert_eq!(gray.len(), 30);
}

#[test]
fn ccitt_parameters_follow_the_filter_position() {
    let px = pattern();
    let c = encode_g4(&px, 16, 4, 0).unwrap();
    let dp = Some(DecodeParms::Array(vec![ParmEntry::Dict(dict()), ParmEntry::Dict(g4_parms(16))]));
    let expected: Vec<u8> = px.iter().map(|&w| if w { 255 } else { 0 }).collect();
    assert_eq!(decode_ccitt(&c.data, 16, 4, &dp, 1).unwrap().0, expected);
    // No decode parameters at all: Group 4 is tried first.
    assert_eq!(decode_ccitt(&c.data, 16, 4, &None, 0).unwrap().0, expected);
}

#[test]
fn threshold_conversion_gray_and_rgb() {
    let gray = DecodedImage { width: 4, height: 1, data: vec![0, 128, 129, 255], is_color: false, dpi_bits: 3 };
    let c = convert_to_bw_threshold(&gray, 128).unwrap();
    let (px, _) = decode_ccitt(&c.data, 4, 1, &Some(DecodeParms::Dict(g4_parms(4))), 0).unwrap();
    assert_eq!(px, vec![0, 0, 255, 255]);
    assert_eq!(c.dpi_bits, 3);
    // Luminance 299 r + 587 g + 114 b over 1000: pure red is 76, so black.
    let rgb = DecodedImage { width: 2, height: 1, data: vec![255, 0, 0, 255, 255, 255], is_color: true, dpi_bits: 0 };
    let c = convert_to_bw(&rgb).unwrap();
    let (px, _) = decode_ccitt(&c.data, 2, 1, &Some(DecodeParms::Dict(g4_parms(2))), 0).unwrap();
    assert_eq!(px, vec![0, 255]);
    let c = convert_to_bw_threshold(&rgb, 50).unwrap();
    let (px, _) = decode_ccitt(&c.data, 2, 1, &Some(DecodeParms::Dict(g4_parms(2))), 0).unwrap();
    assert_eq!(px, vec![255, 255]);
}

#[test]
fn jpeg_round_trip_keeps_size_and_kind() {
    let rgb: Vec<u8> = (0..8 * 6 * 3).map(|i| (i * 5 % 256) as u8).collect();
    let img = DecodedImage { width: 8, height: 6, data: rgb, is_color: true, dpi_bits: 9 };
    let c = convert_to_color(&img, 30).unwrap();
    assert_eq!((c.width, c.height, c.bits_per_component, c.is_ccitt, c.dpi_bits), (8, 6, 8, false, 9));
    assert_eq!(c.color_space, "DeviceRGB");
    assert_eq!(c.filter, "DCTDecode");
    let (px, is_color, w, h) = decode_jpeg(&c.data).unwrap();
    assert_eq!((is_color, w, h, px.len()), (true, 8, 6, 144));

    let gray = DecodedImage { width: 5, height: 3, data: vec![200; 15], is_color: false, dpi_bits: 0 };
    let c = convert_to_color(&gray, 80).unwrap();
    assert_eq!(c.color_space, "DeviceGray");
    let (px, is_color, w, h) = decode_jpeg(&c.data).unwrap();
    assert_eq!((is_color, w, h, px.len()), (false, 5, 3, 15));
    assert!(px.iter().all(|&v| (v as i32 - 200).abs() <= 3));
}

#[test]
fn jpeg_and_jbig2_errors() {
    assert!(decode_jpeg(&[1, 2, 3]).unwrap_err().starts_with("JPEG decode: "));
    assert!(decode_jbig2(&[1, 2, 3], None).unwrap_err().starts_with("JBIG2"));
    let zero = DecodedImage { width: 0, height: 0, data: vec![], is_color: false, dpi_bits: 0 };
    assert!(convert_to_color(&zero, 30).unwrap_err().starts_with("JPEG encode: "));
}

#[test]
fn decode_raw_images() {
    let gray = image(1, 2, 2, &["FlateDecode"], zlib(&[1, 2, 3, 4]), Some("DeviceGray"));
    let d = decode_pdf_image(&gray, 42, &no_cmyk).unwrap();
    assert_eq!((d.width, d.height, d.is_color, d.dpi_bits), (2, 2, false, 42));
    assert_eq!(d.data, vec![1, 2, 3, 4]);
    // No color space at all reads as RGB.
    let rgb = image(2, 1, 1, &[], vec![9, 8, 7], None);
    let d = decode_pdf_image(&rgb, 0, &no_cmyk).unwrap();
    assert_eq!((d.data, d.is_color), (vec![9, 8, 7], true));
    // CMYK goes through the conversion.
    let cmyk = image(3, 1, 1, &["RunLengthDecode"], vec![3, 0, 0, 0, 255, 128], Some("DeviceCMYK"));
    let d = decode_pdf_image(&cmyk, 0, &no_cmyk).unwrap();
    assert_eq!((d.data, d.is_color), (vec![0, 0, 0], true));
}

#[test]
fn decode_errors() {
    let zero = image(1, 0, 5, &[], vec![], Some("DeviceGray"));
    assert_eq!(decode_pdf_image(&zero, 0, &no_cmyk).unwrap_err(), "zero dimension image");
    let jpx = image(2, 4, 4, &["JPXDecode"], vec![0; 10], None);
    assert_eq!(decode_pdf_image(&jpx, 0, &no_cmyk).unwrap_err(), "JPEG2000 not supported");
    let bad = image(3, 4, 4, &["DCTDecode"], vec![0; 10], None);
    assert!(decode_pdf_image(&bad, 0, &no_cmyk).unwrap_err().starts_with("JPEG decode: "));
    let unknown = image(4, 1, 1, &["ASCII85Decode"], vec![0; 3], None);
    assert_eq!(decode_pdf_image(&unknown, 0, &no_cmyk).unwrap_err(), "filter ASCII85Decode not implemented");
    let short = image(5, 3, 3, &[], vec![0; 3], Some("DeviceGray"));
    assert_eq!(decode_pdf_image(&short, 0, &no_cmyk).unwrap_err(), "raw Gray: expected 9 bytes, got 3");
}

#[test]
fn decode_jpeg_wrapped_in_flate() {
    let rgb: Vec<u8> = vec![120; 4 * 4 * 3];
    let jpeg = convert_to_color(&DecodedImage { width: 4, height: 4, data: rgb, is_color: true, dpi_bits: 0 }, 50)
        .unwrap()
        .data;
    // The dictionary's size is ignored: the JPEG's own is used.
    let img = image(1, 100, 100, &["FlateDecode", "DCTDecode"], zlib(&jpeg), Some("DeviceRGB"));
    let d = decode_pdf_image(&img, 5, &no_cmyk).unwrap();
    assert_eq!((d.width, d.height, d.is_color, d.data.len(), d.dpi_bits), (4, 4, true, 48, 5));
}

#[test]
fn decode_ccitt_image_from_a_page() {
    let px = pattern();
    let c = encode_g4(&px, 16, 4, 0).unwrap();
    let mut img = image(1, 16, 4, &["CCITTFaxDecode"], c.data, Some("DeviceGray"));
    img.decode_parms = Some(DecodeParms::Dict(g4_parms(16)));
    let d = decode_pdf_image(&img, 0, &no_cmyk).unwrap();
    assert_eq!((d.width, d.height, d.is_color), (16, 4, false));
    assert_eq!(d.data, px.iter().map(|&w| if w { 255 } else { 0 }).collect::<Vec<u8>>());
}

#[test]
fn extract_keeps_largest_fresh_image_per_page() {
    let small = image(1, 1, 1, &[], vec![7], Some("DeviceGray"));
    let big = image(2, 2, 2, &[], vec![1, 2, 3, 4], Some("DeviceGray"));
    let other_big = image(3, 4, 1, &[], vec![5, 6, 7, 8], Some("DeviceGray"));
    let broken = image(4, 9, 9, &[], vec![], Some("DeviceGray"));
    let pages = vec![
        PageData { page_num: 1, dpi_bits: 10, images: Ok(vec![small.clone(), big.clone(), other_big, broken]) },
        // Image 2 was already decoded on page 1: page 2 keeps only image 1's twin.
        PageData { page_num: 2, dpi_bits: 20, images: Ok(vec![big.clone(), image(5, 1, 1, &[], vec![9], Some("DeviceGray"))]) },
        // Nothing new here: the page is left out.
        PageData { page_num: 3, dpi_bits: 30, images: Ok(vec![small, big]) },
        PageData { page_num: 4, dpi_bits: 40, images: Ok(vec![]) },
    ];
    let out = extract_all_images(&pages, &no_cmyk).unwrap();
    assert_eq!(out.len(), 2);
    assert_eq!(out[0].0, 1);
    // Equal areas: the first one stays.
    assert_eq!((out[0].1.width, out[0].1.height, out[0].1.data.clone()), (2, 2, vec![1, 2, 3, 4]));
    assert_eq!(out[0].1.dpi_bits, 10);
    assert_eq!((out[1].0, out[1].1.data.clone(), out[1].1.dpi_bits), (2, vec![9], 20));
    // Every kept image holds exactly its pixels.
    for (_, img) in &out {
        assert_eq!(img.data.len(), (img.width * img.height) as usize);
    }
}

#[test]
fn extract_fails_on_first_unlistable_page() {
    let pages = vec![
        PageData { page_num: 1, dpi_bits: 0, images: Ok(vec![image(1, 1, 1, &[], vec![7], Some("DeviceGray"))]) },
        PageData { page_num: 2, dpi_bits: 0, images: Err("bad resources".to_string()) },
        PageData { page_num: 3, dpi_bits: 0, images: Err("other".to_string()) },
    ];
    assert_eq!(extract_all_images(&pages, &no_cmyk).unwrap_err(), "Failed to get page images: bad resources");
    assert!(extract_all_images(&vec![], &no_cmyk).unwrap().is_empty());
}

#[test]
fn size_limits_before_decoding() {
    let huge_raw = image(1, 70_000, 70_000, &[], vec![], Some("DeviceGray"));
    let huge_jpeg = image(2, 70_000, 70_000, &["FlateDecode", "DCTDecode"], vec![], None);
    let huge_fax = image(3, 70_000, 70_000, &["CCITTFaxDecode"], vec![], None);
    let small = image(4, 100, 100, &[], vec![], Some("DeviceRGB"));
    assert!(!is_decodable(&huge_raw));
    assert!(is_decodable(&huge_jpeg));
    assert!(!is_decodable(&huge_fax));
    assert!(is_decodable(&small));
    let pages = vec![
        PageData { page_num: 1, dpi_bits: 0, images: Ok(vec![small.clone(), huge_jpeg]) },
        PageData { page_num: 2, dpi_bits: 0, images: Err("x".to_string()) },
    ];
    assert!(all_decodable(&pages));
    let pages = vec![PageData { page_num: 1, dpi_bits: 0, images: Ok(vec![small, huge_raw]) }];
    assert!(!all_decodable(&pages));
}

#[test]
fn jbig2_blank_page() {
    // A page information segment (3 by 2, default pixel white) and an
    // end-of-page segment, in the embedded organisation.
    let data = [
        0, 0, 0, 0, 0x30, 0, 1, 0, 0, 0, 19, // segment 0: page information, 19 bytes
        0, 0, 0, 3, 0, 0, 0, 2, 0, 0, 0, 0, 0, 0, 0, 0, 0, 0, 0, // width, height, resolutions, flags, striping
        0, 0, 0, 1, 0x31, 0, 1, 0, 0, 0, 0, // segment 1: end of page
    ];
    assert_eq!(decode_jbig2(&data, None).unwrap(), (vec![255; 6], 3, 2));
    let mut img = image(1, 3, 2, &["JBIG2Decode"], data.to_vec(), None);
    img.bits_per_component = Some(1);
    let d = decode_pdf_image(&img, 0, &no_cmyk).unwrap();
    assert_eq!((d.width, d.height, d.is_color, d.data), (3, 2, false, vec![255; 6]));
}

#[test]
fn raw_decoding_is_interpret_raw_of_the_filtered_data() {
    let pixels: Vec<u8> = (0..2 * 3 * 3).map(|i| (i * 11) as u8).collect();
    let img = image(7, 2, 3, &["FlateDecode"], zlib(&pixels), Some("DeviceRGB"));
    let d = decode_pdf_image(&img, 4, &no_cmyk).unwrap();
    let (px, is_color) = interpret_raw(&pixels, 2, 3, "DeviceRGB", 8, &no_cmyk).unwrap();
    assert_eq!((d.data, d.is_color, d.width, d.height, d.dpi_bits), (px, is_color, 2, 3, 4));
    let mut gray = image(8, 3, 1, &[], vec![0b1010_0000], Some("DeviceGray"));
    gray.bits_per_component = Some(1);
    let d = decode_pdf_image(&gray, 0, &no_cmyk).unwrap();
    assert_eq!(d.data, interpret_raw(&[0b1010_0000], 3, 1, "DeviceGray", 1, &no_cmyk).unwrap().0);
}

#[test]
fn large_gray_images_are_decodable() {
    let gray = image(1, 50_000, 50_000, &[], vec![], Some("DeviceGray"));
    let rgb = image(2, 50_000, 50_000, &[], vec![], Some("DeviceRGB"));
    assert!(is_decodable(&gray));
    assert!(!is_decodable(&rgb));
}
