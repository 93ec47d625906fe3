use pdf_compress::filters::apply_filter;
use pdf_compress::model::{DecodeParms, FlagEntry, GlobalsEntry, ParmDict, ParmEntry};
use pdf_compress::params::{read_predictor, select_parms};
use pdf_compress::predictor::{depngify, paeth};
use pdf_compress::runlength::decode_runlength;
use pdf_compress::samples::{expand_samples, interpret_raw, raw_bounds_ok, scale_gray};
use std::io::Write;

fn parms(predictor: Option<i64>, colors: Option<i64>, bpc: Option<i64>, columns: Option<i64>) -> ParmDict {
    ParmDict {
        predictor,
        colors,
        bits_per_component: bpc,
        columns,
        k: None,
        black_is_1: FlagEntry::Missing,
        jbig2_globals: GlobalsEntry::Missing,
    }
}

fn cmyk_float(c: u8, m: u8, y: u8, k: u8) -> (u8, u8, u8) {
    let c = c as f32 / 255.0;
    let m = m as f32 / 255.0;
    let y = y as f32 / 255.0;
    let k = k as f32 / 255.0;
    (
        ((1.0 - c) * (1.0 - k) * 255.0) as u8,
        ((1.0 - m) * (1.0 - k) * 255.0) as u8,
        ((1.0 - y) * (1.0 - k) * 255.0) as u8,
    )
}

fn zlib(data: &[u8]) -> Vec<u8> {
    let mut e = flate2::write::ZlibEncoder::new(Vec::new(), flate2::Compression::default());
    e.write_all(data).unwrap();
    e.finish().unwrap()
}

#[test]
fn paeth_picks_nearest_neighbour() {
    assert_eq!(paeth(10, 20, 15), 15);
    assert_eq!(paeth(1, 2, 3), 1);
    assert_eq!(paeth(5, 10, 0), 10);
    assert_eq!(paeth(0, 0, 0), 0);
    assert_eq!(paeth(7, 7, 7), 7);
    assert_eq!(paeth(255, 0, 255), 0);
}

#[test]
fn runlength_literal_repeat_and_end_of_data() {
    let data = [2, b'a', b'b', b'c', 254, b'x', 128, 9, 9];
    assert_eq!(decode_runlength(&data).unwrap(), b"abcxxx".to_vec());
    assert_eq!(decode_runlength(&[]).unwrap(), Vec::<u8>::new());
    assert_eq!(decode_runlength(&[129, 7]).unwrap(), vec![7u8; 128]);
    assert_eq!(decode_runlength(&[0, 42]).unwrap(), vec![42u8]);
}

#[test]
fn runlength_errors() {
    assert_eq!(decode_runlength(&[5, 1, 2]).unwrap_err(), "RunLengthDecode: short literal run");
    assert_eq!(decode_runlength(&[200]).unwrap_err(), "RunLengthDecode: short repeated run");
    assert_eq!(decode_runlength(&[0, 1, 255]).unwrap_err(), "RunLengthDecode: short repeated run");
}

#[test]
fn depngify_all_row_filters() {
    let data = [0, 10, 20, 30, 1, 5, 5, 5, 2, 1, 1, 1, 3, 4, 4, 4, 4, 1, 2, 3];
    assert_eq!(
        depngify(&data, 15, 1, 8, 3).unwrap(),
        vec![10, 20, 30, 5, 10, 15, 6, 11, 16, 7, 13, 18, 8, 15, 21]
    );
}

#[test]
fn depngify_two_bytes_per_pixel() {
    let data = [1, 10, 20, 1, 2, 2, 1, 1, 1, 1];
    assert_eq!(depngify(&data, 12, 2, 8, 2).unwrap(), vec![10, 20, 11, 22, 11, 21, 12, 23]);
}

#[test]
fn depngify_sub_byte_rows() {
    // 10 one-bit columns: two bytes per row, one byte per pixel step.
    let data = [1, 0x80, 0x01, 0, 0xff, 0xc0];
    assert_eq!(depngify(&data, 15, 1, 1, 10).unwrap(), vec![0x80, 0x81, 0xff, 0xc0]);
}

#[test]
fn depngify_errors() {
    assert_eq!(
        depngify(&[0, 1], 15, 1, 0, 1).unwrap_err(),
        "PNG predictor with BitsPerComponent 0 not supported"
    );
    assert_eq!(
        depngify(&[0, 1], 15, 1, 17, 1).unwrap_err(),
        "PNG predictor with BitsPerComponent 17 not supported"
    );
    assert_eq!(
        depngify(&[0, 1, 2, 3, 4], 15, 1, 8, 3).unwrap_err(),
        "PNG predictor: data length 5 not divisible by row stride 4"
    );
    assert_eq!(
        depngify(&[0, 1, 2, 7, 1, 1], 15, 1, 8, 2).unwrap_err(),
        "PNG predictor: unknown row filter 7"
    );
    assert_eq!(depngify(&[0], 15, 0x8000_0000, 2, 1).unwrap_err(), "colors*bpc overflow");
}

#[test]
fn expand_samples_skips_row_padding() {
    // Three 1-bit samples per row, rows padded to whole bytes.
    assert_eq!(
        expand_samples(&[0b1011_0000, 0b0100_0000], 3, 2, 1, 1).unwrap(),
        vec![1, 0, 1, 0, 1, 0]
    );
    assert_eq!(expand_samples(&[0b0001_1011], 4, 1, 1, 2).unwrap(), vec![0, 1, 2, 3]);
    assert_eq!(
        expand_samples(&[0xAB, 0xC0, 0xDE, 0xF0], 3, 2, 1, 4).unwrap(),
        vec![10, 11, 12, 13, 14, 15]
    );
}

#[test]
fn expand_samples_short_input() {
    assert_eq!(
        expand_samples(&[0xff], 3, 2, 1, 4).unwrap_err(),
        "expand_samples: need 4 bytes for 2 rows of 2 bytes at 4 bpc, got 1"
    );
}

#[test]
fn scale_gray_stretches_to_full_range() {
    assert_eq!(scale_gray(&[0, 1, 2, 3], 2), vec![0, 85, 170, 255]);
    assert_eq!(scale_gray(&[0, 1], 1), vec![0, 255]);
    assert_eq!(scale_gray(&[0, 7, 8, 15], 4), vec![0, 119, 136, 255]);
    assert_eq!(scale_gray(&[3, 200, 17], 8), vec![3, 200, 17]);
}

#[test]
fn interpret_raw_rgb_gray_and_cmyk() {
    let rgb = [1, 2, 3, 4, 5, 6, 7];
    assert_eq!(interpret_raw(&rgb, 2, 1, "DeviceRGB", 8, &cmyk_float).unwrap(), (vec![1, 2, 3, 4, 5, 6], true));
    assert_eq!(interpret_raw(&[9, 8, 7], 2, 1, "DeviceGray", 8, &cmyk_float).unwrap(), (vec![9, 8], false));
    let cmyk = [0, 0, 0, 0, 255, 0, 0, 0, 0, 0, 0, 255];
    assert_eq!(
        interpret_raw(&cmyk, 3, 1, "DeviceCMYK", 8, &cmyk_float).unwrap(),
        (vec![255, 255, 255, 0, 255, 255, 0, 0, 0], true)
    );
    // One-bit gray: each sample stretched to 0 or 255.
    assert_eq!(
        interpret_raw(&[0b1010_0000], 3, 1, "DeviceGray", 1, &cmyk_float).unwrap(),
        (vec![255, 0, 255], false)
    );
    // Two-bit RGB is stretched per channel.
    assert_eq!(
        interpret_raw(&[0b0001_1011, 0b1100_0000], 2, 1, "DeviceRGB", 2, &cmyk_float).unwrap(),
        (vec![0, 85, 170, 255, 255, 0], true)
    );
}

#[test]
fn interpret_raw_errors() {
    assert_eq!(
        interpret_raw(&[1, 2], 2, 1, "DeviceRGB", 8, &cmyk_float).unwrap_err(),
        "raw RGB: expected 6 bytes, got 2"
    );
    assert_eq!(
        interpret_raw(&[1], 2, 1, "DeviceGray", 8, &cmyk_float).unwrap_err(),
        "raw Gray: expected 2 bytes, got 1"
    );
    assert_eq!(
        interpret_raw(&[1], 1, 1, "Indexed", 8, &cmyk_float).unwrap_err(),
        "color space Indexed not supported for raw"
    );
    assert_eq!(
        interpret_raw(&[1], 1, 1, "Lab", 2, &cmyk_float).unwrap_err(),
        "color space Lab not supported for raw"
    );
    assert_eq!(
        interpret_raw(&[1], 1, 1, "DeviceGray", 16, &cmyk_float).unwrap_err(),
        "BitsPerComponent 16 not supported for raw"
    );
}

#[test]
fn select_parms_by_filter_position() {
    let a = parms(Some(12), None, None, None);
    let b = parms(Some(15), None, None, None);
    let arr = Some(DecodeParms::Array(vec![ParmEntry::Dict(a), ParmEntry::Other, ParmEntry::Dict(b)]));
    assert_eq!(select_parms(&arr, 0).unwrap().predictor, Some(12));
    assert!(select_parms(&arr, 1).is_none());
    assert_eq!(select_parms(&arr, 2).unwrap().predictor, Some(15));
    // Past the end of the array the first entry applies.
    assert_eq!(select_parms(&arr, 7).unwrap().predictor, Some(12));
    assert!(select_parms(&None, 0).is_none());
    assert!(select_parms(&Some(DecodeParms::Other), 0).is_none());
    assert!(select_parms(&Some(DecodeParms::Array(vec![])), 0).is_none());
}

#[test]
fn read_predictor_defaults() {
    let dp = Some(DecodeParms::Dict(parms(None, None, None, None)));
    assert_eq!(read_predictor(&dp, 0), Some((1, 1, 8, 1)));
    let dp = Some(DecodeParms::Dict(parms(Some(15), Some(3), Some(8), Some(100))));
    assert_eq!(read_predictor(&dp, 4), Some((15, 3, 8, 100)));
    assert_eq!(read_predictor(&None, 0), None);
}

#[test]
fn apply_filter_flate_with_png_predictor() {
    let rows = [2u8, 1, 2, 3, 2, 1, 1, 1];
    let dp = Some(DecodeParms::Dict(parms(Some(12), Some(1), Some(8), Some(3))));
    assert_eq!(apply_filter(&zlib(&rows), &dp, "FlateDecode", 0).unwrap(), vec![1, 2, 3, 2, 3, 4]);
    // Predictor below 10: the inflated bytes as they are.
    let dp = Some(DecodeParms::Dict(parms(Some(1), None, None, None)));
    assert_eq!(apply_filter(&zlib(&rows), &dp, "FlateDecode", 0).unwrap(), rows.to_vec());
    assert_eq!(apply_filter(&zlib(b"hello"), &None, "FlateDecode", 0).unwrap(), b"hello".to_vec());
}

#[test]
fn apply_filter_lzw_runlength_and_unknown() {
    let data: Vec<u8> = (0..2000u32).map(|i| (i % 7 + i / 300) as u8).collect();
    let encoded = weezl::encode::Encoder::with_tiff_size_switch(weezl::BitOrder::Msb, 8)
        .encode(&data)
        .unwrap();
    assert_eq!(apply_filter(&encoded, &None, "LZWDecode", 0).unwrap(), data);
    assert_eq!(apply_filter(&[1, 5, 6, 128], &None, "RunLengthDecode", 0).unwrap(), vec![5, 6]);
    assert_eq!(apply_filter(&[1, 2], &None, "ASCIIHexDecode", 0).unwrap_err(), "filter ASCIIHexDecode not implemented");
    assert!(apply_filter(&[1, 2, 3], &None, "FlateDecode", 0).unwrap_err().starts_with("FlateDecode: "));
}

fn png_filter(rows: &[Vec<u8>], types: &[u8], bpp: usize) -> Vec<u8> {
    let mut out = Vec::new();
    for (r, row) in rows.iter().enumerate() {
        let zero = vec![0u8; row.len()];
        let prev = if r == 0 { &zero } else { &rows[r - 1] };
        out.push(types[r]);
        for j in 0..row.len() {
            let left = if j >= bpp { row[j - bpp] } else { 0 };
            let upleft = if j >= bpp { prev[j - bpp] } else { 0 };
            let p = match types[r] {
                0 => 0,
                1 => left,
                2 => prev[j],
                3 => ((left as u16 + prev[j] as u16) / 2) as u8,
                _ => paeth(left, prev[j], upleft),
            };
            out.push(row[j].wrapping_sub(p));
        }
    }
    out
}

#[test]
fn depngify_undoes_png_filtering() {
    let rows: Vec<Vec<u8>> = (0..6).map(|r| (0..9).map(|j| ((r * 37 + j * 91 + r * j * 13) % 256) as u8).collect()).collect();
    let flat: Vec<u8> = rows.concat();
    // Three colors at 8 bits, three columns: 9 bytes a row, 3 bytes a pixel.
    let encoded = png_filter(&rows, &[0, 1, 2, 3, 4, 4], 3);
    for predictor in [10, 12, 15] {
        assert_eq!(depngify(&encoded, predictor, 3, 8, 3).unwrap(), flat);
    }
}

#[test]
fn expand_samples_ignores_trailing_bytes() {
    let raw = [0b1011_0000, 0b0100_0000];
    let mut longer = raw.to_vec();
    longer.extend_from_slice(&[0xff, 0xff, 0xff]);
    assert_eq!(expand_samples(&longer, 3, 2, 1, 1).unwrap(), expand_samples(&raw, 3, 2, 1, 1).unwrap());
    let raw = [0xAB, 0xC0, 0xDE, 0xF0];
    let mut longer = raw.to_vec();
    longer.push(0x55);
    assert_eq!(expand_samples(&longer, 3, 2, 1, 4).unwrap(), expand_samples(&raw, 3, 2, 1, 4).unwrap());
}

#[test]
fn raw_bounds_per_color_space() {
    // 50000 by 50000: the pixel count fits in 32 bits, three bytes a pixel does not.
    assert!(raw_bounds_ok(50_000, 50_000, "DeviceGray", 8));
    assert!(!raw_bounds_ok(50_000, 50_000, "DeviceRGB", 8));
    assert!(!raw_bounds_ok(50_000, 50_000, "DeviceCMYK", 8));
    assert!(!raw_bounds_ok(70_000, 70_000, "DeviceGray", 8));
    assert!(raw_bounds_ok(70_000, 70_000, "Indexed", 8));
    assert!(raw_bounds_ok(1000, 1000, "DeviceRGB", 2));
}

#[test]
fn runlength_streams_concatenate() {
    let a = [1u8, 7, 8, 253, 9];
    let b = [0u8, 42, 128, 1, 2];
    let mut ab = a.to_vec();
    ab.extend_from_slice(&b);
    let mut expected = decode_runlength(&a).unwrap();
    expected.extend(decode_runlength(&b).unwrap());
    assert_eq!(decode_runlength(&ab).unwrap(), expected);
    assert_eq!(expected, vec![7, 8, 9, 9, 9, 9, 42]);
    // An error in the second stream comes through.
    let mut bad = a.to_vec();
    bad.push(200);
    assert_eq!(decode_runlength(&bad).unwrap_err(), "RunLengthDecode: short repeated run");
}
