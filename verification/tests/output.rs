use pdf_compress::convert::encode_g4;
use pdf_compress::model::{DecodeParms, FlagEntry, GlobalsEntry, ParmDict, ParmEntry};
use pdf_compress::pdf_writer::{write_pdf_bytes, PageLayout};
use pdf_compress::resample::{needs_upscale, upscale};
use pdf_compress::thumbnail::{jpeg_data_url, make_thumbnail};
use pdf_compress::tiff::{raw_export, wrap_g4_as_tiff, RawExport};
use pdf_compress::types::{CompressedImage, DecodedImage};

fn layout(w: &str, h: &str, sw: &str, sh: &str, tx: &str, ty: &str) -> PageLayout {
    PageLayout {
        page_w: w.to_string(),
        page_h: h.to_string(),
        sw: sw.to_string(),
        sh: sh.to_string(),
        tx: tx.to_string(),
        ty: ty.to_string(),
    }
}

fn jpeg_like(data: Vec<u8>) -> CompressedImage {
    CompressedImage {
        data,
        width: 10,
        height: 20,
        color_space: "DeviceRGB".to_string(),
        bits_per_component: 8,
        filter: "DCTDecode".to_string(),
        is_ccitt: false,
        dpi_bits: 0,
    }
}

fn find(hay: &[u8], needle: &[u8]) -> Option<usize> {
    hay.windows(needle.len()).position(|w| w == needle)
}

fn black_is_1(v: FlagEntry) -> DecodeParms {
    DecodeParms::Dict(ParmDict {
        predictor: None,
        colors: None,
        bits_per_component: None,
        columns: None,
        k: Some(-1),
        black_is_1: v,
        jbig2_globals: GlobalsEntry::Missing,
    })
}

#[test]
fn pdf_with_no_pages() {
    let mut w = Vec::new();
    write_pdf_bytes(&vec![], &vec![], &mut w).unwrap();
    let expected = b"%PDF-1.4\n%\xe2\xe3\xcf\xd3\n1 0 obj\n<< /Type /Catalog /Pages 2 0 R >>\nendobj\n\
2 0 obj\n<< /Type /Pages /Count 0 /Kids [] >>\nendobj\n\
xref\n0 3\n0000000000 65535 f \n0000000015 00000 n \n0000000064 00000 n \n\
trailer\n<< /Size 3 /Root 1 0 R >>\nstartxref\n116\n%%EOF\n";
    assert_eq!(w, expected.to_vec());
}

#[test]
fn pdf_page_objects_and_content() {
    let mut w = Vec::new();
    let img = jpeg_like(vec![0xff, 0xd8, 0xff, 0xd9]);
    let lay = layout("612", "792", "612", "792", "0", "0");
    write_pdf_bytes(&vec![img], &vec![lay], &mut w).unwrap();
    let text = String::from_utf8_lossy(&w).to_string();
    assert!(text.contains("2 0 obj\n<< /Type /Pages /Count 1 /Kids [3 0 R ] >>\nendobj\n"));
    assert!(text.contains(
        "3 0 obj\n<< /Type /Page /Parent 2 0 R /MediaBox [0 0 612 792] /Resources << /XObject << /Im0 4 0 R >> >> /Contents 5 0 R >>\nendobj\n"
    ));
    assert!(text.contains(
        "4 0 obj\n<< /Type /XObject /Subtype /Image /Width 10 /Height 20 /ColorSpace /DeviceRGB /BitsPerComponent 8 /Filter /DCTDecode /Length 4 >>\nstream\n"
    ));
    assert!(text.contains("5 0 obj\n<< /Length 31 >>\nstream\nq\n612 0 0 792 0 0 cm\n/Im0 Do\nQ\n\nendstream\nendobj\n"));
    assert!(!text.contains("/DecodeParms"));
}

#[test]
fn pdf_ccitt_image_has_decode_parms() {
    let px = vec![true; 8 * 2];
    let g4 = encode_g4(&px, 8, 2, 0).unwrap();
    let mut w = Vec::new();
    write_pdf_bytes(&vec![g4], &vec![layout("6", "2", "6", "2", "0", "0")], &mut w).unwrap();
    let text = String::from_utf8_lossy(&w).to_string();
    assert!(text.contains(
        "/ColorSpace /DeviceGray /BitsPerComponent 1 /Filter /CCITTFaxDecode /DecodeParms << /K -1 /Columns 8 /Rows 2 >> /Length "
    ));
}

#[test]
fn pdf_xref_offsets_point_at_objects() {
    let imgs = vec![jpeg_like(vec![1, 2, 3]), jpeg_like(vec![4; 300])];
    let lays = vec![
        layout("612", "792", "600", "792", "6", "0"),
        layout("595.5", "842", "595.5", "842", "0", "0"),
    ];
    // Writing after existing bytes: offsets are positions in the whole buffer.
    let mut w = b"JUNK".to_vec();
    write_pdf_bytes(&imgs, &lays, &mut w).unwrap();
    let xref = find(&w, b"xref\n0 9\n").unwrap();
    let tail = String::from_utf8_lossy(&w[xref..]).to_string();
    let start: usize = tail.split("startxref\n").nth(1).unwrap().lines().next().unwrap().parse().unwrap();
    assert_eq!(start, xref);
    let entries: Vec<&str> = tail.lines().skip(3).take(8).collect();
    for (j, e) in entries.iter().enumerate() {
        assert!(e.ends_with(" 00000 n "));
        let off: usize = e[..10].parse().unwrap();
        let head = format!("{} 0 obj\n", j + 1);
        assert_eq!(&w[off..off + head.len()], head.as_bytes());
    }
    assert!(tail.contains("trailer\n<< /Size 9 /Root 1 0 R >>\n"));
    assert!(w.ends_with(b"%%EOF\n"));
}

#[test]
fn pdf_output_parses_back() {
    let px: Vec<bool> = (0..32 * 8).map(|i| (i / 32 + i % 32) % 3 != 0).collect();
    let g4 = encode_g4(&px, 32, 8, 0).unwrap();
    let imgs = vec![g4, jpeg_like(vec![0xff, 0xd8, 0xff, 0xd9])];
    let lays = vec![layout("32", "8", "32", "8", "0", "0"), layout("10", "20", "10", "20", "0", "0")];
    let mut w = Vec::new();
    write_pdf_bytes(&imgs, &lays, &mut w).unwrap();
    let doc = lopdf::Document::load_mem(&w).unwrap();
    let pages = doc.get_pages();
    assert_eq!(pages.len(), 2);
    let first = *pages.get(&1).unwrap();
    let images = doc.get_page_images(first).unwrap();
    assert_eq!(images.len(), 1);
    assert_eq!((images[0].width, images[0].height), (32, 8));
    assert_eq!(images[0].content, &imgs[0].data[..]);
}

#[test]
fn tiff_wrapper_layout() {
    let g4 = vec![0xaa, 0xbb, 0xcc];
    let t = wrap_g4_as_tiff(&g4, 300, 200, &None);
    assert_eq!(t.len(), 134 + 3);
    assert_eq!(&t[..8], &[0x49, 0x49, 42, 0, 8, 0, 0, 0]);
    assert_eq!(&t[8..10], &[10, 0]);
    // First entry: ImageWidth, SHORT, 1, 300.
    assert_eq!(&t[10..22], &[0, 1, 3, 0, 1, 0, 0, 0, 44, 1, 0, 0]);
    // Photometric interpretation entry (fifth): 0, white is zero.
    assert_eq!(&t[58..70], &[6, 1, 3, 0, 1, 0, 0, 0, 0, 0, 0, 0]);
    // Strip offset entry (sixth) points past the directory.
    assert_eq!(&t[70..82], &[17, 1, 4, 0, 1, 0, 0, 0, 134, 0, 0, 0]);
    // Strip byte count entry (ninth).
    assert_eq!(&t[106..118], &[23, 1, 4, 0, 1, 0, 0, 0, 3, 0, 0, 0]);
    assert_eq!(&t[134..], &g4[..]);
}

#[test]
fn tiff_black_is_1_from_first_parameters() {
    let g4 = vec![1];
    let t = wrap_g4_as_tiff(&g4, 1, 1, &Some(black_is_1(FlagEntry::Boolean(true))));
    assert_eq!(t[66], 1);
    let arr = Some(DecodeParms::Array(vec![ParmEntry::Dict(match black_is_1(FlagEntry::Boolean(true)) {
        DecodeParms::Dict(d) => d,
        _ => unreachable!(),
    })]));
    assert_eq!(wrap_g4_as_tiff(&g4, 1, 1, &arr)[66], 1);
    // Only a boolean counts.
    let t = wrap_g4_as_tiff(&g4, 1, 1, &Some(black_is_1(FlagEntry::Integer(1))));
    assert_eq!(t[66], 0);
    let arr = Some(DecodeParms::Array(vec![ParmEntry::Other]));
    assert_eq!(wrap_g4_as_tiff(&g4, 1, 1, &arr)[66], 0);
}

#[test]
fn raw_export_by_last_filter() {
    let f = |v: &[&str]| Some(v.iter().map(|s| s.to_string()).collect::<Vec<String>>());
    assert_eq!(raw_export(&f(&["FlateDecode", "DCTDecode"])), RawExport::Jpeg);
    assert_eq!(raw_export(&f(&["CCITTFaxDecode"])), RawExport::Tiff);
    assert_eq!(raw_export(&f(&["DCTDecode", "FlateDecode"])), RawExport::Skip);
    assert_eq!(raw_export(&f(&[])), RawExport::Skip);
    assert_eq!(raw_export(&None), RawExport::Skip);
}

#[test]
fn data_url_base64() {
    assert_eq!(jpeg_data_url(b""), "data:image/jpeg;base64,");
    assert_eq!(jpeg_data_url(b"M"), "data:image/jpeg;base64,TQ==");
    assert_eq!(jpeg_data_url(b"Ma"), "data:image/jpeg;base64,TWE=");
    assert_eq!(jpeg_data_url(b"Man"), "data:image/jpeg;base64,TWFu");
    assert_eq!(jpeg_data_url(&[0xfb, 0xff, 0xbf]), "data:image/jpeg;base64,+/+/");
    assert_eq!(jpeg_data_url(b"hello world"), "data:image/jpeg;base64,aGVsbG8gd29ybGQ=");
}

#[test]
fn thumbnails() {
    let gray = DecodedImage { width: 40, height: 20, data: vec![128; 800], is_color: false, dpi_bits: 0 };
    let t = make_thumbnail(&gray, 20, 10);
    assert!(t.starts_with("data:image/jpeg;base64,/9j/"));
    let rgb = DecodedImage { width: 4, height: 4, data: vec![10; 48], is_color: true, dpi_bits: 0 };
    assert!(make_thumbnail(&rgb, 4, 4).starts_with("data:image/jpeg;base64,/9j/"));
    // A short pixel buffer gives no thumbnail.
    let short = DecodedImage { width: 4, height: 4, data: vec![10; 47], is_color: true, dpi_bits: 0 };
    assert_eq!(make_thumbnail(&short, 4, 4), "");
    // A zero-sized preview cannot be encoded: only the prefix remains.
    assert_eq!(make_thumbnail(&rgb, 0, 4), "data:image/jpeg;base64,");
}

#[test]
fn upscaling_small_images() {
    assert!(needs_upscale(100, 1500));
    assert!(!needs_upscale(1500, 1500));
    assert!(!needs_upscale(100, 0));
    let img = DecodedImage { width: 2, height: 2, data: vec![0, 255, 255, 0], is_color: false, dpi_bits: 77 };
    let big = upscale(&img, 8, 8, 99);
    assert_eq!((big.width, big.height, big.is_color, big.dpi_bits, big.data.len()), (8, 8, false, 99, 64));
    let rgb = DecodedImage { width: 1, height: 1, data: vec![10, 20, 30], is_color: true, dpi_bits: 0 };
    let big = upscale(&rgb, 3, 2, 0);
    assert_eq!(big.data, vec![10, 20, 30, 10, 20, 30, 10, 20, 30, 10, 20, 30, 10, 20, 30, 10, 20, 30]);
}
