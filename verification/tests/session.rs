use pdf_compress::session::{
    choose_mode, fmt, fmt_b, image_info, largest_image, most_common_page_size, pick_save_path, save_path_candidate,
    save_path_step,
};
use pdf_compress::types::{DecodedImage, ImageChoice, Mode};

#[test]
fn fmt_small_and_large_sizes() {
    assert_eq!(fmt(0), "0B");
    assert_eq!(fmt(1023), "1023B");
    assert_eq!(fmt(1024), "1K");
    assert_eq!(fmt(1536), "2K");
    assert_eq!(fmt(2560), "2K");
    assert_eq!(fmt(3584), "4K");
    assert_eq!(fmt(1_048_576), "1024K");
    assert_eq!(fmt_b(512), "512B");
    assert_eq!(fmt_b(2048), "2 KB");
    assert_eq!(fmt_b(1535), "1 KB");
}

#[test]
fn fmt_matches_float_formatting() {
    for n in (1024usize..200_000).step_by(97).chain([1536, 2560, 4608, 5632]) {
        assert_eq!(fmt(n), format!("{:.0}K", n as f64 / 1024.0), "n = {n}");
        assert_eq!(fmt_b(n as u64), format!("{:.0} KB", n as f64 / 1024.0), "n = {n}");
    }
}

#[test]
fn mode_choice() {
    let choices = vec![
        ImageChoice { index: 0, mode: Mode::Color },
        ImageChoice { index: 2, mode: Mode::Bw },
        ImageChoice { index: 0, mode: Mode::Bw },
    ];
    // The last choice for an index wins.
    assert_eq!(choose_mode(&choices, 0, true), Mode::Bw);
    assert_eq!(choose_mode(&choices, 2, true), Mode::Bw);
    // Without a choice: color images stay color, gray ones go black and white.
    assert_eq!(choose_mode(&choices, 1, true), Mode::Color);
    assert_eq!(choose_mode(&choices, 1, false), Mode::Bw);
    assert_eq!(choose_mode(&vec![], 5, false), Mode::Bw);
}

#[test]
fn info_of_an_image() {
    let img = DecodedImage { width: 3, height: 2, data: vec![0; 18], is_color: true, dpi_bits: 0 };
    let info = image_info(4, 7, &img, "thumb".to_string());
    assert_eq!((info.index, info.page, info.width, info.height), (4, 7, 3, 2));
    assert!(info.is_color);
    assert_eq!(info.original_size, 18);
    assert_eq!(info.thumbnail, "thumb");
    assert_eq!(info.mode, Mode::Color);
    let gray = DecodedImage { width: 1, height: 1, data: vec![0], is_color: false, dpi_bits: 0 };
    assert_eq!(image_info(0, 1, &gray, String::new()).mode, Mode::Bw);
}

#[test]
fn most_common_size() {
    assert_eq!(most_common_page_size(&vec![]), (612, 792));
    assert_eq!(most_common_page_size(&vec![(1, 2), (3, 4), (3, 4), (1, 2), (3, 4)]), (3, 4));
    // A tie goes to the size met first.
    assert_eq!(most_common_page_size(&vec![(5, 5), (1, 2), (1, 2), (5, 5)]), (5, 5));
    assert_eq!(most_common_page_size(&vec![(595, 842)]), (595, 842));
}

#[test]
fn largest_image_index() {
    assert_eq!(largest_image(&vec![]), None);
    assert_eq!(largest_image(&vec![(10, 10), (20, 20), (5, 5)]), Some(1));
    // Equal areas: the last one, as `max_by_key` picks.
    assert_eq!(largest_image(&vec![(4, 1), (2, 2), (1, 4), (1, 1)]), Some(2));
    assert_eq!(largest_image(&vec![(i64::MAX, 2), (3, 3)]), Some(0));
}

#[test]
fn save_path_candidates() {
    assert_eq!(save_path_candidate("/docs/scan.pdf", 0), "/docs/scan_compressed.pdf");
    assert_eq!(save_path_candidate("/docs/scan.pdf", 1), "/docs/scan_compressed_1.pdf");
    assert_eq!(save_path_candidate("/docs/scan.pdf", 12), "/docs/scan_compressed_12.pdf");
    assert_eq!(save_path_candidate("scan.pdf", 0), "scan_compressed.pdf");
    assert_eq!(save_path_candidate("/docs/archive.tar.pdf", 2), "/docs/archive.tar_compressed_2.pdf");
    assert_eq!(save_path_candidate("/", 0), "./output_compressed.pdf");
}

#[test]
fn save_path_in_a_fresh_directory() {
    assert_eq!(
        pick_save_path("/nonexistent_dir_for_pdf_compress/scan.pdf").unwrap(),
        "/nonexistent_dir_for_pdf_compress/scan_compressed.pdf"
    );
}

#[test]
fn save_path_search_steps() {
    // Nothing exists: the first candidate.
    assert_eq!(save_path_step("/home/u/scan.pdf", 0, false), Ok("/home/u/scan_compressed.pdf".to_string()));
    // The first is taken: go on to counter 1, which is free.
    assert_eq!(save_path_step("/home/u/scan.pdf", 0, true), Err(Some(1)));
    assert_eq!(save_path_step("/home/u/scan.pdf", 1, false), Ok("/home/u/scan_compressed_1.pdf".to_string()));
    // The last counter taken: the search fails.
    assert_eq!(save_path_step("/home/u/scan.pdf", 0x7fff_ffff, true), Err(None));
}

#[test]
fn fmt_rounds_the_float_quotient_of_large_sizes() {
    let two53: u64 = 1 << 53;
    for n in [two53 - 1, two53, two53 + 1, two53 + 1535, two53 + 2047, two53 * 3 + 5, u64::MAX - 1, u64::MAX] {
        assert_eq!(fmt_b(n), format!("{:.0} KB", n as f64 / 1024.0), "n = {n}");
        assert_eq!(fmt(n as usize), format!("{:.0}K", n as f64 / 1024.0), "n = {n}");
    }
    assert_eq!(fmt((two53 + 1535) as usize), "8796093022210K");
}
