//! Values exchanged with the user interface and between the pipeline
//! stages.

use vstd::prelude::*;

verus! {

/// How a page is re-encoded.
#[derive(Debug, Clone, Copy, PartialEq, Eq, Structural)]
pub enum Mode {
    /// Bilevel, CCITT Group 4.
    Bw,
    /// JPEG.
    Color,
}

/// What the interface shows of one extracted page image.
#[derive(Debug, Clone)]
pub struct ImageInfo {
    pub index: usize,
    pub page: u32,
    pub width: u32,
    pub height: u32,
    pub is_color: bool,
    pub original_size: usize,
    pub thumbnail: String,
    pub mode: Mode,
}

/// The mode the user picked for the image of the given index.
#[derive(Debug, Clone, Copy)]
pub struct ImageChoice {
    pub index: usize,
    pub mode: Mode,
}

/// The outcome of a compression run.
#[derive(Debug, Clone)]
pub struct CompressResult {
    pub output_path: String,
    pub original_size: u64,
    pub compressed_size: u64,
    pub image_count: usize,
}

/// A decoded page image: 8-bit gray (one byte per pixel) or RGB (three
/// bytes per pixel), row by row.  `dpi_bits` is the bit pattern of the
/// resolution, an IEEE-754 double, carried unchanged.
#[derive(Debug, Clone)]
pub struct DecodedImage {
    pub width: u32,
    pub height: u32,
    pub data: Vec<u8>,
    pub is_color: bool,
    pub dpi_bits: u64,
}

/// A re-encoded page image, ready to be embedded as an image XObject.
#[derive(Debug, Clone)]
pub struct CompressedImage {
    pub data: Vec<u8>,
    pub width: u32,
    pub height: u32,
    pub color_space: String,
    pub bits_per_component: u8,
    pub filter: String,
    pub is_ccitt: bool,
    pub dpi_bits: u64,
}

} // verus!
