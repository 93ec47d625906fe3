//! The parts of a PDF image XObject that decoding reads, held as plain
//! values.  References inside the document are resolved one level when a
//! value of these types is built from a parsed file.

use vstd::prelude::*;

verus! {

/// A `/BlackIs1` entry of a decode-parameter dictionary.
#[derive(Debug, Clone)]
pub enum FlagEntry {
    /// No such key.
    Missing,
    /// A boolean value.
    Boolean(bool),
    /// An integer value.
    Integer(i64),
    /// A value of any other type.
    Other,
}

/// A `/JBIG2Globals` entry of a decode-parameter dictionary.
#[derive(Debug, Clone)]
pub enum GlobalsEntry {
    /// No such key.
    Missing,
    /// An indirect reference, with the decompressed content of the stream
    /// it names, or `None` where it names no stream or decompression
    /// failed.
    Reference(Option<Vec<u8>>),
    /// A direct value of any type.
    Other,
}

/// A decode-parameter dictionary.  An integer entry is `Some` where the
/// key holds an integer and `None` where it is missing or holds another
/// type.
#[derive(Debug, Clone)]
pub struct ParmDict {
    pub predictor: Option<i64>,
    pub colors: Option<i64>,
    pub bits_per_component: Option<i64>,
    pub columns: Option<i64>,
    pub k: Option<i64>,
    pub black_is_1: FlagEntry,
    pub jbig2_globals: GlobalsEntry,
}

/// An element of a `/DecodeParms` array.
#[derive(Debug, Clone)]
pub enum ParmEntry {
    Dict(ParmDict),
    Other,
}

/// The value of an image's `/DecodeParms` key: one dictionary, an array
/// aligned with the `/Filter` array, or a value of another type.
#[derive(Debug, Clone)]
pub enum DecodeParms {
    Dict(ParmDict),
    Array(Vec<ParmEntry>),
    Other,
}

/// The `/Alternate` entry of an ICC profile stream.
#[derive(Debug, Clone)]
pub enum IccAlternate {
    Missing,
    Name(String),
    Other,
}

/// The profile stream named by an `[/ICCBased ...]` color space.
#[derive(Debug, Clone)]
pub enum IccStream {
    /// The second element is a reference to a stream: its `/N` entry (when
    /// an integer) and its `/Alternate` entry.
    Resolved { n: Option<i64>, alternate: IccAlternate },
    /// The second element is missing, is not a reference, or names no
    /// stream.
    Unresolved,
}

/// The value of an image's `/ColorSpace` key (an indirect reference
/// already followed one level).
#[derive(Debug, Clone)]
pub enum ColorSpaceObj {
    /// A name, converted to text.
    Name(String),
    /// An array: its first element when that is a name, and the profile
    /// stream it names when it is `[/ICCBased ref]`.
    Array { family: Option<String>, icc: IccStream },
    /// A value of any other type.
    Other,
}

/// One image XObject of a page.
#[derive(Debug, Clone)]
pub struct PdfImageData {
    /// Object number.
    pub id_num: u32,
    /// Generation number.
    pub id_gen: u16,
    pub width: i64,
    pub height: i64,
    /// The color-space family name as the PDF parser reports it.
    pub color_space: Option<String>,
    /// The `/Filter` names, in order.
    pub filters: Option<Vec<String>>,
    pub bits_per_component: Option<i64>,
    /// The stream's raw (still encoded) bytes.
    pub content: Vec<u8>,
    /// The `/DecodeParms` entry, if present.
    pub decode_parms: Option<DecodeParms>,
    /// The `/ColorSpace` entry, if present and resolvable.
    pub color_space_obj: Option<ColorSpaceObj>,
}

/// One page of a document: its number, its resolution (the bit pattern
/// of an IEEE-754 double, carried unchanged) and its image XObjects, or
/// the message of the error met while listing them.
#[derive(Debug)]
pub struct PageData {
    pub page_num: u32,
    pub dpi_bits: u64,
    pub images: Result<Vec<PdfImageData>, String>,
}

} // verus!
