//! Verified core of a scanned-PDF compressor: decoding of PDF image
//! streams, bilevel and JPEG re-encoding, and serialisation of the
//! compressed pages into a new PDF file.

pub mod text;
pub mod types;
pub mod model;
pub mod runlength;
pub mod predictor;
pub mod samples;
pub mod params;
pub mod colorspace;
pub mod filters;
pub mod ccitt;
pub mod decoders;
pub mod decode;
pub mod extract;
pub mod convert;
pub mod pdf_writer;
pub mod tiff;
pub mod resample;
pub mod thumbnail;
pub mod session;

