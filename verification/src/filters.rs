//! The PDF stream filters that compress image data ahead of the raw
//! samples: `FlateDecode`, `RunLengthDecode` and `LZWDecode`, each
//! optionally followed by PNG prediction.

use std::io::Read;
use vstd::prelude::*;
use crate::model::DecodeParms;
use crate::params::{read_predictor, spec_read_predictor};
use crate::predictor::{depngify, spec_depngify};
use crate::runlength::{decode_runlength, spec_runlength};
use crate::text::str_eq;

verus! {

/// What flate2's `ZlibDecoder` reads to the end from `data`: the
/// decompressed bytes, or the text of the error it stops with.
pub uninterp spec fn zlib_inflated(data: Seq<u8>) -> Result<Seq<u8>, Seq<char>>;

/// Inflates a zlib stream with `flate2::read::ZlibDecoder` and
/// `Read::read_to_end`.  Trusted: the result is `zlib_inflated(data)`,
/// a function of the input bytes alone; an error carries the error's
/// display text.
#[verifier::external_body]
fn inflate_zlib(data: &[u8]) -> (r: Result<Vec<u8>, String>)
    ensures
        match zlib_inflated(data@) {
            Ok(o) => r matches Ok(v) && v@ == o,
            Err(m) => r matches Err(e) && e@ == m,
        },
{
    let mut out = Vec::new();
    match flate2::read::ZlibDecoder::new(data).read_to_end(&mut out) {
        Ok(_) => Ok(out),
        Err(e) => Err(format!("{e}")),
    }
}

/// What weezl's LZW decoder, configured as PDF's `LZWDecode` with its
/// default `EarlyChange 1` (most significant bit first, 8-bit symbols,
/// the code width growing one code early), makes of `data`: the decoded
/// bytes, or the debug text of the error.
pub uninterp spec fn lzw_decoded(data: Seq<u8>) -> Result<Seq<u8>, Seq<char>>;

/// Decodes `data` with `weezl::decode::Decoder::with_tiff_size_switch(
/// BitOrder::Msb, 8)`.  Trusted: the result is `lzw_decoded(data)`.
#[verifier::external_body]
fn decode_lzw(data: &[u8]) -> (r: Result<Vec<u8>, String>)
    ensures
        match lzw_decoded(data@) {
            Ok(o) => r matches Ok(v) && v@ == o,
            Err(m) => r matches Err(e) && e@ == m,
        },
{
    match weezl::decode::Decoder::with_tiff_size_switch(weezl::BitOrder::Msb, 8).decode(data) {
        Ok(v) => Ok(v),
        Err(e) => Err(format!("{e:?}")),
    }
}

/// The output of one filter before prediction is undone.
pub open spec fn spec_filter_stage(data: Seq<u8>, filter: Seq<char>) -> Result<Seq<u8>, Seq<char>> {
    if filter == "FlateDecode"@ {
        match zlib_inflated(data) {
            Ok(o) => Ok(o),
            Err(m) => Err("FlateDecode: "@ + m),
        }
    } else if filter == "RunLengthDecode"@ {
        match spec_runlength(data) {
            Ok(o) => Ok(o),
            Err(e) => Err(e.spec_message()),
        }
    } else if filter == "LZWDecode"@ {
        match lzw_decoded(data) {
            Ok(o) => Ok(o),
            Err(m) => Err("LZWDecode: "@ + m),
        }
    } else {
        Err("filter "@ + filter + " not implemented"@)
    }
}

/// One filter of a `/Filter` chain applied to `data`, followed by PNG
/// prediction where the parameters for the filter at `filter_index` ask
/// for it (`/Predictor` 10 or more).
pub open spec fn spec_apply_filter(
    data: Seq<u8>,
    dp: Option<DecodeParms>,
    filter: Seq<char>,
    filter_index: int,
) -> Result<Seq<u8>, Seq<char>> {
    match spec_filter_stage(data, filter) {
        Err(m) => Err(m),
        Ok(out) => match spec_read_predictor(dp, filter_index) {
            Some((predictor, colors, bpc, columns)) => if predictor >= 10 {
                spec_depngify(out, colors, bpc, columns)
            } else {
                Ok(out)
            },
            None => Ok(out),
        },
    }
}

fn filter_stage(data: &[u8], filter: &str) -> (r: Result<Vec<u8>, String>)
    ensures
        match spec_filter_stage(data@, filter@) {
            Ok(o) => r matches Ok(v) && v@ == o,
            Err(m) => r matches Err(e) && e@ == m,
        },
{
    if str_eq(filter, "FlateDecode") {
        match inflate_zlib(data) {
            Ok(v) => Ok(v),
            Err(e) => {
                let mut m = String::from_str("FlateDecode: ");
                m.append(e.as_str());
                Err(m)
            },
        }
    } else if str_eq(filter, "RunLengthDecode") {
        decode_runlength(data)
    } else if str_eq(filter, "LZWDecode") {
        match decode_lzw(data) {
            Ok(v) => Ok(v),
            Err(e) => {
                let mut m = String::from_str("LZWDecode: ");
                m.append(e.as_str());
                Err(m)
            },
        }
    } else {
        let mut m = String::from_str("filter ");
        m.append(filter);
        m.append(" not implemented");
        Err(m)
    }
}

/// Applies a single decoding filter to `data`.  `filter_index` is the
/// filter's position in the `/Filter` array; it selects the matching
/// entry of `/DecodeParms` when that is an array.
pub fn apply_filter(data: &[u8], dp: &Option<DecodeParms>, filter: &str, filter_index: usize) -> (r: Result<
    Vec<u8>,
    String,
>)
    ensures
        match spec_apply_filter(data@, *dp, filter@, filter_index as int) {
            Ok(o) => r matches Ok(v) && v@ == o,
            Err(m) => r matches Err(e) && e@ == m,
        },
{
    let out = filter_stage(data, filter)?;
    match read_predictor(dp, filter_index) {
        Some((predictor, colors, bpc, columns)) => {
            if predictor >= 10 {
                depngify(out.as_slice(), predictor, colors, bpc, columns)
            } else {
                Ok(out)
            }
        },
        None => Ok(out),
    }
}

} // verus!
