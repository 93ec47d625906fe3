//! Wrapping of a CCITT Group 4 stream into a minimal TIFF file, so that
//! it can be viewed on its own.

use vstd::prelude::*;
use crate::model::{DecodeParms, FlagEntry, ParmDict, ParmEntry};
use crate::text::str_eq;

verus! {

/// `x` as two little-endian bytes.
pub open spec fn le16(x: u16) -> Seq<u8> {
    seq![(x % 256) as u8, (x / 256) as u8]
}

/// `x` as four little-endian bytes.
pub open spec fn le32(x: u32) -> Seq<u8> {
    seq![(x % 256) as u8, ((x / 256) % 256) as u8, ((x / 65536) % 256) as u8, (x / 16777216) as u8]
}

/// One 12-byte IFD entry: tag, field type, count and value.
pub open spec fn ifd_entry(id: u16, typ: u16, count: u32, value: u32) -> Seq<u8> {
    le16(id) + le16(typ) + le32(count) + le32(value)
}

/// Whether the first decode-parameter dictionary says `/BlackIs1 true`
/// (a boolean; any other value counts as false).
pub open spec fn tiff_black_is_1(dp: Option<DecodeParms>) -> bool {
    let d: Option<ParmDict> = match dp {
        Some(DecodeParms::Dict(d)) => Some(d),
        Some(DecodeParms::Array(a)) => if a@.len() > 0 {
            match a@[0] {
                ParmEntry::Dict(d) => Some(d),
                ParmEntry::Other => None,
            }
        } else {
            None
        },
        _ => None,
    };
    match d {
        Some(p) => p.black_is_1 == FlagEntry::Boolean(true),
        None => false,
    }
}

/// The TIFF file: little-endian header, an IFD of ten entries (size,
/// 1 bit per sample, Group 4 compression, photometric interpretation,
/// one strip holding the data, no T.6 options), then the data.
pub open spec fn tiff_bytes(g4: Seq<u8>, width: u32, height: u32, black_is_1: bool) -> Seq<u8> {
    seq![0x49u8, 0x49u8] + le16(42) + le32(8) + le16(10) + ifd_entry(256, 3, 1, width) + ifd_entry(257, 3, 1, height)
        + ifd_entry(258, 3, 1, 1) + ifd_entry(259, 3, 1, 4) + ifd_entry(262, 3, 1, if black_is_1 { 1 } else { 0 })
        + ifd_entry(273, 4, 1, 134) + ifd_entry(277, 3, 1, 1) + ifd_entry(278, 3, 1, height) + ifd_entry(
        279,
        4,
        1,
        g4.len() as u32,
    ) + ifd_entry(293, 4, 1, 0) + le32(0) + g4
}

fn push_le16(buf: &mut Vec<u8>, x: u16)
    ensures
        final(buf)@ == old(buf)@ + le16(x),
{
    buf.push((x % 256) as u8);
    buf.push((x / 256) as u8);
    assert(final(buf)@ =~= old(buf)@ + le16(x));
}

fn push_le32(buf: &mut Vec<u8>, x: u32)
    ensures
        final(buf)@ == old(buf)@ + le32(x),
{
    buf.push((x % 256) as u8);
    buf.push(((x / 256) % 256) as u8);
    buf.push(((x / 65536) % 256) as u8);
    buf.push((x / 16777216) as u8);
    assert(final(buf)@ =~= old(buf)@ + le32(x));
}

fn push_entry(buf: &mut Vec<u8>, id: u16, typ: u16, count: u32, value: u32)
    ensures
        final(buf)@ == old(buf)@ + ifd_entry(id, typ, count, value),
{
    push_le16(buf, id);
    push_le16(buf, typ);
    push_le32(buf, count);
    push_le32(buf, value);
    assert(final(buf)@ =~= old(buf)@ + ifd_entry(id, typ, count, value));
}

fn black_is_1_first(dp: &Option<DecodeParms>) -> (r: bool)
    ensures
        r == tiff_black_is_1(*dp),
{
    let d: Option<&ParmDict> = match dp {
        Some(DecodeParms::Dict(d)) => Some(d),
        Some(DecodeParms::Array(a)) => if a.len() > 0 {
            match &a[0] {
                ParmEntry::Dict(d) => Some(d),
                ParmEntry::Other => None,
            }
        } else {
            None
        },
        _ => None,
    };
    match d {
        Some(p) => match p.black_is_1 {
            FlagEntry::Boolean(b) => b,
            _ => false,
        },
        None => false,
    }
}

/// Wraps a CCITT Group 4 stream of a `width` by `height` image in a
/// single-strip TIFF file.  `/BlackIs1 true` in the first decode
/// parameters selects the photometric interpretation with 1 as black.
#[verifier::rlimit(50)]
pub fn wrap_g4_as_tiff(g4_data: &[u8], width: u32, height: u32, dp: &Option<DecodeParms>) -> (r: Vec<u8>)
    ensures
        r@ == tiff_bytes(g4_data@, width, height, tiff_black_is_1(*dp)),
{
    let black_is_1 = black_is_1_first(dp);
    let mut buf: Vec<u8> = Vec::new();
    buf.push(0x49);
    buf.push(0x49);
    push_le16(&mut buf, 42);
    push_le32(&mut buf, 8);
    push_le16(&mut buf, 10);
    push_entry(&mut buf, 256, 3, 1, width);
    push_entry(&mut buf, 257, 3, 1, height);
    push_entry(&mut buf, 258, 3, 1, 1);
    push_entry(&mut buf, 259, 3, 1, 4);
    push_entry(&mut buf, 262, 3, 1, if black_is_1 { 1 } else { 0 });
    push_entry(&mut buf, 273, 4, 1, 134);
    push_entry(&mut buf, 277, 3, 1, 1);
    push_entry(&mut buf, 278, 3, 1, height);
    let len32: u32 = #[verifier::truncate] (g4_data.len() as u32);
    push_entry(&mut buf, 279, 4, 1, len32);
    push_entry(&mut buf, 293, 4, 1, 0);
    push_le32(&mut buf, 0);
    let ghost before = buf@;
    let mut i: usize = 0;
    while i < g4_data.len()
        invariant
            i <= g4_data@.len(),
            buf@ == before + g4_data@.subrange(0, i as int),
        decreases g4_data.len() - i,
    {
        buf.push(g4_data[i]);
        i += 1;
        assert(buf@ =~= before + g4_data@.subrange(0, i as int));
    }
    assert(g4_data@.subrange(0, g4_data@.len() as int) =~= g4_data@);
    assert(buf@ =~= tiff_bytes(g4_data@, width, height, black_is_1));
    buf
}


/// The strip offset the TIFF file records (134) is where the fax data
/// starts: the header and directory take exactly 134 bytes.
pub proof fn lemma_tiff_strip_offset(g4: Seq<u8>, width: u32, height: u32, black_is_1: bool)
    ensures
        tiff_bytes(g4, width, height, black_is_1).len() == 134 + g4.len(),
        tiff_bytes(g4, width, height, black_is_1).subrange(134, (134 + g4.len()) as int) == g4,
{
    let b = tiff_bytes(g4, width, height, black_is_1);
    assert(b.len() == 134 + g4.len());
    assert(b.subrange(134, (134 + g4.len()) as int) =~= g4);
}

/// How the stream of a page's image is saved on its own: JPEG streams
/// as `.jpg` files, Group 4 streams wrapped as TIFF, others not at all.
#[derive(Debug, Clone, Copy, PartialEq, Eq, Structural)]
pub enum RawExport {
    Jpeg,
    Tiff,
    Skip,
}

/// The last of an image's filters, if it has any.
pub open spec fn last_filter(filters: Option<Vec<String>>) -> Option<Seq<char>> {
    match filters {
        Some(v) => if v@.len() > 0 {
            Some(v@.last()@)
        } else {
            None
        },
        None => None,
    }
}

/// The export of a stream, decided by its last filter.
pub open spec fn spec_raw_export(filters: Option<Vec<String>>) -> RawExport {
    match last_filter(filters) {
        Some(f) => if f == "DCTDecode"@ {
            RawExport::Jpeg
        } else if f == "CCITTFaxDecode"@ {
            RawExport::Tiff
        } else {
            RawExport::Skip
        },
        None => RawExport::Skip,
    }
}

/// Decides how the stream of an image with the given filters is saved.
pub fn raw_export(filters: &Option<Vec<String>>) -> (r: RawExport)
    ensures
        r == spec_raw_export(*filters),
{
    match filters {
        Some(v) => {
            if v.len() == 0 {
                return RawExport::Skip;
            }
            let f = v[v.len() - 1].as_str();
            if str_eq(f, "DCTDecode") {
                RawExport::Jpeg
            } else if str_eq(f, "CCITTFaxDecode") {
                RawExport::Tiff
            } else {
                RawExport::Skip
            }
        },
        None => RawExport::Skip,
    }
}

} // verus!
