//! The `CCITTFaxDecode` filter: fax (Group 3 and Group 4) streams decoded
//! to 8-bit gray.

use vstd::prelude::*;
use crate::model::{DecodeParms, FlagEntry, ParmDict};
use crate::params::{select_parms, spec_select_parms};

verus! {

/// The lines that `fax::decoder::decode_g4` reports for `data` with the
/// given width and line count, each as the positions where the color
/// changes (starting with white).
pub uninterp spec fn g4_lines(data: Seq<u8>, width: u16, height: u16) -> Seq<Seq<u16>>;

/// The lines that `fax::decoder::decode_g3` reports for `data`.
pub uninterp spec fn g3_lines(data: Seq<u8>) -> Seq<Seq<u16>>;

/// Runs `fax::decoder::decode_g4` over `data` and collects the lines it
/// reports.  Trusted: the result is `g4_lines(data, width, height)`.
#[verifier::external_body]
fn fax_g4_lines(data: &[u8], width: u16, height: u16) -> (r: Vec<Vec<u16>>)
    ensures
        r@.map_values(|l: Vec<u16>| l@) == g4_lines(data@, width, height),
{
    let mut lines: Vec<Vec<u16>> = Vec::new();
    let _ = fax::decoder::decode_g4(data.iter().copied(), width, Some(height), |t| lines.push(t.to_vec()));
    lines
}

/// Runs `fax::decoder::decode_g3` over `data` and collects the lines it
/// reports.  Trusted: the result is `g3_lines(data)`.
#[verifier::external_body]
fn fax_g3_lines(data: &[u8]) -> (r: Vec<Vec<u16>>)
    ensures
        r@.map_values(|l: Vec<u16>| l@) == g3_lines(data@),
{
    let mut lines: Vec<Vec<u16>> = Vec::new();
    let _ = fax::decoder::decode_g3(data.iter().copied(), |t| lines.push(t.to_vec()));
    lines
}

/// The pixels (`true` for white) of the runs between the first `n`
/// color changes of `line`: run `j` is white for even `j` and spans from
/// the previous change (0 for the first) to `line[j]`, empty where
/// `line[j]` is not past it.
pub open spec fn pel_runs(line: Seq<u16>, n: nat) -> Seq<bool>
    decreases n,
{
    if n == 0 {
        Seq::empty()
    } else {
        let j = n - 1;
        let prev: int = if j == 0 { 0 } else { line[j - 1] as int };
        let len: nat = if line[j] as int > prev { (line[j] - prev) as nat } else { 0 };
        pel_runs(line, j as nat) + Seq::new(len, |i: int| j % 2 == 0)
    }
}

/// The `width` pixels of a line given by its color changes: the runs,
/// then the color after the last change (white after an even number of
/// changes) up to the width, cut to the width.
pub open spec fn spec_pels(line: Seq<u16>, width: u16) -> Seq<bool> {
    let runs = pel_runs(line, line.len());
    let pad = line.len() % 2 == 0;
    Seq::new(width as nat, |i: int| if i < runs.len() { runs[i] } else { pad })
}

/// The pixel colors of one decoded line, from `fax::decoder::pels`
/// (`true` for white).  Trusted: they are `spec_pels(line, width)`, as the
/// function's source computes them.
#[verifier::external_body]
fn fax_pels(line: &[u16], width: u16) -> (r: Vec<bool>)
    ensures
        r@ == spec_pels(line@, width),
{
    fax::decoder::pels(line, width).map(|c| match c {
        fax::Color::White => true,
        fax::Color::Black => false,
    }).collect()
}

/// The gray byte of a decoded pixel: ink (black, 0) or paper (white,
/// 255).  With `/BlackIs1` the decoded colors are swapped.
pub open spec fn ccitt_byte(white: bool, black_is_1: bool) -> u8 {
    let is_black = !white;
    let ink = if black_is_1 { !is_black } else { is_black };
    if ink { 0 } else { 255 }
}

/// The gray bytes of all the given lines, one after the other.
pub open spec fn lines_pixels(lines: Seq<Seq<u16>>, columns: u16, black_is_1: bool) -> Seq<u8>
    decreases lines.len(),
{
    if lines.len() == 0 {
        Seq::empty()
    } else {
        lines_pixels(lines.drop_last(), columns, black_is_1) + spec_pels(lines.last(), columns).map_values(
            |w: bool| ccitt_byte(w, black_is_1),
        )
    }
}

/// `px` padded with white (255) or cut to exactly `n` bytes.
pub open spec fn fit_len(px: Seq<u8>, n: nat) -> Seq<u8> {
    if px.len() < n {
        px + Seq::new((n - px.len()) as nat, |i: int| 255u8)
    } else {
        px.subrange(0, n as int)
    }
}

/// Fitting gives exactly `n` bytes: the decoded pixels as far as they
/// go, then white.
pub proof fn lemma_fit_len(px: Seq<u8>, n: nat)
    ensures
        fit_len(px, n).len() == n,
        forall|i: int| 0 <= i < n && i < px.len() ==> #[trigger] fit_len(px, n)[i] == px[i],
        forall|i: int| px.len() <= i < n ==> #[trigger] fit_len(px, n)[i] == 255u8,
{
}

/// `/Columns`, defaulting to the image width, cut to 16 bits.
pub open spec fn ccitt_columns(d: Option<ParmDict>, width: u32) -> u16 {
    match d {
        Some(p) => match p.columns {
            Some(c) => c as u16,
            None => (width as i64) as u16,
        },
        None => (width as i64) as u16,
    }
}

/// `/BlackIs1`: a boolean, or an integer read as nonzero; false otherwise.
pub open spec fn ccitt_black_is_1(d: Option<ParmDict>) -> bool {
    match d {
        Some(p) => match p.black_is_1 {
            FlagEntry::Boolean(b) => b,
            FlagEntry::Integer(v) => v != 0,
            _ => false,
        },
        None => false,
    }
}

/// `/K`, defaulting to 0 (Group 3); negative means Group 4.
pub open spec fn ccitt_k(d: Option<ParmDict>) -> i64 {
    match d {
        Some(p) => match p.k {
            Some(k) => k,
            None => 0,
        },
        None => 0,
    }
}

/// The gray bytes a fax stream decodes to, before they are fitted to the
/// image size.  Group 4 when `/K < 0`; Group 3 otherwise, except that
/// with no `/DecodeParms` at all Group 4 is tried first and kept when it
/// yields exactly `width * height` pixels.
pub open spec fn ccitt_decoded(content: Seq<u8>, width: u32, height: u32, dp: Option<DecodeParms>, filter_index: int) -> Seq<u8> {
    let d = spec_select_parms(dp, filter_index);
    let columns = ccitt_columns(d, width);
    let b1 = ccitt_black_is_1(d);
    let g4 = lines_pixels(g4_lines(content, columns, height as u16), columns, b1);
    let g3 = lines_pixels(g3_lines(content), columns, b1);
    if ccitt_k(d) < 0 {
        g4
    } else if dp is None {
        if g4.len() != width * height {
            g3
        } else {
            g4
        }
    } else {
        g3
    }
}

fn columns_of(d: Option<&ParmDict>, width: u32) -> (r: u16)
    ensures
        r == ccitt_columns(
            match d {
                Some(x) => Some(*x),
                None => None,
            },
            width,
        ),
{
    match d {
        Some(p) => match p.columns {
            Some(c) => c as u16,
            None => (width as i64) as u16,
        },
        None => (width as i64) as u16,
    }
}

fn black_is_1_of(d: Option<&ParmDict>) -> (r: bool)
    ensures
        r == ccitt_black_is_1(
            match d {
                Some(x) => Some(*x),
                None => None,
            },
        ),
{
    match d {
        Some(p) => match p.black_is_1 {
            FlagEntry::Boolean(b) => b,
            FlagEntry::Integer(v) => v != 0,
            _ => false,
        },
        None => false,
    }
}

fn k_of(d: Option<&ParmDict>) -> (r: i64)
    ensures
        r == ccitt_k(
            match d {
                Some(x) => Some(*x),
                None => None,
            },
        ),
{
    match d {
        Some(p) => match p.k {
            Some(k) => k,
            None => 0,
        },
        None => 0,
    }
}

/// Appends the gray bytes of `lines` to `out`.
fn push_lines(out: &mut Vec<u8>, lines: &Vec<Vec<u16>>, columns: u16, black_is_1: bool)
    ensures
        final(out)@ == old(out)@ + lines_pixels(lines@.map_values(|l: Vec<u16>| l@), columns, black_is_1),
{
    let ghost ls = lines@.map_values(|l: Vec<u16>| l@);
    let ghost start = out@;
    let mut i: usize = 0;
    while i < lines.len()
        invariant
            i <= lines.len(),
            ls == lines@.map_values(|l: Vec<u16>| l@),
            out@ == start + lines_pixels(ls.subrange(0, i as int), columns, black_is_1),
        decreases lines.len() - i,
    {
        let pels = fax_pels(lines[i].as_slice(), columns);
        let ghost before = out@;
        let mut j: usize = 0;
        while j < pels.len()
            invariant
                j <= pels.len(),
                out@ == before + pels@.subrange(0, j as int).map_values(|w: bool| ccitt_byte(w, black_is_1)),
            decreases pels.len() - j,
        {
            let is_black = !pels[j];
            let ink = if black_is_1 { !is_black } else { is_black };
            out.push(if ink { 0u8 } else { 255u8 });
            j += 1;
            assert(pels@.subrange(0, j as int) =~= pels@.subrange(0, j - 1).push(pels@[j - 1]));
            assert(out@ =~= before + pels@.subrange(0, j as int).map_values(|w: bool| ccitt_byte(w, black_is_1)));
        }
        proof {
            assert(pels@.subrange(0, pels@.len() as int) =~= pels@);
            let sub = ls.subrange(0, i + 1);
            assert(sub.drop_last() =~= ls.subrange(0, i as int));
            assert(sub.last() == lines@[i as int]@);
            assert(out@ =~= start + lines_pixels(sub, columns, black_is_1));
        }
        i += 1;
    }
    assert(ls.subrange(0, lines@.len() as int) =~= ls);
}

/// Decodes a CCITT (fax) image to 8-bit gray (0 ink, 255 paper), exactly
/// `width * height` bytes: a short result is padded with white, a long
/// one cut.  The parameters are those that apply to the filter at
/// `filter_index`; see `ccitt_decoded`.
pub fn decode_ccitt(content: &[u8], width: u32, height: u32, dp: &Option<DecodeParms>, filter_index: usize) -> (r: Result<
    (Vec<u8>, bool),
    String,
>)
    requires
        width * height <= u32::MAX,
    ensures
        r matches Ok((px, is_color)) && !is_color && px@ == fit_len(
            ccitt_decoded(content@, width, height, *dp, filter_index as int),
            (width * height) as nat,
        ),
{
    let d = select_parms(dp, filter_index);
    let columns = columns_of(d, width);
    let black_is_1 = black_is_1_of(d);
    let k = k_of(d);
    let expected = (width * height) as usize;
    let mut pixels: Vec<u8> = Vec::new();
    if k < 0 {
        let lines = fax_g4_lines(content, columns, height as u16);
        push_lines(&mut pixels, &lines, columns, black_is_1);
    } else if dp.is_none() {
        let lines = fax_g4_lines(content, columns, height as u16);
        push_lines(&mut pixels, &lines, columns, black_is_1);
        if pixels.len() != expected {
            pixels = Vec::new();
            let lines3 = fax_g3_lines(content);
            push_lines(&mut pixels, &lines3, columns, black_is_1);
        }
    } else {
        let lines = fax_g3_lines(content);
        push_lines(&mut pixels, &lines, columns, black_is_1);
    }
    let ghost decoded = pixels@;
    while pixels.len() < expected
        invariant
            decoded.len() <= pixels@.len(),
            pixels@.len() <= expected || pixels@ == decoded,
            pixels@.subrange(0, decoded.len() as int) == decoded,
            forall|i: int| decoded.len() <= i < pixels@.len() ==> pixels@[i] == 255u8,
        decreases expected - pixels.len(),
    {
        pixels.push(255);
    }
    pixels.truncate(expected);
    proof {
        let n = (width * height) as nat;
        if decoded.len() < n {
            assert(pixels@ =~= fit_len(decoded, n));
        } else {
            assert(pixels@ =~= fit_len(decoded, n));
        }
    }
    Ok((pixels, false))
}

} // verus!
