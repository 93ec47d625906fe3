//! PNG row predictors (the `/Predictor 10..15` decode parameter of the
//! Flate and LZW filters).

use vstd::prelude::*;
use crate::samples::div_ceil8;
use crate::text::{append_decimal, dec_chars, text_with_number};

verus! {

/// The Paeth predictor of the PNG specification: whichever of `a` (left),
/// `b` (up) and `c` (upper left) is closest to `a + b - c`, ties going to
/// `a`, then `b`.
pub open spec fn spec_paeth(a: u8, b: u8, c: u8) -> u8 {
    let p = a + b - c;
    let pa = if p - a >= 0 { p - a } else { a - p };
    let pb = if p - b >= 0 { p - b } else { b - p };
    let pc = if p - c >= 0 { p - c } else { c - p };
    if pa <= pb && pa <= pc {
        a
    } else if pb <= pc {
        b
    } else {
        c
    }
}

/// The distance between two integers.
pub open spec fn int_distance(x: int, y: int) -> int {
    if x >= y {
        x - y
    } else {
        y - x
    }
}

/// The Paeth predictor picks, among left `a`, up `b` and upper left `c`,
/// one nearest to the gradient estimate `a + b - c` (computed exactly,
/// without wrapping), preferring `a`, then `b`, when they are equally
/// near.
pub proof fn lemma_paeth_nearest(a: u8, b: u8, c: u8)
    ensures
        ({
            let p = a as int + b as int - c as int;
            let r = spec_paeth(a, b, c);
            &&& r == a || r == b || r == c
            &&& int_distance(p, r as int) <= int_distance(p, a as int)
            &&& int_distance(p, r as int) <= int_distance(p, b as int)
            &&& int_distance(p, r as int) <= int_distance(p, c as int)
            &&& (int_distance(p, a as int) <= int_distance(p, b as int) && int_distance(p, a as int)
                <= int_distance(p, c as int)) ==> r == a
            &&& (int_distance(p, b as int) < int_distance(p, a as int) && int_distance(p, b as int)
                <= int_distance(p, c as int)) ==> r == b
        }),
{
}

/// Along a gradient the Paeth predictor follows the larger or smaller
/// neighbour: when the upper-left byte is no larger than the left and
/// upper ones it predicts the larger of them, and when it is no smaller
/// it predicts the smaller.
pub proof fn lemma_paeth_gradient(a: u8, b: u8, c: u8)
    ensures
        c <= a && c <= b ==> spec_paeth(a, b, c) == (if a >= b { a } else { b }),
        c >= a && c >= b ==> spec_paeth(a, b, c) == (if a <= b { a } else { b }),
{
}

pub fn paeth(a: u8, b: u8, c: u8) -> (r: u8)
    ensures
        r == spec_paeth(a, b, c),
{
    let a = a as i32;
    let b = b as i32;
    let c = c as i32;
    let p = a + b - c;
    let pa = if p - a >= 0 { p - a } else { a - p };
    let pb = if p - b >= 0 { p - b } else { b - p };
    let pc = if p - c >= 0 { p - c } else { c - p };
    if pa <= pb && pa <= pc {
        a as u8
    } else if pb <= pc {
        b as u8
    } else {
        c as u8
    }
}

/// `a + b` modulo 256.
pub open spec fn add_mod(a: u8, b: u8) -> u8 {
    ((a + b) % 256) as u8
}

/// The byte a PNG row filter restores from the encoded byte `e` and its
/// neighbours `left`, `up` and `upleft` (0 where they fall outside).
pub open spec fn png_byte(filter: u8, e: u8, left: u8, up: u8, upleft: u8) -> u8 {
    if filter == 0 {
        e
    } else if filter == 1 {
        add_mod(e, left)
    } else if filter == 2 {
        add_mod(e, up)
    } else if filter == 3 {
        add_mod(e, ((left + up) / 2) as u8)
    } else {
        add_mod(e, spec_paeth(left, up, upleft))
    }
}

/// The first `n` bytes of a row restored with `filter`, from the encoded
/// bytes `enc` and the previous restored row `prev`; `bpp` is the
/// distance to the left neighbour in bytes.
pub open spec fn png_row(filter: u8, enc: Seq<u8>, prev: Seq<u8>, bpp: nat, n: nat) -> Seq<u8>
    decreases n,
{
    if n == 0 {
        Seq::empty()
    } else {
        let p = png_row(filter, enc, prev, bpp, (n - 1) as nat);
        let i = n - 1;
        let left: u8 = if i >= bpp { p[i - bpp] } else { 0 };
        let upleft: u8 = if i >= bpp { prev[i - bpp] } else { 0 };
        p.push(png_byte(filter, enc[i], left, prev[i], upleft))
    }
}

/// The restored bytes of the first `r` rows of `data`, each row stored as
/// one filter-type byte followed by `rb` encoded bytes; or the first
/// filter type outside `0..=4`.
pub open spec fn png_rows(data: Seq<u8>, rb: nat, bpp: nat, r: nat) -> Result<Seq<u8>, u8>
    decreases r,
{
    if r == 0 {
        Ok(Seq::empty())
    } else {
        match png_rows(data, rb, bpp, (r - 1) as nat) {
            Err(f) => Err(f),
            Ok(p) => {
                let start = (r - 1) * (rb + 1);
                let f = data[start];
                if f > 4 {
                    Err(f)
                } else {
                    let prev = if r == 1 {
                        Seq::new(rb, |i: int| 0u8)
                    } else {
                        p.subrange(p.len() - rb, p.len() as int)
                    };
                    Ok(p + png_row(f, data.subrange(start + 1, start + 1 + rb), prev, bpp, rb))
                }
            },
        }
    }
}

/// `ceil(x / 8)`.
pub open spec fn ceil8(x: int) -> int {
    (x + 7) / 8
}

/// The result of reversing PNG prediction on `data`, as `depngify`
/// computes it, errors included.
pub open spec fn spec_depngify(data: Seq<u8>, colors: u32, bpc: u32, columns: u32) -> Result<
    Seq<u8>,
    Seq<char>,
> {
    if !(1 <= bpc <= 16) {
        Err("PNG predictor with BitsPerComponent "@ + dec_chars(bpc as nat) + " not supported"@)
    } else if colors * bpc > u32::MAX {
        Err("colors*bpc overflow"@)
    } else if columns * (colors * bpc) > usize::MAX {
        Err("columns*bits overflow"@)
    } else {
        let bits = colors * bpc;
        let rb = ceil8(columns * bits);
        let stride = rb + 1;
        if (data.len() as int) % stride != 0 {
            Err(
                "PNG predictor: data length "@ + dec_chars(data.len()) + " not divisible by row stride "@
                    + dec_chars(stride as nat),
            )
        } else {
            match png_rows(data, rb as nat, ceil8(bits) as nat, ((data.len() as int) / stride) as nat) {
                Ok(out) => Ok(out),
                Err(f) => Err("PNG predictor: unknown row filter "@ + dec_chars(f as nat)),
            }
        }
    }
}

/// The value a PNG row filter predicts a byte from: nothing (None), the
/// left (Sub), upper (Up), average (Average) or Paeth neighbour.
pub open spec fn png_predict(filter: u8, left: u8, up: u8, upleft: u8) -> u8 {
    if filter == 0 {
        0
    } else if filter == 1 {
        left
    } else if filter == 2 {
        up
    } else if filter == 3 {
        ((left + up) / 2) as u8
    } else {
        spec_paeth(left, up, upleft)
    }
}

/// `a - b` modulo 256.
pub open spec fn sub_mod(a: u8, b: u8) -> u8 {
    ((a - b) % 256) as u8
}

/// The bytes of `row` PNG-filtered with `filter` against the row above
/// it, `prev`; neighbours `bpp` bytes to the left, and those outside the
/// row, count as 0.
pub open spec fn png_filter_row(filter: u8, row: Seq<u8>, prev: Seq<u8>, bpp: nat) -> Seq<u8> {
    Seq::new(
        row.len(),
        |j: int|
            sub_mod(
                row[j],
                png_predict(
                    filter,
                    if j >= bpp { row[j - bpp] } else { 0 },
                    prev[j],
                    if j >= bpp { prev[j - bpp] } else { 0 },
                ),
            ),
    )
}

/// The row above row `r` of `x` (rows of `rb` bytes): zeros above the
/// first.
pub open spec fn row_above(x: Seq<u8>, rb: nat, r: int) -> Seq<u8> {
    if r == 0 {
        Seq::new(rb, |i: int| 0u8)
    } else {
        x.subrange((r - 1) * rb, r * rb)
    }
}

/// Row `r` of `x` filtered with the filter type `filters[r]`.
pub open spec fn filtered_row(x: Seq<u8>, filters: Seq<u8>, rb: nat, bpp: nat, r: int) -> Seq<u8> {
    png_filter_row(filters[r], x.subrange(r * rb, r * rb + rb), row_above(x, rb, r), bpp)
}

/// The first `m` rows of `x` (rows of `rb` bytes) as a PNG-predicted
/// stream: each row is its filter type byte followed by its filtered
/// bytes.
pub open spec fn png_filtered(x: Seq<u8>, filters: Seq<u8>, rb: nat, bpp: nat, m: nat) -> Seq<u8>
    decreases m,
{
    if m == 0 {
        Seq::empty()
    } else {
        png_filtered(x, filters, rb, bpp, (m - 1) as nat) + seq![filters[m - 1]] + filtered_row(
            x,
            filters,
            rb,
            bpp,
            m - 1,
        )
    }
}

proof fn lemma_png_filtered_len(x: Seq<u8>, filters: Seq<u8>, rb: nat, bpp: nat, m: nat)
    requires
        m * rb <= x.len(),
    ensures
        png_filtered(x, filters, rb, bpp, m).len() == m * (rb + 1),
    decreases m,
{
    if m > 0 {
        assert(0 <= (m - 1) * rb <= m * rb && m * rb == (m - 1) * rb + rb && m * (rb + 1) == (m - 1) * (rb + 1)
            + rb + 1) by (nonlinear_arith)
            requires
                m > 0,
        ;
        lemma_png_filtered_len(x, filters, rb, bpp, (m - 1) as nat);
        let r = m - 1;
        assert(x.subrange(r * rb, r * rb + rb).len() == rb);
        assert(filtered_row(x, filters, rb, bpp, r).len() == rb);
        let k = (m - 1) as nat;
        assert(k * (rb + 1) == (m - 1) * (rb + 1));
        assert(png_filtered(x, filters, rb, bpp, m) == png_filtered(x, filters, rb, bpp, k) + seq![filters[r]]
            + filtered_row(x, filters, rb, bpp, r));
    } else {
        assert(m * (rb + 1) == 0) by (nonlinear_arith)
            requires
                m == 0,
        ;
    }
}

/// Row `r` of the filtered stream of `m` rows: its type byte, then its
/// filtered bytes.
proof fn lemma_png_filtered_row(x: Seq<u8>, filters: Seq<u8>, rb: nat, bpp: nat, m: nat, r: int)
    requires
        m * rb <= x.len(),
        0 <= r < m,
    ensures
        r * (rb + 1) + 1 + rb <= png_filtered(x, filters, rb, bpp, m).len(),
        png_filtered(x, filters, rb, bpp, m)[r * (rb + 1)] == filters[r],
        png_filtered(x, filters, rb, bpp, m).subrange(r * (rb + 1) + 1, r * (rb + 1) + 1 + rb) == filtered_row(
            x,
            filters,
            rb,
            bpp,
            r,
        ),
    decreases m,
{
    let e = png_filtered(x, filters, rb, bpp, m);
    let p = png_filtered(x, filters, rb, bpp, (m - 1) as nat);
    assert((m - 1) * rb <= m * rb && m * rb == (m - 1) * rb + rb) by (nonlinear_arith)
        requires
            m > 0,
    ;
    lemma_png_filtered_len(x, filters, rb, bpp, (m - 1) as nat);
    assert((r + 1) * (rb + 1) == r * (rb + 1) + rb + 1) by (nonlinear_arith);
    assert(x.subrange(r * rb, r * rb + rb).len() == rb) by {
        assert(r * rb + rb <= m * rb) by (nonlinear_arith)
            requires
                0 <= r < m,
        ;
        assert(r * rb >= 0) by (nonlinear_arith)
            requires
                r >= 0,
        ;
    }
    if r == m - 1 {
        assert(e.subrange(r * (rb + 1) + 1, r * (rb + 1) + 1 + rb) =~= filtered_row(x, filters, rb, bpp, r));
    } else {
        lemma_png_filtered_row(x, filters, rb, bpp, (m - 1) as nat, r);
        assert((r + 1) * (rb + 1) <= (m - 1) * (rb + 1)) by (nonlinear_arith)
            requires
                r + 1 <= m - 1,
        ;
        assert(e.subrange(r * (rb + 1) + 1, r * (rb + 1) + 1 + rb) =~= p.subrange(
            r * (rb + 1) + 1,
            r * (rb + 1) + 1 + rb,
        ));
    }
}

/// Restoring a row filtered against `prev` gives the row back.
proof fn lemma_png_row_restores(filter: u8, row: Seq<u8>, prev: Seq<u8>, bpp: nat, n: nat)
    requires
        filter <= 4,
        prev.len() == row.len(),
        n <= row.len(),
        bpp >= 1 || row.len() == 0,
    ensures
        png_row(filter, png_filter_row(filter, row, prev, bpp), prev, bpp, n) == row.subrange(0, n as int),
    decreases n,
{
    if n > 0 {
        lemma_png_row_restores(filter, row, prev, bpp, (n - 1) as nat);
        let i = n - 1;
        let left: u8 = if i >= bpp { row[i - bpp] } else { 0 };
        let upleft: u8 = if i >= bpp { prev[i - bpp] } else { 0 };
        let p = png_predict(filter, left, prev[i], upleft);
        let e = sub_mod(row[i], p);
        assert(png_byte(filter, e, left, prev[i], upleft) == row[i]) by {
            if filter == 0 {
                assert(p == 0);
            } else {
                assert(png_byte(filter, e, left, prev[i], upleft) == add_mod(e, p));
            }
        }
        assert(row.subrange(0, n as int) =~= row.subrange(0, i).push(row[i]));
    }
}

/// The restored bytes of the first `r` rows of a filtered stream are the
/// first `r` rows of the data.
proof fn lemma_png_rows_restore(x: Seq<u8>, filters: Seq<u8>, rb: nat, bpp: nat, m: nat, r: nat)
    requires
        m * rb <= x.len(),
        r <= m,
        forall|i: int| 0 <= i < m ==> #[trigger] filters[i] <= 4,
        bpp >= 1 || rb == 0,
    ensures
        png_rows(png_filtered(x, filters, rb, bpp, m), rb, bpp, r) == Ok::<Seq<u8>, u8>(x.subrange(0, (r * rb) as int)),
    decreases r,
{
    if r > 0 {
        lemma_png_rows_restore(x, filters, rb, bpp, m, (r - 1) as nat);
        let data = png_filtered(x, filters, rb, bpp, m);
        let q = r - 1;
        lemma_png_filtered_row(x, filters, rb, bpp, m, q);
        let start = q * (rb + 1);
        let p = x.subrange(0, q * rb);
        assert(q * rb + rb == r * rb && r * rb <= m * rb && q * rb >= 0) by (nonlinear_arith)
            requires
                q == r - 1,
                r <= m,
                r >= 1,
        ;
        assert(p.len() == q * rb);
        let row = x.subrange(q * rb, q * rb + rb);
        let prev = row_above(x, rb, q);
        if q > 0 {
            assert((q - 1) * rb == q * rb - rb) by (nonlinear_arith);
            assert(p.subrange(p.len() - rb, p.len() as int) =~= prev);
        }
        lemma_png_row_restores(filters[q], row, prev, bpp, rb);
        assert(row.subrange(0, rb as int) =~= row);
        assert(x.subrange(0, (r * rb) as int) =~= p + row);
    } else {
        assert(x.subrange(0, 0) =~= Seq::<u8>::empty());
    }
}

/// Reversing PNG prediction undoes PNG filtering: rows of data filtered
/// with any of the five filter types and read back by `depngify`'s rule,
/// with the same colors, bits per component and columns, give the data
/// back.
pub proof fn lemma_depngify_undoes_filtering(x: Seq<u8>, filters: Seq<u8>, colors: u32, bpc: u32, columns: u32)
    requires
        1 <= bpc <= 16,
        colors * bpc <= u32::MAX,
        columns * (colors * bpc) <= usize::MAX,
        x.len() == filters.len() * ceil8(columns * (colors * bpc)),
        forall|i: int| 0 <= i < filters.len() ==> #[trigger] filters[i] <= 4,
    ensures
        spec_depngify(
            png_filtered(
                x,
                filters,
                ceil8(columns * (colors * bpc)) as nat,
                ceil8(colors * bpc) as nat,
                filters.len(),
            ),
            colors,
            bpc,
            columns,
        ) == Ok::<Seq<u8>, Seq<char>>(x),
{
    let bits = colors * bpc;
    let rb = ceil8(columns * bits) as nat;
    let bpp = ceil8(bits) as nat;
    let m = filters.len();
    assert(columns * bits >= 0 && bits >= 0) by (nonlinear_arith)
        requires
            bits == colors * bpc,
            columns >= 0,
            colors >= 0,
            bpc >= 0,
    ;
    let data = png_filtered(x, filters, rb, bpp, m);
    lemma_png_filtered_len(x, filters, rb, bpp, m);
    assert(data.len() as int % (rb + 1) as int == 0 && data.len() as int / (rb + 1) as int == m) by (nonlinear_arith)
        requires
            data.len() == m * (rb + 1),
            rb >= 0,
    ;
    if bits > 0 {
        assert(bpp >= 1);
    } else {
        assert(columns * bits == 0) by (nonlinear_arith)
            requires
                bits == 0,
        ;
    }
    lemma_png_rows_restore(x, filters, rb, bpp, m, m);
    assert(x.subrange(0, (m * rb) as int) =~= x);
}

proof fn lemma_png_row_len(filter: u8, enc: Seq<u8>, prev: Seq<u8>, bpp: nat, n: nat)
    ensures
        png_row(filter, enc, prev, bpp, n).len() == n,
    decreases n,
{
    if n > 0 {
        lemma_png_row_len(filter, enc, prev, bpp, (n - 1) as nat);
    }
}

/// Once a row holds an unknown filter type, every longer prefix of rows
/// reports that same type.
proof fn lemma_png_rows_err(data: Seq<u8>, rb: nat, bpp: nat, r: nat, s: nat)
    requires
        r <= s,
        png_rows(data, rb, bpp, r) is Err,
    ensures
        png_rows(data, rb, bpp, s) == png_rows(data, rb, bpp, r),
    decreases s - r,
{
    if r < s {
        lemma_png_rows_err(data, rb, bpp, r, (s - 1) as nat);
    }
}

fn restore_byte(filter: u8, e: u8, left: u8, up: u8, upleft: u8) -> (r: u8)
    requires
        filter <= 4,
    ensures
        r == png_byte(filter, e, left, up, upleft),
{
    let x: u8 = if filter == 0 {
        0
    } else if filter == 1 {
        left
    } else if filter == 2 {
        up
    } else if filter == 3 {
        ((left as u16 + up as u16) / 2) as u8
    } else {
        paeth(left, up, upleft)
    };
    ((e as u16 + x as u16) % 256) as u8
}

/// Reverses PNG prediction on a decoded stream.  Each row carries a
/// filter-type byte (None/Sub/Up/Average/Paeth) followed by the filtered
/// bytes; the left-neighbour distance is `ceil(colors * bpc / 8)` bytes
/// and a row holds `ceil(columns * colors * bpc / 8)` bytes.
pub fn depngify(data: &[u8], predictor: u32, colors: u32, bpc: u32, columns: u32) -> (r: Result<
    Vec<u8>,
    String,
>)
    ensures
        match spec_depngify(data@, colors, bpc, columns) {
            Ok(o) => r matches Ok(v) && v@ == o,
            Err(m) => r matches Err(e) && e@ == m,
        },
{
    if !(1 <= bpc && bpc <= 16) {
        return Err(text_with_number("PNG predictor with BitsPerComponent ", bpc as u64, " not supported"));
    }
    let bits_per_pixel: u32 = match colors.checked_mul(bpc) {
        Some(b) => b,
        None => {
            return Err(String::from_str("colors*bpc overflow"));
        },
    };
    let bits = bits_per_pixel as usize;
    let bpp = div_ceil8(bits);
    let total_bits = match (columns as usize).checked_mul(bits) {
        Some(t) => t,
        None => {
            return Err(String::from_str("columns*bits overflow"));
        },
    };
    let row_bytes = div_ceil8(total_bits);
    let stride = row_bytes + 1;
    if data.len() % stride != 0 {
        let mut m = text_with_number("PNG predictor: data length ", data.len() as u64, " not divisible by row stride ");
        append_decimal(&mut m, stride as u64);
        return Err(m);
    }
    let nrows = data.len() / stride;
    proof {
        if bits == 0 {
            assert(total_bits == 0) by (nonlinear_arith)
                requires
                    total_bits == columns * bits,
                    bits == 0,
            ;
        }
    }
    let ghost rb = row_bytes as nat;
    let ghost bppn = bpp as nat;
    let mut out: Vec<u8> = Vec::new();
    let mut prev: Vec<u8> = Vec::new();
    let mut z: usize = 0;
    while z < row_bytes
        invariant
            z <= row_bytes,
            prev@ == Seq::new(z as nat, |i: int| 0u8),
        decreases row_bytes - z,
    {
        prev.push(0);
        z += 1;
        assert(prev@ =~= Seq::new(z as nat, |i: int| 0u8));
    }
    proof {
        assert(nrows * stride <= data.len()) by (nonlinear_arith)
            requires
                nrows == data.len() / stride,
                stride > 0,
        ;
    }
    let mut r: usize = 0;
    while r < nrows
        invariant
            r <= nrows,
            nrows == data.len() / stride,
            nrows * stride <= data.len(),
            stride == row_bytes + 1,
            rb == row_bytes,
            bppn == bpp,
            bpp > 0 || row_bytes == 0,
            row_bytes == ceil8(columns * (colors * bpc)),
            bpp == ceil8(colors * bpc),
            colors * bpc <= u32::MAX,
            1 <= bpc <= 16,
            columns * (colors * bpc) <= usize::MAX,
            (data@.len() as int) % (stride as int) == 0,
            png_rows(data@, rb, bppn, r as nat) == Ok::<Seq<u8>, u8>(out@),
            out@.len() == r * row_bytes,
            prev@.len() == row_bytes,
            r == 0 ==> prev@ == Seq::new(rb, |i: int| 0u8),
            r > 0 ==> prev@ == out@.subrange(out@.len() - rb, out@.len() as int),
        decreases nrows - r,
    {
        proof {
            if r > 0 {
                assert(r * row_bytes >= row_bytes) by (nonlinear_arith)
                    requires
                        r > 0,
                ;
            }
            assert((r + 1) * stride <= nrows * stride) by (nonlinear_arith)
                requires
                    r + 1 <= nrows,
            ;
            assert((r + 1) * stride == r * stride + stride) by (nonlinear_arith);
        }
        let start = r * stride;
        let filter = data[start];
        if filter > 4 {
            proof {
                assert(png_rows(data@, rb, bppn, (r + 1) as nat) == Err::<Seq<u8>, u8>(filter));
                lemma_png_rows_err(data@, rb, bppn, (r + 1) as nat, nrows as nat);
                assert(png_rows(data@, rb, bppn, nrows as nat) == Err::<Seq<u8>, u8>(filter));
                assert(rb == ceil8(columns * (colors * bpc)));
                assert(nrows == (data@.len() as int) / (rb + 1) as int);
            }
            let mut m = String::from_str("PNG predictor: unknown row filter ");
            append_decimal(&mut m, filter as u64);
            return Err(m);
        }
        let ghost enc = data@.subrange(start + 1, start + 1 + rb);
        let mut cur: Vec<u8> = Vec::new();
        let mut i: usize = 0;
        while i < row_bytes
            invariant
                i <= row_bytes,
                start + 1 + row_bytes <= data.len(),
                filter <= 4,
                prev@.len() == row_bytes,
                enc == data@.subrange(start + 1, start + 1 + rb),
                rb == row_bytes,
                bppn == bpp,
                bpp > 0 || row_bytes == 0,
                cur@ == png_row(filter, enc, prev@, bppn, i as nat),
            decreases row_bytes - i,
        {
            proof {
                lemma_png_row_len(filter, enc, prev@, bppn, i as nat);
            }
            let left: u8 = if i >= bpp { cur[i - bpp] } else { 0 };
            let upleft: u8 = if i >= bpp { prev[i - bpp] } else { 0 };
            let b = restore_byte(filter, data[start + 1 + i], left, prev[i], upleft);
            cur.push(b);
            i += 1;
        }
        proof {
            lemma_png_row_len(filter, enc, prev@, bppn, rb);
        }
        let ghost before = out@;
        let mut j: usize = 0;
        while j < row_bytes
            invariant
                j <= row_bytes,
                cur@.len() == row_bytes,
                out@ == before + cur@.subrange(0, j as int),
            decreases row_bytes - j,
        {
            out.push(cur[j]);
            j += 1;
            assert(out@ =~= before + cur@.subrange(0, j as int));
        }
        proof {
            assert(cur@.subrange(0, rb as int) =~= cur@);
            assert(out@.subrange(out@.len() - rb, out@.len() as int) =~= cur@);
            assert((r + 1) * row_bytes == r * row_bytes + row_bytes) by (nonlinear_arith);
            if r > 0 {
                assert(r * row_bytes >= row_bytes) by (nonlinear_arith)
                    requires
                        r > 0,
                ;
                assert(before.subrange(before.len() - rb, before.len() as int) == prev@);
            }
        }
        prev = cur;
        r += 1;
    }
    Ok(out)
}

} // verus!
