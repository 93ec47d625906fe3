//! Raw (uncompressed) image samples: unpacking of sub-byte samples,
//! stretching to the 0..=255 range, and interpretation by color space.

use vstd::prelude::*;
use crate::text::{append_decimal, dec_chars, str_eq, text_with_number};

verus! {

/// `2^e`.
pub open spec fn pow2(e: nat) -> nat
    decreases e,
{
    if e == 0 {
        1
    } else {
        2 * pow2((e - 1) as nat)
    }
}

pub(crate) proof fn lemma_pow2_pos(e: nat)
    ensures
        pow2(e) >= 1,
    decreases e,
{
    if e > 0 {
        lemma_pow2_pos((e - 1) as nat);
    }
}

pub(crate) proof fn lemma_pow2_mono(a: nat, b: nat)
    requires
        a <= b,
    ensures
        pow2(a) <= pow2(b),
    decreases b,
{
    if a < b {
        lemma_pow2_mono(a, (b - 1) as nat);
        lemma_pow2_pos((b - 1) as nat);
    }
}

proof fn lemma_pow2_31()
    ensures
        pow2(31) == 0x8000_0000,
{
    reveal_with_fuel(pow2, 32);
}

/// `2^e` for `e < 32`.
pub fn pow2_u32(e: u32) -> (r: u32)
    requires
        e < 32,
    ensures
        r == pow2(e as nat),
{
    let mut r: u32 = 1;
    let mut i: u32 = 0;
    while i < e
        invariant
            i <= e,
            e < 32,
            r == pow2(i as nat),
        decreases e - i,
    {
        proof {
            lemma_pow2_mono((i + 1) as nat, 31);
            lemma_pow2_31();
        }
        r = r * 2;
        i = i + 1;
    }
    r
}

/// The `bpc`-bit sample that starts `bit_off` bits into byte `byte_idx`
/// of `raw`, read most significant bit first.  The sample lies within
/// the 16-bit big-endian window made of that byte and the next one (or
/// zero past the end of `raw`).
pub open spec fn sample_value(raw: Seq<u8>, byte_idx: int, bit_off: nat, bpc: nat) -> u8 {
    let hi = raw[byte_idx] as nat;
    let lo: nat = if byte_idx + 1 < raw.len() { raw[byte_idx + 1] as nat } else { 0 };
    (((hi * 256 + lo) / pow2((16 - bit_off - bpc) as nat)) % pow2(bpc)) as u8
}

/// Bytes per row of `samples_per_row` samples of `bpc` bits: every row
/// starts on a byte boundary.
pub open spec fn row_stride(samples_per_row: nat, bpc: nat) -> nat {
    ((samples_per_row * bpc + 7) / 8) as nat
}

/// The sample of flat index `k` (row `k / samples_per_row`, column
/// `k % samples_per_row`).
pub open spec fn sample_at(raw: Seq<u8>, samples_per_row: nat, bpc: nat, k: int) -> u8 {
    let r = k / samples_per_row as int;
    let s = k % samples_per_row as int;
    let bit_pos = s * bpc;
    sample_value(raw, r * row_stride(samples_per_row, bpc) + bit_pos / 8, (bit_pos % 8) as nat, bpc)
}

/// One byte per sample for `height` rows of `samples_per_row` samples of
/// `bpc` bits each; the padding bits that end a row are skipped.
pub open spec fn expanded_samples(raw: Seq<u8>, samples_per_row: nat, height: nat, bpc: nat) -> Seq<u8> {
    Seq::new(samples_per_row * height, |k: int| sample_at(raw, samples_per_row, bpc, k))
}

pub open spec fn spec_expand_samples(raw: Seq<u8>, width: u32, height: u32, colors: u32, bpc: u32) -> Result<
    Seq<u8>,
    Seq<char>,
> {
    let spr = (width * colors) as nat;
    let row_bytes = row_stride(spr, bpc as nat);
    let needed = (row_bytes * height) as nat;
    if raw.len() < needed {
        Err(
            "expand_samples: need "@ + dec_chars(needed) + " bytes for "@ + dec_chars(height as nat)
                + " rows of "@ + dec_chars(row_bytes) + " bytes at "@ + dec_chars(bpc as nat)
                + " bpc, got "@ + dec_chars(raw.len()),
        )
    } else {
        Ok(expanded_samples(raw, spr, height as nat, bpc as nat))
    }
}

/// `ceil(x / 8)` without overflow.
pub fn div_ceil8(x: usize) -> (r: usize)
    ensures
        r == (x + 7) / 8,
{
    x / 8 + if x % 8 != 0 { 1 } else { 0 }
}

/// Expands sub-byte samples into one byte per sample, holding the sample
/// value itself (not stretched to 0..=255).  Rows begin on byte
/// boundaries, so the trailing bits of a row's last byte are skipped.
pub fn expand_samples(raw: &[u8], width: u32, height: u32, colors: u32, bpc: u32) -> (r: Result<
    Vec<u8>,
    String,
>)
    requires
        1 <= bpc < 8,
        width * colors <= usize::MAX,
        width * colors * bpc <= usize::MAX,
        width * colors * height <= usize::MAX,
        row_stride((width * colors) as nat, bpc as nat) * height <= usize::MAX,
    ensures
        match spec_expand_samples(raw@, width, height, colors, bpc) {
            Ok(o) => r matches Ok(v) && v@ == o,
            Err(m) => r matches Err(e) && e@ == m,
        },
{
    let w = width as usize;
    let h = height as usize;
    let samples_per_row = w * colors as usize;
    let bits_per_row = samples_per_row * bpc as usize;
    let row_bytes = div_ceil8(bits_per_row);
    let total_samples = samples_per_row * h;
    let needed_bytes = row_bytes * h;
    let ghost spr = samples_per_row as nat;
    let ghost rbs = row_bytes as nat;
    assert(rbs == row_stride(spr, bpc as nat));
    if raw.len() < needed_bytes {
        let mut m = text_with_number("expand_samples: need ", needed_bytes as u64, " bytes for ");
        append_decimal(&mut m, h as u64);
        m.append(" rows of ");
        append_decimal(&mut m, row_bytes as u64);
        m.append(" bytes at ");
        append_decimal(&mut m, bpc as u64);
        m.append(" bpc, got ");
        append_decimal(&mut m, raw.len() as u64);
        return Err(m);
    }
    let modulus = pow2_u32(bpc);
    proof {
        lemma_pow2_mono(bpc as nat, 7);
        lemma_pow2_pos(bpc as nat);
        assert(pow2(7) == 128) by {
            reveal_with_fuel(pow2, 8);
        }
    }
    let mut out: Vec<u8> = Vec::with_capacity(total_samples);
    let mut row: usize = 0;
    while row < h
        invariant
            row <= h,
            1 <= bpc < 8,
            spr == samples_per_row,
            rbs == row_bytes,
            rbs == row_stride(spr, bpc as nat),
            samples_per_row * bpc == bits_per_row,
            row_bytes == (bits_per_row + 7) / 8,
            row_bytes * h == needed_bytes,
            needed_bytes <= raw.len(),
            modulus == pow2(bpc as nat),
            1 <= modulus <= 128,
            out@.len() == row * samples_per_row,
            forall|k: int| 0 <= k < out@.len() ==> out@[k] == sample_at(raw@, spr, bpc as nat, k),
        decreases h - row,
    {
        proof {
            assert((row + 1) * row_bytes <= h * row_bytes) by (nonlinear_arith)
                requires
                    row + 1 <= h,
            ;
            assert((row + 1) * row_bytes == row * row_bytes + row_bytes) by (nonlinear_arith);
        }
        let row_start = row * row_bytes;
        let mut s: usize = 0;
        while s < samples_per_row
            invariant
                row < h,
                s <= samples_per_row,
                1 <= bpc < 8,
                spr == samples_per_row,
                rbs == row_bytes,
                rbs == row_stride(spr, bpc as nat),
                samples_per_row * bpc == bits_per_row,
                row_bytes == (bits_per_row + 7) / 8,
                row_start == row * row_bytes,
                row_start + row_bytes <= raw.len(),
                modulus == pow2(bpc as nat),
                1 <= modulus <= 128,
                out@.len() == row * samples_per_row + s,
                forall|k: int| 0 <= k < out@.len() ==> out@[k] == sample_at(raw@, spr, bpc as nat, k),
            decreases samples_per_row - s,
        {
            proof {
                assert(s * bpc < samples_per_row * bpc) by (nonlinear_arith)
                    requires
                        s < samples_per_row,
                        bpc >= 1,
                ;
            }
            let bit_pos = s * bpc as usize;
            let byte_idx = row_start + bit_pos / 8;
            let bit_off = bit_pos % 8;
            let hi = raw[byte_idx] as u32;
            let lo: u32 = if byte_idx + 1 < raw.len() { raw[byte_idx + 1] as u32 } else { 0 };
            let window = hi * 256 + lo;
            let shift = (16 - bit_off - bpc as usize) as u32;
            let divisor = pow2_u32(shift);
            proof {
                lemma_pow2_pos(shift as nat);
                lemma_pow2_pos(bpc as nat);
            }
            let value = ((window / divisor) % modulus) as u8;
            assert((window / divisor) % modulus < modulus);
            proof {
                let k = row * samples_per_row + s;
                vstd::arithmetic::div_mod::lemma_fundamental_div_mod_converse(
                    k as int,
                    samples_per_row as int,
                    row as int,
                    s as int,
                );
                assert(k == row * samples_per_row + s) by (nonlinear_arith)
                    requires
                        k == row * samples_per_row + s,
                ;
                assert(value == sample_at(raw@, spr, bpc as nat, k));
            }
            out.push(value);
            s += 1;
        }
        row += 1;
        proof {
            assert(out@.len() == row * samples_per_row) by (nonlinear_arith)
                requires
                    out@.len() == (row - 1) * samples_per_row + samples_per_row,
            ;
        }
    }
    proof {
        assert(out@ =~= expanded_samples(raw@, spr, h as nat, bpc as nat)) by {
            assert(out@.len() == spr * h) by (nonlinear_arith)
                requires
                    out@.len() == h * samples_per_row,
                    spr == samples_per_row,
            ;
        }
    }
    Ok(out)
}


/// The sample value `v` of `bpc` bits stretched to 0..=255:
/// `round(v * 255 / (2^bpc - 1))`, halves rounded up, capped at 255.
pub open spec fn scaled_sample(v: u8, bpc: u32) -> u8 {
    let max_val = pow2(bpc as nat) - 1;
    let x = (v * 255 + max_val / 2) / max_val;
    if x > 255 { 255 } else { x as u8 }
}

proof fn lemma_pow2_shift8(e: nat)
    requires
        e >= 8,
    ensures
        pow2(e) == 256 * pow2((e - 8) as nat),
    decreases e,
{
    if e == 8 {
        assert(pow2(8) == 256) by {
            reveal_with_fuel(pow2, 9);
        }
        assert(pow2(0) == 1);
    } else {
        lemma_pow2_shift8((e - 1) as nat);
        assert(pow2(e) == 2 * pow2((e - 1) as nat));
        assert(pow2((e - 8) as nat) == 2 * pow2((e - 9) as nat));
    }
}

/// A sample that ends within its first byte does not read the next one.
proof fn lemma_sample_ignores_next_byte(hi: nat, lo: nat, bit_off: nat, bpc: nat)
    requires
        hi < 256,
        lo < 256,
        bit_off + bpc <= 8,
    ensures
        ((hi * 256 + lo) / pow2((16 - bit_off - bpc) as nat)) % pow2(bpc) == ((hi * 256 + 0) / pow2(
            (16 - bit_off - bpc) as nat,
        )) % pow2(bpc),
{
    let t = (16 - bit_off - bpc) as nat;
    lemma_pow2_shift8(t);
    let q = pow2((t - 8) as nat);
    lemma_pow2_pos((t - 8) as nat);
    vstd::arithmetic::div_mod::lemma_div_denominator((hi * 256 + lo) as int, 256, q as int);
    vstd::arithmetic::div_mod::lemma_div_denominator((hi * 256) as int, 256, q as int);
    assert((hi * 256 + lo) / 256 == hi);
    assert((hi * 256) / 256 == hi);
}

/// Where sample `k` of the image lies: its byte is within the image's
/// rows, and when that byte is the very last one of the image the sample
/// ends within it.
proof fn lemma_sample_position(spr: nat, height: nat, bpc: nat, k: int)
    requires
        1 <= bpc < 8,
        0 <= k < spr * height,
    ensures
        ({
            let r = k / spr as int;
            let bit_pos = (k % spr as int) * bpc;
            let stride = row_stride(spr, bpc);
            let byte_idx = r * stride + bit_pos / 8;
            &&& 0 <= byte_idx < stride * height
            &&& byte_idx + 1 == stride * height ==> bit_pos % 8 + bpc <= 8
        }),
{
    let sp = spr as int;
    assert(sp > 0) by (nonlinear_arith)
        requires
            0 <= k < sp * height,
            height >= 0,
    ;
    let r = k / sp;
    let s = k % sp;
    let bit_pos = s * bpc;
    let stride = row_stride(spr, bpc) as int;
    let q = bit_pos / 8;
    assert(0 <= r < height) by (nonlinear_arith)
        requires
            sp > 0,
            0 <= k < sp * height,
            r == k / sp,
    ;
    assert(0 <= s < sp);
    assert(bit_pos + bpc <= sp * bpc) by (nonlinear_arith)
        requires
            0 <= s < sp,
            bit_pos == s * bpc,
    ;
    assert(sp * bpc <= 8 * stride);
    assert(0 <= q <= stride - 1);
    assert(0 <= r * stride + q < stride * height) by (nonlinear_arith)
        requires
            0 <= r < height,
            0 <= q <= stride - 1,
            stride >= 1,
    ;
    if r * stride + q + 1 == stride * height {
        assert(r == height - 1 && q == stride - 1) by (nonlinear_arith)
            requires
                0 <= r < height,
                0 <= q <= stride - 1,
                r * stride + q + 1 == stride * height,
        ;
        assert(bit_pos % 8 == bit_pos - 8 * q);
    }
}

/// Bytes past the image's last row do not change the unpacked samples:
/// rows are read only as far as they reach.
pub proof fn lemma_expand_ignores_trailing_bytes(
    raw: Seq<u8>,
    extra: Seq<u8>,
    width: u32,
    height: u32,
    colors: u32,
    bpc: u32,
)
    requires
        1 <= bpc < 8,
        raw.len() >= row_stride((width * colors) as nat, bpc as nat) * height,
    ensures
        spec_expand_samples(raw + extra, width, height, colors, bpc) == spec_expand_samples(
            raw,
            width,
            height,
            colors,
            bpc,
        ),
{
    let spr = (width * colors) as nat;
    let b = bpc as nat;
    let all = raw + extra;
    let stride = row_stride(spr, b);
    assert forall|k: int| 0 <= k < spr * height implies #[trigger] sample_at(all, spr, b, k) == sample_at(
        raw,
        spr,
        b,
        k,
    ) by {
        lemma_sample_position(spr, height as nat, b, k);
        let r = k / spr as int;
        let bit_pos = (k % spr as int) * b;
        let byte_idx = r * stride + bit_pos / 8;
        let off = (bit_pos % 8) as nat;
        assert(all[byte_idx] == raw[byte_idx]);
        if byte_idx + 1 < raw.len() {
            assert(all[byte_idx + 1] == raw[byte_idx + 1]);
        } else {
            assert(byte_idx + 1 == stride * height);
            let lo: nat = if byte_idx + 1 < all.len() { all[byte_idx + 1] as nat } else { 0 };
            lemma_sample_ignores_next_byte(raw[byte_idx] as nat, lo, off, b);
        }
    }
    assert(expanded_samples(all, spr, height as nat, b) =~= expanded_samples(raw, spr, height as nat, b));
}

/// Stretching covers the full range in order: for sub-byte depths the
/// smallest sample becomes 0, the largest (`2^bpc - 1`) becomes 255, and
/// a larger sample never becomes a darker byte.
pub proof fn lemma_scaled_sample_range(bpc: u32, a: u8, b: u8)
    requires
        1 <= bpc < 8,
        a <= b,
    ensures
        scaled_sample(0, bpc) == 0,
        scaled_sample((pow2(bpc as nat) - 1) as u8, bpc) == 255,
        scaled_sample(a, bpc) <= scaled_sample(b, bpc),
{
    lemma_pow2_pos(bpc as nat);
    lemma_pow2_mono(1, bpc as nat);
    lemma_pow2_mono(bpc as nat, 7);
    assert(pow2(1) == 2) by {
        reveal_with_fuel(pow2, 2);
    }
    assert(pow2(7) == 128) by {
        reveal_with_fuel(pow2, 8);
    }
    let m: int = pow2(bpc as nat) - 1;
    assert(1 <= m < 128);
    assert((0 * 255 + m / 2) / m == 0) by (nonlinear_arith)
        requires
            m >= 1,
    ;
    assert((m * 255 + m / 2) / m == 255) by (nonlinear_arith)
        requires
            m >= 1,
    ;
    vstd::arithmetic::div_mod::lemma_div_is_ordered(a * 255 + m / 2, b * 255 + m / 2, m);
}

pub open spec fn spec_scale_gray(data: Seq<u8>, bpc: u32) -> Seq<u8> {
    if bpc == 8 {
        data
    } else {
        data.map_values(|v: u8| scaled_sample(v, bpc))
    }
}

/// Stretches sample values of `bpc` bits (already one per byte) to the
/// full 0..=255 range; for `bpc == 2` the values 0..=3 become 0, 85, 170
/// and 255.  `bpc == 8` copies the data unchanged.
pub fn scale_gray(data: &[u8], bpc: u32) -> (r: Vec<u8>)
    requires
        1 <= bpc < 32,
    ensures
        r@ == spec_scale_gray(data@, bpc),
{
    if bpc == 8 {
        return vstd::slice::slice_to_vec(data);
    }
    proof {
        lemma_pow2_pos(bpc as nat);
        lemma_pow2_mono(bpc as nat, 31);
        lemma_pow2_31();
        if bpc >= 1 {
            lemma_pow2_mono(1, bpc as nat);
            assert(pow2(1) == 2) by {
                reveal_with_fuel(pow2, 2);
            }
        }
    }
    let max_val = pow2_u32(bpc) - 1;
    let mut out: Vec<u8> = Vec::with_capacity(data.len());
    let mut i: usize = 0;
    while i < data.len()
        invariant
            i <= data.len(),
            bpc != 8,
            1 <= max_val < 0x8000_0000,
            max_val == pow2(bpc as nat) - 1,
            out@ =~= data@.subrange(0, i as int).map_values(|v: u8| scaled_sample(v, bpc)),
        decreases data.len() - i,
    {
        let v = data[i] as u32;
        let x = (v * 255 + max_val / 2) / max_val;
        let b: u8 = if x > 255 { 255 } else { x as u8 };
        out.push(b);
        i += 1;
        assert(data@.subrange(0, i as int) =~= data@.subrange(0, i - 1).push(data@[i - 1]));
    }
    assert(data@.subrange(0, data.len() as int) =~= data@);
    out
}

/// The samples of a raw image, one byte each, before they are read by
/// color space: sub-byte samples (`bpc` 1, 2 or 4) are unpacked and
/// stretched to 0..=255, 8-bit samples are taken as they are.
pub open spec fn spec_raw_samples(raw: Seq<u8>, width: u32, height: u32, color_space: Seq<char>, bpc: u32) -> Result<
    Seq<u8>,
    Seq<char>,
> {
    if bpc == 1 || bpc == 2 || bpc == 4 {
        let colors: u32 = if color_space == "DeviceRGB"@ {
            3
        } else if color_space == "DeviceGray"@ {
            1
        } else {
            4
        };
        if color_space != "DeviceRGB"@ && color_space != "DeviceGray"@ && color_space != "DeviceCMYK"@ {
            Err("color space "@ + color_space + " not supported for raw"@)
        } else {
            match spec_expand_samples(raw, width, height, colors, bpc) {
                Ok(e) => Ok(spec_scale_gray(e, bpc)),
                Err(m) => Err(m),
            }
        }
    } else if bpc == 8 {
        Ok(raw)
    } else {
        Err("BitsPerComponent "@ + dec_chars(bpc as nat) + " not supported for raw"@)
    }
}

/// How RGB and gray samples are read: the first `width * height` pixels,
/// which must all be present.
pub open spec fn spec_read_pixels(samples: Seq<u8>, width: u32, height: u32, color_space: Seq<char>) -> Result<
    (Seq<u8>, bool),
    Seq<char>,
> {
    if color_space == "DeviceRGB"@ {
        let expected = (width * height * 3) as nat;
        if samples.len() < expected {
            Err("raw RGB: expected "@ + dec_chars(expected) + " bytes, got "@ + dec_chars(samples.len()))
        } else {
            Ok((samples.subrange(0, expected as int), true))
        }
    } else if color_space == "DeviceGray"@ {
        let expected = (width * height) as nat;
        if samples.len() < expected {
            Err("raw Gray: expected "@ + dec_chars(expected) + " bytes, got "@ + dec_chars(samples.len()))
        } else {
            Ok((samples.subrange(0, expected as int), false))
        }
    } else {
        Err("color space "@ + color_space + " not supported for raw"@)
    }
}

/// `rgb` holds, for each complete group of four CMYK samples in
/// `samples`, three bytes that `convert` may return for that group.
pub open spec fn cmyk_converted<F: Fn(u8, u8, u8, u8) -> (u8, u8, u8)>(
    convert: F,
    samples: Seq<u8>,
    rgb: Seq<u8>,
) -> bool {
    &&& rgb.len() == 3 * (samples.len() / 4)
    &&& forall|i: int|
        0 <= i < samples.len() / 4 ==> #[trigger] convert.ensures(
            (samples[4 * i], samples[4 * i + 1], samples[4 * i + 2], samples[4 * i + 3]),
            (rgb[3 * i], rgb[3 * i + 1], rgb[3 * i + 2]),
        )
}

/// What reading raw samples yields in a color space other than CMYK:
/// the samples, then the pixels read from them.
pub open spec fn spec_interpret_raw(raw: Seq<u8>, width: u32, height: u32, color_space: Seq<char>, bpc: u32) -> Result<
    (Seq<u8>, bool),
    Seq<char>,
> {
    match spec_raw_samples(raw, width, height, color_space, bpc) {
        Err(m) => Err(m),
        Ok(s) => spec_read_pixels(s, width, height, color_space),
    }
}

/// Whether unpacking reads `bpc`-bit samples in `color_space` (one of
/// the three device spaces at 1, 2 or 4 bits per component).
pub open spec fn unpacks_sub_byte(color_space: Seq<char>, bpc: u32) -> bool {
    &&& bpc == 1 || bpc == 2 || bpc == 4
    &&& color_space == "DeviceRGB"@ || color_space == "DeviceGray"@ || color_space == "DeviceCMYK"@
}

/// The size limits under which reading a `width` by `height` raw image in
/// `color_space` at `bpc` bits per component does no arithmetic that
/// overflows: the byte count of an RGB or CMYK image, or the pixel count
/// of a gray one, fits in 32 bits, and unpacked sub-byte samples can be
/// counted in a machine word.
pub open spec fn raw_bounds(width: u32, height: u32, color_space: Seq<char>, bpc: u32) -> bool {
    &&& (color_space == "DeviceRGB"@ || color_space == "DeviceCMYK"@) ==> width * height * 3 <= u32::MAX
    &&& color_space == "DeviceGray"@ ==> width * height <= u32::MAX
    &&& unpacks_sub_byte(color_space, bpc) ==> width * height * 4 <= usize::MAX && width * 16 <= usize::MAX
}

/// Whether `raw_bounds` holds, for callers to test before reading.
pub fn raw_bounds_ok(width: u32, height: u32, color_space: &str, bpc: u32) -> (r: bool)
    ensures
        r == raw_bounds(width, height, color_space@, bpc),
{
    let (w, h) = (width as u128, height as u128);
    assert(w * h <= 0xffff_ffff * 0xffff_ffff) by (nonlinear_arith)
        requires
            w <= 0xffff_ffff,
            h <= 0xffff_ffff,
    ;
    let area = w * h;
    let rgb = str_eq(color_space, "DeviceRGB");
    let gray = str_eq(color_space, "DeviceGray");
    let cmyk = str_eq(color_space, "DeviceCMYK");
    let sub_byte = (bpc == 1 || bpc == 2 || bpc == 4) && (rgb || gray || cmyk);
    let bytes_ok = !(rgb || cmyk) || area * 3 <= 0xffff_ffff;
    let pixels_ok = !gray || area <= 0xffff_ffff;
    let words_ok = !sub_byte || (area * 4 <= usize::MAX as u128 && w * 16 <= usize::MAX as u128);
    bytes_ok && pixels_ok && words_ok
}

/// Whether a CMYK conversion gives at most one answer for each group of
/// four samples.
pub open spec fn deterministic_conversion<F: Fn(u8, u8, u8, u8) -> (u8, u8, u8)>(convert: F) -> bool {
    forall|c: u8, m: u8, y: u8, k: u8, a: (u8, u8, u8), b: (u8, u8, u8)|
        #![trigger convert.ensures((c, m, y, k), a), convert.ensures((c, m, y, k), b)]
        convert.ensures((c, m, y, k), a) && convert.ensures((c, m, y, k), b) ==> a == b
}

/// With a conversion that gives one answer per group, the converted
/// pixels of CMYK samples are determined: any two results that
/// `cmyk_converted` allows are equal.  So every path that converts the
/// same samples (`interpret_raw`, image decoding) gives the same pixels.
pub proof fn lemma_cmyk_conversion_unique<F: Fn(u8, u8, u8, u8) -> (u8, u8, u8)>(
    convert: F,
    samples: Seq<u8>,
    a: Seq<u8>,
    b: Seq<u8>,
)
    requires
        deterministic_conversion(convert),
        cmyk_converted(convert, samples, a),
        cmyk_converted(convert, samples, b),
    ensures
        a == b,
{
    assert forall|t: int| 0 <= t < a.len() implies a[t] == b[t] by {
        let i = t / 3;
        assert(0 <= i < samples.len() / 4 && t == 3 * i + t % 3 && 0 <= t % 3 < 3) by (nonlinear_arith)
            requires
                0 <= t < a.len(),
                a.len() == 3 * (samples.len() / 4),
                i == t / 3,
        ;
        let args = (samples[4 * i], samples[4 * i + 1], samples[4 * i + 2], samples[4 * i + 3]);
        assert(convert.ensures(args, (a[3 * i], a[3 * i + 1], a[3 * i + 2])));
        assert(convert.ensures(args, (b[3 * i], b[3 * i + 1], b[3 * i + 2])));
        assert((a[3 * i], a[3 * i + 1], a[3 * i + 2]) == (b[3 * i], b[3 * i + 1], b[3 * i + 2]));
    }
    assert(a =~= b);
}

/// The samples of `raw`, as `spec_raw_samples` describes them.
fn raw_samples(raw: &[u8], width: u32, height: u32, color_space: &str, bpc: u32) -> (r: Result<
    Vec<u8>,
    String,
>)
    requires
        unpacks_sub_byte(color_space@, bpc) ==> width * height * 4 <= usize::MAX && width * 16 <= usize::MAX,
    ensures
        match spec_raw_samples(raw@, width, height, color_space@, bpc) {
            Ok(s) => r matches Ok(v) && v@ == s,
            Err(m) => r matches Err(e) && e@ == m,
        },
{
    if bpc == 1 || bpc == 2 || bpc == 4 {
        let colors: u32 = if str_eq(color_space, "DeviceRGB") {
            3
        } else if str_eq(color_space, "DeviceGray") {
            1
        } else if str_eq(color_space, "DeviceCMYK") {
            4
        } else {
            let mut m = String::from_str("color space ");
            m.append(color_space);
            m.append(" not supported for raw");
            return Err(m);
        };
        proof {
            assert(width * colors * height <= width * height * 4) by (nonlinear_arith)
                requires
                    colors <= 4,
            ;
            assert(width * colors * bpc <= width * 16) by (nonlinear_arith)
                requires
                    colors <= 4,
                    bpc <= 4,
            ;
            assert(width * colors <= width * 16) by (nonlinear_arith)
                requires
                    colors <= 4,
            ;
            assert(row_stride((width * colors) as nat, bpc as nat) <= width * colors);
            assert(row_stride((width * colors) as nat, bpc as nat) * height <= width * colors * height)
                by (nonlinear_arith)
                requires
                    row_stride((width * colors) as nat, bpc as nat) <= width * colors,
            ;
        }
        let expanded = expand_samples(raw, width, height, colors, bpc)?;
        Ok(scale_gray(&expanded, bpc))
    } else if bpc == 8 {
        Ok(vstd::slice::slice_to_vec(raw))
    } else {
        Err(text_with_number("BitsPerComponent ", bpc as u64, " not supported for raw"))
    }
}

/// Converts each complete group of four CMYK samples with `cmyk_to_rgb`.
fn cmyk_pixels<F: Fn(u8, u8, u8, u8) -> (u8, u8, u8)>(samples: &Vec<u8>, cmyk_to_rgb: &F) -> (r: Vec<u8>)
    requires
        forall|c: u8, m: u8, y: u8, k: u8| #[trigger] cmyk_to_rgb.requires((c, m, y, k)),
    ensures
        cmyk_converted(*cmyk_to_rgb, samples@, r@),
{
    let n = samples.len() / 4;
    let mut rgb: Vec<u8> = Vec::new();
    let mut i: usize = 0;
    while i < n
        invariant
            i <= n,
            n == samples@.len() / 4,
            n == samples.len() / 4,
            forall|c: u8, m: u8, y: u8, k: u8| #[trigger] cmyk_to_rgb.requires((c, m, y, k)),
            rgb@.len() == 3 * i,
            forall|j: int|
                0 <= j < i ==> #[trigger] cmyk_to_rgb.ensures(
                    (samples@[4 * j], samples@[4 * j + 1], samples@[4 * j + 2], samples@[4 * j + 3]),
                    (rgb@[3 * j], rgb@[3 * j + 1], rgb@[3 * j + 2]),
                ),
        decreases n - i,
    {
        assert(4 * i + 3 < samples.len()) by (nonlinear_arith)
            requires
                i < n,
                n == samples.len() / 4,
        ;
        let base: usize = 4 * i;
        let (r, g, b) = cmyk_to_rgb(samples[base], samples[base + 1], samples[base + 2], samples[base + 3]);
        let ghost before = rgb@;
        rgb.push(r);
        rgb.push(g);
        rgb.push(b);
        proof {
            assert forall|j: int| 0 <= j < i + 1 implies #[trigger] cmyk_to_rgb.ensures(
                (samples@[4 * j], samples@[4 * j + 1], samples@[4 * j + 2], samples@[4 * j + 3]),
                (rgb@[3 * j], rgb@[3 * j + 1], rgb@[3 * j + 2]),
            ) by {
                if j < i {
                    assert(rgb@[3 * j] == before[3 * j]);
                    assert(rgb@[3 * j + 1] == before[3 * j + 1]);
                    assert(rgb@[3 * j + 2] == before[3 * j + 2]);
                }
            }
        }
        i += 1;
    }
    rgb
}

/// Reads RGB or gray samples as `spec_read_pixels` describes.
fn read_pixels(samples: &Vec<u8>, width: u32, height: u32, color_space: &str) -> (r: Result<
    (Vec<u8>, bool),
    String,
>)
    requires
        color_space@ == "DeviceRGB"@ ==> width * height * 3 <= u32::MAX,
        color_space@ == "DeviceGray"@ ==> width * height <= u32::MAX,
    ensures
        match spec_read_pixels(samples@, width, height, color_space@) {
            Ok((p, c)) => r matches Ok((v, c2)) && v@ == p && c2 == c,
            Err(m) => r matches Err(e) && e@ == m,
        },
{
    if str_eq(color_space, "DeviceRGB") {
        let expected = (width * height * 3) as usize;
        if samples.len() < expected {
            let mut m = text_with_number("raw RGB: expected ", expected as u64, " bytes, got ");
            append_decimal(&mut m, samples.len() as u64);
            return Err(m);
        }
        Ok((vstd::slice::slice_to_vec(vstd::slice::slice_subrange(samples.as_slice(), 0, expected)), true))
    } else if str_eq(color_space, "DeviceGray") {
        let expected = (width * height) as usize;
        if samples.len() < expected {
            let mut m = text_with_number("raw Gray: expected ", expected as u64, " bytes, got ");
            append_decimal(&mut m, samples.len() as u64);
            return Err(m);
        }
        Ok((vstd::slice::slice_to_vec(vstd::slice::slice_subrange(samples.as_slice(), 0, expected)), false))
    } else {
        let mut m = String::from_str("color space ");
        m.append(color_space);
        m.append(" not supported for raw");
        Err(m)
    }
}

/// Reads raw (filter-decoded) image data by color space and bits per
/// component.  Returns the pixels, 3 bytes (RGB) or 1 byte (gray) each,
/// and whether they are RGB.  CMYK pixels are turned into RGB by
/// `cmyk_to_rgb`, one pixel at a time.
pub fn interpret_raw<F: Fn(u8, u8, u8, u8) -> (u8, u8, u8)>(
    raw: &[u8],
    width: u32,
    height: u32,
    color_space: &str,
    bpc: u32,
    cmyk_to_rgb: &F,
) -> (r: Result<(Vec<u8>, bool), String>)
    requires
        raw_bounds(width, height, color_space@, bpc),
        forall|c: u8, m: u8, y: u8, k: u8| #[trigger] cmyk_to_rgb.requires((c, m, y, k)),
    ensures
        match spec_raw_samples(raw@, width, height, color_space@, bpc) {
            Err(m) => r matches Err(e) && e@ == m,
            Ok(s) => if color_space@ == "DeviceCMYK"@ {
                r matches Ok((v, c)) && c && cmyk_converted(*cmyk_to_rgb, s, v@)
            } else {
                match spec_read_pixels(s, width, height, color_space@) {
                    Ok((p, c)) => r matches Ok((v, c2)) && v@ == p && c2 == c,
                    Err(m) => r matches Err(e) && e@ == m,
                }
            },
        },
        color_space@ != "DeviceCMYK"@ ==> match spec_interpret_raw(raw@, width, height, color_space@, bpc) {
            Ok((p, c)) => r matches Ok((v, c2)) && v@ == p && c2 == c,
            Err(m) => r matches Err(e) && e@ == m,
        },
{
    let samples = raw_samples(raw, width, height, color_space, bpc)?;
    if str_eq(color_space, "DeviceCMYK") {
        Ok((cmyk_pixels(&samples, cmyk_to_rgb), true))
    } else {
        read_pixels(&samples, width, height, color_space)
    }
}

} // verus!
