//! Decimal formatting and small string helpers shared by the PDF writer
//! and the error messages.

use vstd::prelude::*;

verus! {

/// The ASCII decimal digits of `n`, most significant first, without
/// leading zeros (`0` is written as a single `'0'`).
pub open spec fn dec_digits(n: nat) -> Seq<u8>
    decreases n,
{
    if n < 10 {
        seq![(48 + n) as u8]
    } else {
        dec_digits(n / 10).push((48 + n % 10) as u8)
    }
}

/// The characters of the decimal representation of `n`.
pub open spec fn dec_chars(n: nat) -> Seq<char> {
    dec_digits(n).map_values(|b: u8| b as char)
}

/// `dec_digits(n)` left-padded with `'0'` to at least `width` digits.
pub open spec fn dec_digits_padded(n: nat, width: nat) -> Seq<u8> {
    let d = dec_digits(n);
    if d.len() < width {
        Seq::new((width - d.len()) as nat, |i: int| 48u8) + d
    } else {
        d
    }
}

/// Appends the decimal digits of `n` to `out`.
pub fn push_decimal(out: &mut Vec<u8>, n: u64)
    ensures
        final(out)@ == old(out)@ + dec_digits(n as nat),
    decreases n,
{
    if n >= 10 {
        push_decimal(out, n / 10);
    }
    out.push((48 + n % 10) as u8);
    proof {
        if n < 10 {
            assert(old(out)@ + dec_digits(n as nat) =~= old(out)@.push((48 + n % 10) as u8));
        } else {
            assert(old(out)@ + dec_digits(n as nat) =~= (old(out)@ + dec_digits((n / 10) as nat)).push(
                (48 + n % 10) as u8,
            ));
        }
    }
}


/// The one-character string of the decimal digit `d`.
fn digit_str(d: u64) -> (r: &'static str)
    requires
        d < 10,
    ensures
        r@ == seq![(48 + d) as char],
{
    proof {
        reveal_strlit("0");
        reveal_strlit("1");
        reveal_strlit("2");
        reveal_strlit("3");
        reveal_strlit("4");
        reveal_strlit("5");
        reveal_strlit("6");
        reveal_strlit("7");
        reveal_strlit("8");
        reveal_strlit("9");
    }
    if d == 0 {
        "0"
    } else if d == 1 {
        "1"
    } else if d == 2 {
        "2"
    } else if d == 3 {
        "3"
    } else if d == 4 {
        "4"
    } else if d == 5 {
        "5"
    } else if d == 6 {
        "6"
    } else if d == 7 {
        "7"
    } else if d == 8 {
        "8"
    } else {
        "9"
    }
}

/// Appends the decimal representation of `n` to the string `s`.
pub fn append_decimal(s: &mut String, n: u64)
    ensures
        final(s)@ == old(s)@ + dec_chars(n as nat),
    decreases n,
{
    if n >= 10 {
        append_decimal(s, n / 10);
    }
    s.append(digit_str(n % 10));
    proof {
        let d = dec_digits(n as nat);
        if n < 10 {
            assert(dec_chars(n as nat) =~= seq![(48 + n % 10) as char]);
        } else {
            let p = dec_digits((n / 10) as nat);
            assert(d =~= p.push((48 + n % 10) as u8));
            assert(dec_chars(n as nat) =~= dec_chars((n / 10) as nat) + seq![(48 + n % 10) as char]);
        }
        assert(final(s)@ =~= old(s)@ + dec_chars(n as nat));
    }
}

/// A new string made of `a`, the decimal form of `n`, and `b`.
pub fn text_with_number(a: &str, n: u64, b: &str) -> (r: String)
    ensures
        r@ == a@ + dec_chars(n as nat) + b@,
{
    let mut s = String::from_str(a);
    append_decimal(&mut s, n);
    s.append(b);
    s
}

/// Whether two string slices hold the same characters.
pub fn str_eq(a: &str, b: &str) -> (r: bool)
    ensures
        r == (a@ == b@),
{
    let x = String::from_str(a);
    let y = String::from_str(b);
    x.eq(&y)
}

} // verus!
