//! Hexadecimal notation: digits, bytes as digit pairs, padded numbers.

use vstd::prelude::*;

verus! {

/// The upper-case hexadecimal digit for a value below sixteen.
pub open spec fn hex_digit(n: int) -> char {
    if n < 10 {
        ('0' as int + n) as char
    } else {
        ('A' as int + n - 10) as char
    }
}

/// A byte as its two hexadecimal digits, high nibble first.
pub open spec fn hex_pair(b: u8) -> Seq<char> {
    seq![hex_digit(b as int / 16), hex_digit(b as int % 16)]
}

/// A number in hexadecimal, most significant digit first, with leading
/// zeros up to `min_digits` digits; at least one digit is always written.
pub open spec fn hex_number(v: nat, min_digits: nat) -> Seq<char>
    decreases v, min_digits,
{
    if v < 16 && min_digits <= 1 {
        seq![hex_digit(v as int)]
    } else {
        hex_number(v / 16, if min_digits > 0 { (min_digits - 1) as nat } else { 0 }).push(
            hex_digit((v % 16) as int),
        )
    }
}

/// Computes the digit for a value below sixteen.
pub fn hex_digit_of(n: u8) -> (c: char)
    requires
        n < 16,
    ensures
        c == hex_digit(n as int),
{
    if n < 10 {
        (48u8 + n) as char
    } else {
        (55u8 + n) as char
    }
}

/// Appends the two digits of `b` to `out`.
pub fn push_hex_pair(out: &mut String, b: u8)
    ensures
        final(out)@ == old(out)@ + hex_pair(b),
{
    out.push(hex_digit_of(b / 16));
    out.push(hex_digit_of(b % 16));
    assert(out@ =~= old(out)@ + hex_pair(b));
}

/// Appends `v` in hexadecimal to `out`, padded with zeros to `min_digits`.
pub fn push_hex_number(out: &mut String, v: u64, min_digits: usize)
    ensures
        final(out)@ == old(out)@ + hex_number(v as nat, min_digits as nat),
    decreases v, min_digits,
{
    if v >= 16 || min_digits > 1 {
        push_hex_number(out, v / 16, if min_digits > 0 { min_digits - 1 } else { 0 });
    }
    out.push(hex_digit_of((v % 16) as u8));
    assert(out@ =~= old(out)@ + hex_number(v as nat, min_digits as nat));
}

} // verus!
