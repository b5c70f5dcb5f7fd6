//! Command-line tokens: offsets and payload bytes.

use vstd::prelude::*;
use crate::error::ErrorKind;

verus! {

/// The value of a character as a digit: `0` to `9`, then the letters of
/// either case from ten on.
pub open spec fn char_value(c: char) -> Option<nat> {
    if '0' <= c <= '9' {
        Some((c as int - '0' as int) as nat)
    } else if 'a' <= c <= 'z' {
        Some((c as int - 'a' as int + 10) as nat)
    } else if 'A' <= c <= 'Z' {
        Some((c as int - 'A' as int + 10) as nat)
    } else {
        None
    }
}

/// The value of a character as a digit of `radix`, if it is one.
pub open spec fn digit_value(c: char, radix: nat) -> Option<nat> {
    match char_value(c) {
        Some(v) if v < radix => Some(v),
        _ => None,
    }
}

/// The value of a run of digits, most significant first; `None` where a
/// character is no digit of `radix`. The empty run has the value zero.
pub open spec fn digits_value(s: Seq<char>, radix: nat) -> Option<nat>
    decreases s.len(),
{
    if s.len() == 0 {
        Some(0)
    } else {
        match (digits_value(s.drop_last(), radix), digit_value(s.last(), radix)) {
            (Some(high), Some(low)) => Some(high * radix + low),
            _ => None,
        }
    }
}

/// The value of an unsigned number: an optional `+`, then at least one digit.
pub open spec fn number_value(s: Seq<char>, radix: nat) -> Option<nat> {
    let digits = if s.len() > 0 && s[0] == '+' {
        s.skip(1)
    } else {
        s
    };
    if digits.len() == 0 {
        None
    } else {
        digits_value(digits, radix)
    }
}

/// A value that is there and at most `limit`.
pub open spec fn within(v: Option<nat>, limit: u64) -> Option<u64> {
    match v {
        Some(n) if n <= limit => Some(n as u64),
        _ => None,
    }
}

/// The value of an offset token: hexadecimal behind the prefix `0x`, else
/// decimal.
pub open spec fn offset_value(s: Seq<char>) -> Option<nat> {
    if s.len() >= 2 && s[0] == '0' && s[1] == 'x' {
        number_value(s.skip(2), 16)
    } else {
        number_value(s, 10)
    }
}

/// What an offset token parses to.
pub open spec fn parsed_offset(s: Seq<char>) -> Result<u64, ErrorKind> {
    match within(offset_value(s), u64::MAX) {
        Some(v) => Ok(v),
        None => Err(ErrorKind::InvalidOffsetToken),
    }
}

/// What a payload token parses to: a hexadecimal number of at most 255.
pub open spec fn parsed_byte(s: Seq<char>) -> Result<u8, ErrorKind> {
    match within(number_value(s, 16), 255) {
        Some(v) => Ok(v as u8),
        None => Err(ErrorKind::InvalidByteToken),
    }
}

/// The value of a run of digits is at least the value of each of its
/// prefixes, and where the run is all digits, so is each prefix.
pub proof fn lemma_prefix_value(s: Seq<char>, radix: nat, k: int)
    requires
        0 <= k <= s.len(),
        radix >= 1,
        digits_value(s, radix) is Some,
    ensures
        digits_value(s.take(k), radix) is Some,
        digits_value(s.take(k), radix)->Some_0 <= digits_value(s, radix)->Some_0,
    decreases s.len(),
{
    if k == s.len() {
        assert(s.take(k) =~= s);
    } else {
        let front = s.drop_last();
        assert(front.take(k) =~= s.take(k));
        lemma_prefix_value(front, radix, k);
        let high = digits_value(front, radix)->Some_0;
        assert(high <= high * radix) by (nonlinear_arith)
            requires
                radix >= 1,
        ;
    }
}

/// The characters of a string slice.
fn chars_of(s: &str) -> (v: Vec<char>)
    ensures
        v@ == s@,
{
    let mut v: Vec<char> = Vec::new();
    for c in it: s.chars()
        invariant
            it.seq() == s@,
            v@ == it.seq().take(it.index()),
    {
        v.push(c);
        assert(it.seq().take(it.index() + 1) =~= it.seq().take(it.index()).push(c));
    }
    assert(v@ =~= s@);
    v
}

/// Computes the value of a character as a digit of `radix`.
fn digit_of(c: char, radix: u64) -> (d: Option<u64>)
    ensures
        match d {
            Some(v) => digit_value(c, radix as nat) == Some(v as nat),
            None => digit_value(c, radix as nat) is None,
        },
{
    let v: u64 = if '0' <= c && c <= '9' {
        (c as u64) - ('0' as u64)
    } else if 'a' <= c && c <= 'z' {
        (c as u64) - ('a' as u64) + 10
    } else if 'A' <= c && c <= 'Z' {
        (c as u64) - ('A' as u64) + 10
    } else {
        return None;
    };
    if v < radix {
        Some(v)
    } else {
        None
    }
}

/// Reads the unsigned number that starts at `from`, up to `limit`.
fn parse_number(chars: &Vec<char>, from: usize, radix: u64, limit: u64) -> (r: Option<u64>)
    requires
        from <= chars@.len(),
        radix >= 1,
    ensures
        r == within(number_value(chars@.skip(from as int), radix as nat), limit),
{
    let len = chars.len();
    let mut i = from;
    if i < len && chars[i] == '+' {
        i += 1;
    }
    if i == len {
        return None;
    }
    let start = i;
    let ghost digits = chars@.skip(start as int);
    assert(number_value(chars@.skip(from as int), radix as nat) == digits_value(digits, radix as nat))
        by {
        if start > from {
            assert(chars@.skip(from as int).skip(1) =~= digits);
        }
    }
    let mut acc: u64 = 0;
    while i < len
        invariant
            start <= i <= len,
            len == chars@.len(),
            radix >= 1,
            digits == chars@.skip(start as int),
            number_value(chars@.skip(from as int), radix as nat) == digits_value(
                digits,
                radix as nat,
            ),
            digits_value(digits.take(i - start), radix as nat) == Some(acc as nat),
            acc <= limit,
        decreases len - i,
    {
        let ghost next = digits.take(i - start + 1);
        proof {
            assert(next.drop_last() =~= digits.take(i - start));
            assert(next.last() == chars@[i as int]);
            if digits_value(digits, radix as nat) is Some {
                lemma_prefix_value(digits, radix as nat, i - start + 1);
            }
        }
        match digit_of(chars[i], radix) {
            None => {
                return None;
            },
            Some(d) => {
                if d > limit || acc > (limit - d) / radix {
                    proof {
                        assert(acc * radix + d > limit) by (nonlinear_arith)
                            requires
                                radix >= 1,
                                d > limit || (d <= limit && acc > (limit - d) / (radix as int)),
                        ;
                    }
                    return None;
                }
                proof {
                    assert(acc * radix + d <= limit) by (nonlinear_arith)
                        requires
                            radix >= 1,
                            d <= limit,
                            acc <= (limit - d) / (radix as int),
                    ;
                }
                acc = acc * radix + d;
            },
        }
        i += 1;
    }
    assert(digits.take(len - start) =~= digits);
    Some(acc)
}

/// Parses an offset: hexadecimal digits behind the prefix `0x`, else a
/// decimal number. One `+` may stand before the digits.
pub fn parse_offset(s: &str) -> (r: Result<u64, ErrorKind>)
    ensures
        r == parsed_offset(s@),
{
    let chars = chars_of(s);
    let value = if chars.len() >= 2 && chars[0] == '0' && chars[1] == 'x' {
        parse_number(&chars, 2, 16, u64::MAX)
    } else {
        assert(chars@.skip(0) =~= chars@);
        parse_number(&chars, 0, 10, u64::MAX)
    };
    match value {
        Some(v) => Ok(v),
        None => Err(ErrorKind::InvalidOffsetToken),
    }
}

/// Parses a payload byte: a hexadecimal number of at most 255. One `+` may
/// stand before the digits.
pub fn parse_byte(s: &str) -> (r: Result<u8, ErrorKind>)
    ensures
        r == parsed_byte(s@),
{
    let chars = chars_of(s);
    assert(chars@.skip(0) =~= chars@);
    match parse_number(&chars, 0, 16, 255) {
        Some(v) => Ok(v as u8),
        None => Err(ErrorKind::InvalidByteToken),
    }
}

} // verus!
