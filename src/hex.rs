//! Hexadecimal text, through rustc-serialize's `hex` module.
use vstd::prelude::*;
use rustc_serialize::hex::{FromHex, ToHex};

verus! {

/// The value of a hexadecimal digit, or -1.
pub open spec fn hex_digit_val(c: char) -> int {
    if '0' <= c && c <= '9' {
        c as int - '0' as int
    } else if 'a' <= c && c <= 'f' {
        c as int - 'a' as int + 10
    } else if 'A' <= c && c <= 'F' {
        c as int - 'A' as int + 10
    } else {
        -1
    }
}

/// The characters that hex decoding skips.
pub open spec fn is_hex_space(c: char) -> bool {
    c == ' ' || c == '\r' || c == '\n' || c == '\t'
}

/// The digit values of `s` with whitespace skipped; `None` at any other character.
pub open spec fn hex_digits(s: Seq<char>) -> Option<Seq<int>>
    decreases s.len(),
{
    if s.len() == 0 {
        Some(Seq::empty())
    } else {
        match hex_digits(s.subrange(1, s.len() as int)) {
            Some(d) => if is_hex_space(s[0]) {
                Some(d)
            } else if hex_digit_val(s[0]) < 0 {
                None
            } else {
                Some(seq![hex_digit_val(s[0])] + d)
            },
            None => None,
        }
    }
}

/// Digit values taken two at a time, high digit first.
pub open spec fn pair_up(d: Seq<int>) -> Seq<u8>
    decreases d.len(),
{
    if d.len() < 2 {
        Seq::empty()
    } else {
        seq![(d[0] * 16 + d[1]) as u8] + pair_up(d.subrange(2, d.len() as int))
    }
}

/// The bytes that the hex text `s` stands for: `None` where a character is
/// neither a hex digit nor whitespace, or the digits do not pair up.
pub open spec fn hex_decode(s: Seq<char>) -> Option<Seq<u8>> {
    match hex_digits(s) {
        Some(d) => if d.len() % 2 == 0 {
            Some(pair_up(d))
        } else {
            None
        },
        None => None,
    }
}

/// A lowercase hex digit.
pub open spec fn lower_digit(n: int) -> char {
    if n < 10 {
        (n + 48) as char
    } else {
        (n + 87) as char
    }
}

/// Two lowercase hex digits for each byte, high digit first.
pub open spec fn hex_encode(b: Seq<u8>) -> Seq<char>
    decreases b.len(),
{
    if b.len() == 0 {
        Seq::empty()
    } else {
        seq![lower_digit(b[0] as int / 16), lower_digit(b[0] as int % 16)] + hex_encode(
            b.subrange(1, b.len() as int),
        )
    }
}

/// Relies on rustc-serialize's `FromHex for str`: whitespace is skipped, any
/// other character must be a hex digit, and the digits must pair up.
#[verifier::external_body]
pub fn from_hex(s: &str) -> (r: Option<Vec<u8>>)
    ensures
        match hex_decode(s@) {
            Some(b) => r matches Some(v) && v@ == b,
            None => r is None,
        },
{
    s.from_hex().ok()
}

/// Relies on rustc-serialize's `ToHex for [u8]`: two lowercase digits per byte.
#[verifier::external_body]
pub fn to_hex(b: &[u8]) -> (r: String)
    ensures
        r@ == hex_encode(b@),
{
    b.to_hex()
}

} // verus!
