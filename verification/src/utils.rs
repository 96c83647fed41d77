//! Conversion between RGB colours and their six-digit hexadecimal form.

use vstd::prelude::*;

use crate::strings::{byte_len, push_char, utf8_len};

verus! {

/// The lower-case hexadecimal digit for a value below 16.
pub open spec fn hex_digit(n: u8) -> char {
    if n < 10 {
        (n + 48) as char
    } else {
        (n + 87) as char
    }
}

/// The two lower-case hexadecimal digits of a byte, zero-padded.
pub open spec fn hex_byte(b: u8) -> Seq<char> {
    seq![hex_digit(b / 16), hex_digit(b % 16)]
}

/// The six-digit lower-case hexadecimal form of a colour.
pub open spec fn color_hex(r: u8, g: u8, b: u8) -> Seq<char> {
    hex_byte(r) + hex_byte(g) + hex_byte(b)
}

/// The value of a hexadecimal digit (either case), if `c` is one.
pub open spec fn hex_value(c: char) -> Option<u8> {
    if '0' <= c <= '9' {
        Some((c as u32 - 48) as u8)
    } else if 'a' <= c <= 'f' {
        Some((c as u32 - 87) as u8)
    } else if 'A' <= c <= 'F' {
        Some((c as u32 - 55) as u8)
    } else {
        None
    }
}

/// How a two-character base-16 field is read as a byte: either two digits,
/// or a `+` sign followed by one digit.
pub open spec fn parse_hex_pair(c0: char, c1: char) -> Option<u8> {
    if c0 == '+' {
        match hex_value(c1) {
            Some(v) => Some(v),
            None => None,
        }
    } else {
        match (hex_value(c0), hex_value(c1)) {
            (Some(h), Some(l)) => Some((16 * h + l) as u8),
            _ => None,
        }
    }
}

/// Six characters forming three readable two-character base-16 fields.
pub open spec fn valid_hex_color(s: Seq<char>) -> bool {
    &&& s.len() == 6
    &&& parse_hex_pair(s[0], s[1]) is Some
    &&& parse_hex_pair(s[2], s[3]) is Some
    &&& parse_hex_pair(s[4], s[5]) is Some
}

/// The colour that a string of six bytes is read as; any string whose UTF-8
/// form is not six bytes long reads as black.
pub open spec fn spec_hex_to_color(s: Seq<char>) -> (u8, u8, u8) {
    if utf8_len(s) != 6 {
        (0, 0, 0)
    } else {
        (
            parse_hex_pair(s[0], s[1])->0,
            parse_hex_pair(s[2], s[3])->0,
            parse_hex_pair(s[4], s[5])->0,
        )
    }
}

fn hex_digit_exec(n: u8) -> (c: char)
    requires
        n < 16,
    ensures
        c == hex_digit(n),
{
    if n < 10 {
        (n + 48) as char
    } else {
        (n + 87) as char
    }
}

fn hex_value_exec(c: char) -> (r: Option<u8>)
    ensures
        r == hex_value(c),
{
    if '0' <= c && c <= '9' {
        Some((c as u32 - 48) as u8)
    } else if 'a' <= c && c <= 'f' {
        Some((c as u32 - 87) as u8)
    } else if 'A' <= c && c <= 'F' {
        Some((c as u32 - 55) as u8)
    } else {
        None
    }
}

fn parse_hex_pair_exec(c0: char, c1: char) -> (r: Option<u8>)
    ensures
        r == parse_hex_pair(c0, c1),
{
    if c0 == '+' {
        hex_value_exec(c1)
    } else {
        match (hex_value_exec(c0), hex_value_exec(c1)) {
            (Some(h), Some(l)) => Some(16 * h + l),
            _ => None,
        }
    }
}

fn push_hex_byte(s: &mut String, b: u8)
    ensures
        final(s)@ == old(s)@ + hex_byte(b),
{
    push_char(s, hex_digit_exec(b / 16));
    push_char(s, hex_digit_exec(b % 16));
}

/// Formats a colour as six lower-case hexadecimal digits, two per channel.
pub fn color_to_hex_string(r: u8, g: u8, b: u8) -> (s: String)
    ensures
        s@ == color_hex(r, g, b),
{
    let mut s = String::new();
    push_hex_byte(&mut s, r);
    push_hex_byte(&mut s, g);
    push_hex_byte(&mut s, b);
    s
}

/// Reads a six-byte hexadecimal colour; any string of another byte length
/// gives black.
pub fn hex_string_to_color(hex: String) -> (c: (u8, u8, u8))
    requires
        utf8_len(hex@) == 6 ==> valid_hex_color(hex@),
    ensures
        c == spec_hex_to_color(hex@),
{
    if byte_len(&hex) != 6 {
        return (0, 0, 0);
    }
    let s = hex.as_str();
    let r = parse_hex_pair_exec(s.get_char(0), s.get_char(1));
    let g = parse_hex_pair_exec(s.get_char(2), s.get_char(3));
    let b = parse_hex_pair_exec(s.get_char(4), s.get_char(5));
    (r.unwrap(), g.unwrap(), b.unwrap())
}

/// Whether `hex_string_to_color` can read `hex`: any string that is not
/// six bytes long can, and one that is must be a hexadecimal colour.
pub fn hex_color_readable(hex: &String) -> (b: bool)
    ensures
        b == (utf8_len(hex@) == 6 ==> valid_hex_color(hex@)),
{
    if byte_len(hex) != 6 {
        return true;
    }
    let s = hex.as_str();
    if s.unicode_len() != 6 {
        return false;
    }
    parse_hex_pair_exec(s.get_char(0), s.get_char(1)).is_some() && parse_hex_pair_exec(
        s.get_char(2),
        s.get_char(3),
    ).is_some() && parse_hex_pair_exec(s.get_char(4), s.get_char(5)).is_some()
}

proof fn lemma_hex_digit_value(n: u8)
    requires
        n < 16,
    ensures
        hex_value(hex_digit(n)) == Some(n),
        hex_digit(n) != '+',
        '0' <= hex_digit(n) <= 'f',
{
}

/// Every colour's hexadecimal form is six ASCII characters (so six bytes),
/// and reading it back gives the same colour.
pub proof fn lemma_color_hex_roundtrip(r: u8, g: u8, b: u8)
    ensures
        valid_hex_color(color_hex(r, g, b)),
        utf8_len(color_hex(r, g, b)) == 6,
        spec_hex_to_color(color_hex(r, g, b)) == (r, g, b),
{
    let s = color_hex(r, g, b);
    lemma_hex_digit_value(r / 16);
    lemma_hex_digit_value(r % 16);
    lemma_hex_digit_value(g / 16);
    lemma_hex_digit_value(g % 16);
    lemma_hex_digit_value(b / 16);
    lemma_hex_digit_value(b % 16);
    assert(s[0] == hex_digit(r / 16) && s[1] == hex_digit(r % 16));
    assert(s[2] == hex_digit(g / 16) && s[3] == hex_digit(g % 16));
    assert(s[4] == hex_digit(b / 16) && s[5] == hex_digit(b % 16));
    assert(vstd::utf8::is_ascii_chars(s));
    vstd::utf8::is_ascii_chars_encode_utf8(s);
}

} // verus!
