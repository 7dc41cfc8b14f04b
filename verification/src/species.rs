//! Species data: the defaults of a species file and the colour notation.

use vstd::prelude::*;
use crate::text::{chars_of, strip_leading, trim_bounds, trim_ws, skip_char};

verus! {

/// Default world seed.
pub fn d_seed() -> (r: u32)
    ensures
        r == 1337,
{
    1_337
}

/// Default number of plants on the hillside.
pub fn d_plant_count() -> (r: usize)
    ensures
        r == 9,
{
    9
}

/// Default number of rewrite passes.
pub fn d_iterations() -> (r: u32)
    ensures
        r == 5,
{
    5
}

/// Default stem colour.
pub fn d_stem_color() -> (r: String)
    ensures
        r@ == "#6B4A2F"@,
{
    "#6B4A2F".to_owned()
}

/// Default leaf colour.
pub fn d_leaf_color() -> (r: String)
    ensures
        r@ == "#4E8C3A"@,
{
    "#4E8C3A".to_owned()
}

/// Default autumn leaf colour.
pub fn d_autumn_color() -> (r: String)
    ensures
        r@ == "#C4772F"@,
{
    "#C4772F".to_owned()
}

/// Default flower colour.
pub fn d_flower_color() -> (r: String)
    ensures
        r@ == "#E0A6C0"@,
{
    "#E0A6C0".to_owned()
}

/// The value of a hexadecimal digit.
pub open spec fn hex_value(c: char) -> Option<u8> {
    if '0' <= c <= '9' {
        Some(((c as u32) - 48) as u8)
    } else if 'a' <= c <= 'f' {
        Some(((c as u32) - 87) as u8)
    } else if 'A' <= c <= 'F' {
        Some(((c as u32) - 55) as u8)
    } else {
        None
    }
}

/// The byte two hexadecimal digits denote, high digit first.
pub open spec fn hex_pair(a: char, b: char) -> Option<u8> {
    match (hex_value(a), hex_value(b)) {
        (Some(x), Some(y)) => Some((x * 16 + y) as u8),
        _ => None,
    }
}

/// The colour a `#RRGGBB` or `#RGB` text denotes (after trimming and
/// dropping leading `#`s); in the short form each digit is doubled.
pub open spec fn hex_rgb(h: Seq<char>) -> Option<(u8, u8, u8)> {
    if h.len() == 3 {
        match (hex_value(h[0]), hex_value(h[1]), hex_value(h[2])) {
            (Some(r), Some(g), Some(b)) => Some(((r * 17) as u8, (g * 17) as u8, (b * 17) as u8)),
            _ => None,
        }
    } else if h.len() == 6 {
        match (hex_pair(h[0], h[1]), hex_pair(h[2], h[3]), hex_pair(h[4], h[5])) {
            (Some(r), Some(g), Some(b)) => Some((r, g, b)),
            _ => None,
        }
    } else {
        None
    }
}

/// The colour digits of a colour text: trimmed, without leading `#`s.
pub open spec fn colour_digits(s: Seq<char>) -> Seq<char> {
    strip_leading(trim_ws(s), '#')
}

fn hex_digit(c: char) -> (r: Option<u8>)
    ensures
        r == hex_value(c),
{
    if '0' <= c && c <= '9' {
        Some((c as u32 - 48) as u8)
    } else if 'a' <= c && c <= 'f' {
        Some((c as u32 - 87) as u8)
    } else if 'A' <= c && c <= 'F' {
        Some((c as u32 - 55) as u8)
    } else {
        None
    }
}

fn hex_byte(a: char, b: char) -> (r: Option<u8>)
    ensures
        r == hex_pair(a, b),
{
    match (hex_digit(a), hex_digit(b)) {
        (Some(x), Some(y)) => Some(x * 16 + y),
        _ => None,
    }
}

/// Parse `"#RRGGBB"` (or `"#RGB"`) into red, green and blue; `None` on
/// anything odd, where the caller uses its default colour.
pub fn parse_hex(s: &str) -> (r: Option<(u8, u8, u8)>)
    ensures
        r == hex_rgb(colour_digits(s@)),
{
    let v = chars_of(s);
    let (lo, hi) = trim_bounds(&v);
    let start = skip_char(&v, lo, hi, '#');
    let n = hi - start;
    if n == 3 {
        match (hex_digit(v[start]), hex_digit(v[start + 1]), hex_digit(v[start + 2])) {
            (Some(r), Some(g), Some(b)) => Some((r * 17, g * 17, b * 17)),
            _ => None,
        }
    } else if n == 6 {
        match (
            hex_byte(v[start], v[start + 1]),
            hex_byte(v[start + 2], v[start + 3]),
            hex_byte(v[start + 4], v[start + 5]),
        ) {
            (Some(r), Some(g), Some(b)) => Some((r, g, b)),
            _ => None,
        }
    } else {
        None
    }
}


/// Whether `c` is a hexadecimal digit, in either case.
pub open spec fn is_hex_char(c: char) -> bool {
    ||| '0' <= c <= '9'
    ||| 'a' <= c <= 'f'
    ||| 'A' <= c <= 'F'
}

/// The number a hexadecimal digit stands for: `0`-`9` are 0 to 9, and `a`-`f`
/// and `A`-`F` alike are 10 to 15.
pub open spec fn hex_number(c: char) -> int {
    if '0' <= c <= '9' {
        (c as int) - ('0' as int)
    } else if 'a' <= c <= 'f' {
        (c as int) - ('a' as int) + 10
    } else {
        (c as int) - ('A' as int) + 10
    }
}

/// A letter raised to upper case; other characters are kept.
pub open spec fn ascii_upper_char(c: char) -> char {
    if 'a' <= c <= 'z' {
        ((c as u32) - 32) as char
    } else {
        c
    }
}

proof fn lemma_hex_value_number(c: char)
    ensures
        is_hex_char(c) ==> hex_value(c) == Some(hex_number(c) as u8),
        is_hex_char(c) ==> 0 <= hex_number(c) < 16,
        !is_hex_char(c) ==> hex_value(c) is None,
        hex_value(ascii_upper_char(c)) == hex_value(c),
{
}

/// A colour's digits read the same in either case: every digit pair denotes
/// the byte `16 * high + low`, and a short colour's digits the bytes
/// `17 * digit`, with `a`-`f` and `A`-`F` both worth 10 to 15; anything but
/// three or six hexadecimal digits denotes no colour; and raising the letters
/// to upper case never changes the colour.
pub proof fn lemma_hex_colours(h: Seq<char>)
    ensures
        h.len() == 6 && (forall|i: int| 0 <= i < 6 ==> is_hex_char(#[trigger] h[i])) ==> hex_rgb(h) == Some((
            (16 * hex_number(h[0]) + hex_number(h[1])) as u8,
            (16 * hex_number(h[2]) + hex_number(h[3])) as u8,
            (16 * hex_number(h[4]) + hex_number(h[5])) as u8,
        )),
        h.len() == 3 && (forall|i: int| 0 <= i < 3 ==> is_hex_char(#[trigger] h[i])) ==> hex_rgb(h) == Some((
            (17 * hex_number(h[0])) as u8,
            (17 * hex_number(h[1])) as u8,
            (17 * hex_number(h[2])) as u8,
        )),
        (hex_rgb(h) is Some) <==> ((h.len() == 3 || h.len() == 6) && forall|i: int| 0 <= i < h.len() ==> is_hex_char(#[trigger] h[i])),
        hex_rgb(h.map_values(|c: char| ascii_upper_char(c))) == hex_rgb(h),
{
    let u = h.map_values(|c: char| ascii_upper_char(c));
    assert forall|i: int| 0 <= i < h.len() implies hex_value(#[trigger] u[i]) == hex_value(h[i]) && (is_hex_char(h[i]) <==> hex_value(h[i]) is Some) by {
        lemma_hex_value_number(h[i]);
    }
    if h.len() == 3 || h.len() == 6 {
        lemma_hex_value_number(h[0]);
        lemma_hex_value_number(h[1]);
        lemma_hex_value_number(h[2]);
        if h.len() == 6 {
            lemma_hex_value_number(h[3]);
            lemma_hex_value_number(h[4]);
            lemma_hex_value_number(h[5]);
        }
        assert(hex_value(u[0]) == hex_value(h[0]));
        assert(hex_value(u[1]) == hex_value(h[1]));
        assert(hex_value(u[2]) == hex_value(h[2]));
        if h.len() == 6 {
            assert(hex_value(u[3]) == hex_value(h[3]));
            assert(hex_value(u[4]) == hex_value(h[4]));
            assert(hex_value(u[5]) == hex_value(h[5]));
        }
        if hex_rgb(h) is Some {
            assert forall|i: int| 0 <= i < h.len() implies is_hex_char(#[trigger] h[i]) by {
                lemma_hex_value_number(h[i]);
            }
        }
    }
}

} // verus!
