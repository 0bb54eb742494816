//! Colours given as `#rrggbb` text.

use vstd::prelude::*;
use vstd::string::StringSliceAdditionalSpecFns;

verus! {

/// Number of leading '#' bytes.
pub open spec fn leading_hashes(bytes: Seq<u8>) -> nat
    decreases bytes.len(),
{
    if bytes.len() > 0 && bytes[0] == 0x23 {
        1 + leading_hashes(bytes.drop_first())
    } else {
        0
    }
}

/// The bytes after the leading '#' bytes.
pub open spec fn without_hashes(bytes: Seq<u8>) -> Seq<u8> {
    bytes.subrange(leading_hashes(bytes) as int, bytes.len() as int)
}

/// Whether a byte continues a multi-byte UTF-8 character (a text cannot be split before it).
pub open spec fn is_continuation_byte(b: u8) -> bool {
    0x80 <= b <= 0xBF
}

/// Value of a hexadecimal digit byte ('0'-'9', 'a'-'f', 'A'-'F').
pub open spec fn hex_digit_value(b: u8) -> Option<u8> {
    if 0x30 <= b <= 0x39 {
        Some((b - 0x30) as u8)
    } else if 0x61 <= b <= 0x66 {
        Some((b - 0x61 + 10) as u8)
    } else if 0x41 <= b <= 0x46 {
        Some((b - 0x41 + 10) as u8)
    } else {
        None
    }
}

/// What `u8::from_str_radix(_, 16)` reads from two bytes: two hexadecimal digits, or a '+'
/// and one digit.
pub open spec fn hex_pair_value(first: u8, second: u8) -> Option<u8> {
    if first == 0x2B {
        hex_digit_value(second)
    } else {
        match (hex_digit_value(first), hex_digit_value(second)) {
            (Some(high), Some(low)) => Some((high * 16 + low) as u8),
            _ => None,
        }
    }
}

/// The red, green and blue components of a colour text: six bytes after the leading '#'s,
/// read in pairs.
pub open spec fn spec_hex_to_rgb(bytes: Seq<u8>) -> Result<(u8, u8, u8), ()> {
    let t = without_hashes(bytes);
    if t.len() == 6 {
        match (hex_pair_value(t[0], t[1]), hex_pair_value(t[2], t[3]), hex_pair_value(t[4], t[5])) {
            (Some(r), Some(g), Some(b)) => Ok((r, g, b)),
            _ => Err(()),
        }
    } else {
        Err(())
    }
}

/// Whether reading a colour text would split the text inside a character: before the
/// third byte, or, once the first pair is read, before the fifth.
pub open spec fn hex_split_inside_char(bytes: Seq<u8>) -> bool {
    let t = without_hashes(bytes);
    &&& t.len() == 6
    &&& (is_continuation_byte(t[2]) || (hex_pair_value(t[0], t[1]) is Some
        && is_continuation_byte(t[4])))
}

fn hex_digit(b: u8) -> (value: Option<u8>)
    ensures
        value == hex_digit_value(b),
{
    if 0x30 <= b && b <= 0x39 {
        Some(b - 0x30)
    } else if 0x61 <= b && b <= 0x66 {
        Some(b - 0x61 + 10)
    } else if 0x41 <= b && b <= 0x46 {
        Some(b - 0x41 + 10)
    } else {
        None
    }
}

fn hex_pair(first: u8, second: u8) -> (value: Option<u8>)
    ensures
        value == hex_pair_value(first, second),
{
    if first == 0x2B {
        return hex_digit(second);
    }
    match (hex_digit(first), hex_digit(second)) {
        (Some(high), Some(low)) => Some(high * 16 + low),
        _ => None,
    }
}

fn count_leading_hashes(bytes: &[u8]) -> (start: usize)
    ensures
        start == leading_hashes(bytes@),
        start <= bytes@.len(),
        without_hashes(bytes@) =~= bytes@.subrange(start as int, bytes@.len() as int),
{
    let n = bytes.len();
    let mut start: usize = 0;
    assert(bytes@.subrange(0, n as int) =~= bytes@);
    while start < n && bytes[start] == 0x23
        invariant
            n == bytes@.len(),
            start <= n,
            leading_hashes(bytes@) == start + leading_hashes(bytes@.subrange(start as int, n as int)),
        decreases n - start,
    {
        let ghost rest = bytes@.subrange(start as int, n as int);
        assert(rest.drop_first() =~= bytes@.subrange(start + 1, n as int));
        start = start + 1;
    }
    proof {
        let rest = bytes@.subrange(start as int, n as int);
        assert(leading_hashes(rest) == 0);
    }
    start
}

/// Whether reading the colour text would split it inside a character.
pub fn hex_splits_char(hex: &str) -> (splits: bool)
    ensures
        splits == hex_split_inside_char(hex.spec_bytes()),
{
    let bytes = hex.as_bytes();
    let start = count_leading_hashes(bytes);
    if bytes.len() - start != 6 {
        return false;
    }
    let is_cont = |b: u8| -> (c: bool)
        ensures
            c == is_continuation_byte(b),
        { 0x80 <= b && b <= 0xBF };
    is_cont(bytes[start + 2]) || (hex_pair(bytes[start], bytes[start + 1]).is_some() && is_cont(
        bytes[start + 4],
    ))
}

/// The red, green and blue components of a colour given as `#rrggbb` (any number of
/// leading '#'s, upper- or lower-case digits).
pub fn hex_to_rgb(hex: &str) -> (rgb: Result<(u8, u8, u8), ()>)
    requires
        !hex_split_inside_char(hex.spec_bytes()),
    ensures
        rgb == spec_hex_to_rgb(hex.spec_bytes()),
{
    let bytes = hex.as_bytes();
    let n = bytes.len();
    let start = count_leading_hashes(bytes);
    if n - start == 6 {
        if let Some(r) = hex_pair(bytes[start], bytes[start + 1]) {
            if let Some(g) = hex_pair(bytes[start + 2], bytes[start + 3]) {
                if let Some(b) = hex_pair(bytes[start + 4], bytes[start + 5]) {
                    return Ok((r, g, b));
                }
            }
        }
    }
    Err(())
}

/// Colour shades used when a colour cannot be read: the background, then four greys from
/// light to dark.
pub fn fallback_color_shades(bg_color: &str) -> (shades: Vec<String>)
    ensures
        shades@.len() == 5,
        shades@[0]@ == bg_color@,
        shades@[1]@ == "hsl(0, 0%, 70%)"@,
        shades@[2]@ == "hsl(0, 0%, 50%)"@,
        shades@[3]@ == "hsl(0, 0%, 35%)"@,
        shades@[4]@ == "hsl(0, 0%, 20%)"@,
{
    let mut shades: Vec<String> = Vec::new();
    shades.push(String::from_str(bg_color));
    shades.push(String::from_str("hsl(0, 0%, 70%)"));
    shades.push(String::from_str("hsl(0, 0%, 50%)"));
    shades.push(String::from_str("hsl(0, 0%, 35%)"));
    shades.push(String::from_str("hsl(0, 0%, 20%)"));
    shades
}

/// The hexadecimal digit byte of a value below 16, its letters in upper case or lower case.
pub open spec fn hex_digit_byte(v: u8, upper: bool) -> u8 {
    if v < 10 {
        (0x30 + v) as u8
    } else if upper {
        (0x41 + v - 10) as u8
    } else {
        (0x61 + v - 10) as u8
    }
}

/// The six hexadecimal digits of a colour, two for each component.
pub open spec fn rgb_hex_bytes(r: u8, g: u8, b: u8, upper: bool) -> Seq<u8> {
    seq![
        hex_digit_byte(r / 16, upper),
        hex_digit_byte(r % 16, upper),
        hex_digit_byte(g / 16, upper),
        hex_digit_byte(g % 16, upper),
        hex_digit_byte(b / 16, upper),
        hex_digit_byte(b % 16, upper),
    ]
}

proof fn lemma_hex_pair_of_byte(v: u8, upper: bool)
    ensures
        hex_pair_value(hex_digit_byte(v / 16, upper), hex_digit_byte(v % 16, upper)) == Some(v),
        !is_continuation_byte(hex_digit_byte(v / 16, upper)),
        hex_digit_byte(v / 16, upper) != 0x23,
{
    assert(v / 16 * 16 + v % 16 == v);
}

/// A colour written as six hexadecimal digits, in upper or lower case, with or without a
/// leading '#', reads back as the same colour, and reading it splits no character.
pub proof fn lemma_hex_roundtrip(r: u8, g: u8, b: u8, upper: bool, with_hash: bool)
    ensures
        ({
            let digits = rgb_hex_bytes(r, g, b, upper);
            let text = if with_hash { seq![0x23u8] + digits } else { digits };
            &&& spec_hex_to_rgb(text) == Ok::<(u8, u8, u8), ()>((r, g, b))
            &&& !hex_split_inside_char(text)
        }),
{
    let digits = rgb_hex_bytes(r, g, b, upper);
    lemma_hex_pair_of_byte(r, upper);
    lemma_hex_pair_of_byte(g, upper);
    lemma_hex_pair_of_byte(b, upper);
    assert(leading_hashes(digits) == 0);
    assert(without_hashes(digits) =~= digits);
    if with_hash {
        let text = seq![0x23u8] + digits;
        assert(text.drop_first() =~= digits);
        assert(leading_hashes(text) == 1);
        assert(without_hashes(text) =~= digits);
    }
}

} // verus!
