//! Colors: RGB triples, hex-string decoding and encoding, and the fixed
//! built-in palette.

use vstd::prelude::*;

verus! {

/// One fully opaque color: red, green and blue channel values.
#[derive(Clone, Copy, PartialEq, Eq, Structural, Debug)]
pub struct Rgb {
    pub r: u8,
    pub g: u8,
    pub b: u8,
}

impl Rgb {
    pub fn new(r: u8, g: u8, b: u8) -> (c: Rgb)
        ensures
            c == (Rgb { r, g, b }),
    {
        Rgb { r, g, b }
    }
}

/// The one failure the engine can report: a hex color string that is not
/// exactly six hexadecimal digits after the optional `#` prefix.
#[derive(Clone, Copy, PartialEq, Eq, Structural, Debug)]
pub enum ColorError {
    MalformedColor,
}

/// Is `c` one of `0-9`, `a-f`, `A-F`?
pub open spec fn is_hex_digit(c: char) -> bool {
    ('0' <= c && c <= '9') || ('a' <= c && c <= 'f') || ('A' <= c && c <= 'F')
}

/// The numeric value of a hex digit (meaningful only when `is_hex_digit`).
pub open spec fn hex_val(c: char) -> int {
    if '0' <= c && c <= '9' {
        c as int - '0' as int
    } else if 'a' <= c && c <= 'f' {
        10 + c as int - 'a' as int
    } else {
        10 + c as int - 'A' as int
    }
}

/// The digits of a hex color string: the string with one leading `#`
/// stripped, if present.
pub open spec fn hex_body(s: Seq<char>) -> Seq<char> {
    if s.len() > 0 && s[0] == '#' {
        s.skip(1)
    } else {
        s
    }
}

/// A well-formed hex color string: exactly six hex digits after the
/// optional `#` prefix.
pub open spec fn valid_hex(s: Seq<char>) -> bool {
    let b = hex_body(s);
    b.len() == 6 && forall|i: int| 0 <= i < 6 ==> is_hex_digit(#[trigger] b[i])
}

/// The color a well-formed hex string denotes: consecutive two-digit
/// groups read as base-16 integers.
pub open spec fn decoded_rgb(s: Seq<char>) -> Rgb {
    let b = hex_body(s);
    Rgb {
        r: (hex_val(b[0]) * 16 + hex_val(b[1])) as u8,
        g: (hex_val(b[2]) * 16 + hex_val(b[3])) as u8,
        b: (hex_val(b[4]) * 16 + hex_val(b[5])) as u8,
    }
}

/// The numeric value of one hex digit, or `None` for any other character.
fn hex_digit(c: char) -> (o: Option<u8>)
    ensures
        is_hex_digit(c) ==> o == Some((hex_val(c)) as u8),
        !is_hex_digit(c) ==> o is None,
{
    let u = c as u32;
    if 48 <= u && u <= 57 {
        Some((u - 48) as u8)
    } else if 97 <= u && u <= 102 {
        Some((u - 97 + 10) as u8)
    } else if 65 <= u && u <= 70 {
        Some((u - 65 + 10) as u8)
    } else {
        None
    }
}

/// The channel value of two hex digits, or `None` if either is not one.
fn hex_pair(c1: char, c2: char) -> (o: Option<u8>)
    ensures
        is_hex_digit(c1) && is_hex_digit(c2) ==> o == Some(
            (hex_val(c1) * 16 + hex_val(c2)) as u8,
        ),
        !(is_hex_digit(c1) && is_hex_digit(c2)) ==> o is None,
{
    match (hex_digit(c1), hex_digit(c2)) {
        (Some(v1), Some(v2)) => Some(v1 * 16 + v2),
        _ => None,
    }
}

/// Parses a 6-hex-digit string, with or without a leading `#`, into its
/// three 8-bit channels; any other input is `MalformedColor`.
pub fn decode_hex(s: &str) -> (r: Result<Rgb, ColorError>)
    ensures
        valid_hex(s@) ==> r == Ok::<Rgb, ColorError>(decoded_rgb(s@)),
        !valid_hex(s@) ==> r == Err::<Rgb, ColorError>(ColorError::MalformedColor),
{
    let n = s.unicode_len();
    let start: usize = if n >= 1 && s.get_char(0) == '#' {
        1
    } else {
        0
    };
    if n - start != 6 {
        return Err(ColorError::MalformedColor);
    }
    let p1 = hex_pair(s.get_char(start), s.get_char(start + 1));
    let p2 = hex_pair(s.get_char(start + 2), s.get_char(start + 3));
    let p3 = hex_pair(s.get_char(start + 4), s.get_char(start + 5));
    match (p1, p2, p3) {
        (Some(r), Some(g), Some(b)) => Ok(Rgb { r, g, b }),
        _ => Err(ColorError::MalformedColor),
    }
}

/// The lowercase hex digit for a value below 16.
pub open spec fn hex_char(n: int) -> char {
    if n < 10 {
        (('0' as int + n) as u32) as char
    } else {
        (('a' as int + n - 10) as u32) as char
    }
}

/// The canonical encoding of a color: `#` then six lowercase hex digits.
pub open spec fn encode_spec(c: Rgb) -> Seq<char> {
    seq![
        '#',
        hex_char(c.r as int / 16),
        hex_char(c.r as int % 16),
        hex_char(c.g as int / 16),
        hex_char(c.g as int % 16),
        hex_char(c.b as int / 16),
        hex_char(c.b as int % 16),
    ]
}

/// The one-character string holding the lowercase hex digit of `n`.
fn hex_str(n: u8) -> (s: &'static str)
    requires
        n < 16,
    ensures
        s@ =~= seq![hex_char(n as int)],
{
    proof {
        reveal_strlit("0");
        reveal_strlit("1");
        reveal_strlit("2");
        reveal_strlit("3");
        reveal_strlit("4");
        reveal_strlit("5");
        reveal_strlit("6");
        reveal_strlit("7");
        reveal_strlit("8");
        reveal_strlit("9");
        reveal_strlit("a");
        reveal_strlit("b");
        reveal_strlit("c");
        reveal_strlit("d");
        reveal_strlit("e");
        reveal_strlit("f");
    }
    match n {
        0 => "0",
        1 => "1",
        2 => "2",
        3 => "3",
        4 => "4",
        5 => "5",
        6 => "6",
        7 => "7",
        8 => "8",
        9 => "9",
        10 => "a",
        11 => "b",
        12 => "c",
        13 => "d",
        14 => "e",
        _ => "f",
    }
}

/// Renders a color as its canonical hex string: `#` then six lowercase
/// hex digits, two per channel.
pub fn encode_hex(c: Rgb) -> (s: String)
    ensures
        s@ =~= encode_spec(c),
{
    proof {
        reveal_strlit("#");
    }
    let mut s = String::from_str("#");
    s.append(hex_str(c.r / 16));
    s.append(hex_str(c.r % 16));
    s.append(hex_str(c.g / 16));
    s.append(hex_str(c.g % 16));
    s.append(hex_str(c.b / 16));
    s.append(hex_str(c.b % 16));
    s
}

/// Law: decoding a canonical encoding gives back the encoded color, for
/// every color. (`decode_hex` is a left inverse of `encode_hex`.)
pub proof fn lemma_decode_encode(c: Rgb)
    ensures
        valid_hex(encode_spec(c)),
        decoded_rgb(encode_spec(c)) == c,
{
    let s = encode_spec(c);
    let b = hex_body(s);
    assert(s[0] == '#');
    assert(b =~= s.skip(1));
    lemma_hex_char_val(c.r as int / 16);
    lemma_hex_char_val(c.r as int % 16);
    lemma_hex_char_val(c.g as int / 16);
    lemma_hex_char_val(c.g as int % 16);
    lemma_hex_char_val(c.b as int / 16);
    lemma_hex_char_val(c.b as int % 16);
    assert(forall|i: int| 0 <= i < 6 ==> is_hex_digit(#[trigger] b[i]));
    assert(hex_val(b[0]) * 16 + hex_val(b[1]) == c.r);
    assert(hex_val(b[2]) * 16 + hex_val(b[3]) == c.g);
    assert(hex_val(b[4]) * 16 + hex_val(b[5]) == c.b);
}

/// How many colors the built-in palette holds.
pub const PALETTE_LEN: u32 = 31;

/// The hex string of palette entry `i` (meaningful for `0 <= i < 31`).
pub open spec fn palette_spec(i: int) -> Seq<char> {
    if i == 0 { "#f19072"@ }
    else if i == 1 { "#e4dc8a"@ }
    else if i == 2 { "#f8f4e6"@ }
    else if i == 3 { "#b7282e"@ }
    else if i == 4 { "#f09199"@ }
    else if i == 5 { "#fef4f4"@ }
    else if i == 6 { "#c39143"@ }
    else if i == 7 { "#8a3b00"@ }
    else if i == 8 { "#f08300"@ }
    else if i == 9 { "#ed6d3d"@ }
    else if i == 10 { "#ee7800"@ }
    else if i == 11 { "#eb6101"@ }
    else if i == 12 { "#ffd900"@ }
    else if i == 13 { "#ffec47"@ }
    else if i == 14 { "#f8b500"@ }
    else if i == 15 { "#e6b422"@ }
    else if i == 16 { "#2f5d50"@ }
    else if i == 17 { "#007b43"@ }
    else if i == 18 { "#7ebeab"@ }
    else if i == 19 { "#98d98e"@ }
    else if i == 20 { "#dccb18"@ }
    else if i == 21 { "#928c36"@ }
    else if i == 22 { "#38b48b"@ }
    else if i == 23 { "#bce2e8"@ }
    else if i == 24 { "#a0d8ef"@ }
    else if i == 25 { "#4c6cb3"@ }
    else if i == 26 { "#0d0015"@ }
    else if i == 27 { "#bbbcde"@ }
    else if i == 28 { "#595857"@ }
    else if i == 29 { "#f3f3f3"@ }
    else { "#9d5b8b"@ }
}

/// The hex string of one palette entry.
pub fn palette_hex(i: u32) -> (s: &'static str)
    requires
        i < PALETTE_LEN,
    ensures
        s@ == palette_spec(i as int),
{
    match i {
        0 => "#f19072",
        1 => "#e4dc8a",
        2 => "#f8f4e6",
        3 => "#b7282e",
        4 => "#f09199",
        5 => "#fef4f4",
        6 => "#c39143",
        7 => "#8a3b00",
        8 => "#f08300",
        9 => "#ed6d3d",
        10 => "#ee7800",
        11 => "#eb6101",
        12 => "#ffd900",
        13 => "#ffec47",
        14 => "#f8b500",
        15 => "#e6b422",
        16 => "#2f5d50",
        17 => "#007b43",
        18 => "#7ebeab",
        19 => "#98d98e",
        20 => "#dccb18",
        21 => "#928c36",
        22 => "#38b48b",
        23 => "#bce2e8",
        24 => "#a0d8ef",
        25 => "#4c6cb3",
        26 => "#0d0015",
        27 => "#bbbcde",
        28 => "#595857",
        29 => "#f3f3f3",
        _ => "#9d5b8b",
    }
}

/// Does `c` appear in the built-in palette?
pub open spec fn in_palette(c: Rgb) -> bool {
    exists|i: int| 0 <= i < PALETTE_LEN && c == decoded_rgb(palette_spec(i))
}

/// Every built-in palette entry is a well-formed hex color string.
pub proof fn lemma_palette_valid(i: int)
    requires
        0 <= i < PALETTE_LEN,
    ensures
        valid_hex(palette_spec(i)),
{
    reveal_strlit("#f19072");
    reveal_strlit("#e4dc8a");
    reveal_strlit("#f8f4e6");
    reveal_strlit("#b7282e");
    reveal_strlit("#f09199");
    reveal_strlit("#fef4f4");
    reveal_strlit("#c39143");
    reveal_strlit("#8a3b00");
    reveal_strlit("#f08300");
    reveal_strlit("#ed6d3d");
    reveal_strlit("#ee7800");
    reveal_strlit("#eb6101");
    reveal_strlit("#ffd900");
    reveal_strlit("#ffec47");
    reveal_strlit("#f8b500");
    reveal_strlit("#e6b422");
    reveal_strlit("#2f5d50");
    reveal_strlit("#007b43");
    reveal_strlit("#7ebeab");
    reveal_strlit("#98d98e");
    reveal_strlit("#dccb18");
    reveal_strlit("#928c36");
    reveal_strlit("#38b48b");
    reveal_strlit("#bce2e8");
    reveal_strlit("#a0d8ef");
    reveal_strlit("#4c6cb3");
    reveal_strlit("#0d0015");
    reveal_strlit("#bbbcde");
    reveal_strlit("#595857");
    reveal_strlit("#f3f3f3");
    reveal_strlit("#9d5b8b");
    let s = palette_spec(i);
    assert(s.len() == 7 && s[0] == '#');
    assert(hex_body(s) =~= s.skip(1));
    assert(forall|k: int| 0 <= k < 6 ==> is_hex_digit(#[trigger] hex_body(s)[k]));
}

/// A hex digit produced by `hex_char` reads back as its value.
pub proof fn lemma_hex_char_val(n: int)
    requires
        0 <= n < 16,
    ensures
        is_hex_digit(hex_char(n)),
        hex_val(hex_char(n)) == n,
{
    if n < 10 {
        assert('0' <= hex_char(n) && hex_char(n) <= '9');
    } else {
        assert('a' <= hex_char(n) && hex_char(n) <= 'f');
    }
}

} // verus!
