use random_icon::color::{decode_hex, encode_hex, palette_hex, ColorError, Rgb, PALETTE_LEN};

#[test]
fn decode_plain_and_prefixed() {
    assert_eq!(decode_hex("#f19072"), Ok(Rgb { r: 0xf1, g: 0x90, b: 0x72 }));
    assert_eq!(decode_hex("f19072"), Ok(Rgb { r: 0xf1, g: 0x90, b: 0x72 }));
    assert_eq!(decode_hex("#000000"), Ok(Rgb { r: 0, g: 0, b: 0 }));
    assert_eq!(decode_hex("ffffff"), Ok(Rgb { r: 255, g: 255, b: 255 }));
}

#[test]
fn decode_uppercase() {
    assert_eq!(decode_hex("AABBCC"), Ok(Rgb { r: 170, g: 187, b: 204 }));
    assert_eq!(decode_hex("#FF000A"), Ok(Rgb { r: 255, g: 0, b: 10 }));
}

#[test]
fn decode_rejects_malformed() {
    assert_eq!(decode_hex(""), Err(ColorError::MalformedColor));
    assert_eq!(decode_hex("#"), Err(ColorError::MalformedColor));
    assert_eq!(decode_hex("#12345"), Err(ColorError::MalformedColor));
    assert_eq!(decode_hex("#1234567"), Err(ColorError::MalformedColor));
    assert_eq!(decode_hex("zzzzzz"), Err(ColorError::MalformedColor));
    assert_eq!(decode_hex("#12g456"), Err(ColorError::MalformedColor));
    assert_eq!(decode_hex("##12345"), Err(ColorError::MalformedColor));
    assert_eq!(decode_hex("#12345\u{00e9}"), Err(ColorError::MalformedColor));
}

#[test]
fn encode_exact() {
    assert_eq!(encode_hex(Rgb { r: 255, g: 0, b: 10 }).as_str(), "#ff000a");
    assert_eq!(encode_hex(Rgb { r: 0, g: 0, b: 0 }).as_str(), "#000000");
    assert_eq!(encode_hex(Rgb { r: 0xf1, g: 0x90, b: 0x72 }).as_str(), "#f19072");
}

#[test]
fn decode_is_left_inverse_of_encode() {
    let samples = [
        Rgb { r: 0, g: 0, b: 0 },
        Rgb { r: 255, g: 255, b: 255 },
        Rgb { r: 1, g: 2, b: 3 },
        Rgb { r: 16, g: 160, b: 250 },
        Rgb { r: 0x0d, g: 0x00, b: 0x15 },
    ];
    for c in samples {
        assert_eq!(decode_hex(encode_hex(c).as_str()), Ok(c));
    }
}

#[test]
fn palette_round_trip() {
    for i in 0..PALETTE_LEN {
        let s = palette_hex(i);
        let c = decode_hex(s).expect("palette entries are well-formed");
        assert_eq!(encode_hex(c).as_str(), s);
    }
}

#[test]
fn palette_has_31_distinct_entries() {
    let mut seen: Vec<&str> = Vec::new();
    for i in 0..PALETTE_LEN {
        let s = palette_hex(i);
        assert!(!seen.contains(&s));
        seen.push(s);
    }
    assert_eq!(seen.len(), 31);
}
