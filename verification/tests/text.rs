use quic_vid::text::{char_is_whitespace, parse_u64, trim_whitespace, u64_to_string};

#[test]
fn decimal_parsing_follows_u64_from_str() {
    for text in ["0", "+7", "007", "", "+", "-1", "1 2", "18446744073709551615", "18446744073709551616", "99999999999999999999x"] {
        assert_eq!(parse_u64(text), text.parse::<u64>().ok(), "{text:?}");
    }
}

#[test]
fn decimal_formatting_follows_u64_to_string() {
    for n in [0u64, 9, 10, 305, u64::MAX] {
        assert_eq!(u64_to_string(n), n.to_string());
    }
}

#[test]
fn white_space_follows_char_is_whitespace() {
    for c in ['\t', '\n', '\u{b}', '\u{c}', '\r', ' ', '\u{85}', '\u{a0}', '\u{1680}', '\u{2000}', '\u{200a}', '\u{200b}', '\u{2028}', '\u{2029}', '\u{202f}', '\u{205f}', '\u{3000}', 'a', '\u{feff}'] {
        assert_eq!(char_is_whitespace(c), c.is_whitespace(), "{c:?}");
    }
    assert_eq!(trim_whitespace("\u{3000} x y\t"), "x y");
}
