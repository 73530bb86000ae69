//! Texts against the standard library.

use background_system_monitor::text::{
    chars_of, contains_text, eq_ignore_ascii_case, parse_up_to, push_decimal, same_text,
    strip_prefix, to_ascii_lowercase, trim, trim_start_matches, utf16_lossy,
};

const TEXTS: [&str; 14] = [
    "", " ", "\t card0\n", "Intel Iris Plus", "GeForce", "\u{2003}x\u{a0}", "0x0x10DE", "+42", "card1-DP-1",
    "\u{c4}RGER", "aab", "aaab", "\u{3000}", "a b ",
];

#[test]
fn every_white_space_character_is_trimmed() {
    for code in 0..=0x10FFFFu32 {
        if let Some(c) = char::from_u32(code) {
            if c.is_whitespace() || code % 97 == 0 || code < 0x3100 {
                let text = format!("{c}x{c}");
                assert_eq!(trim(&text), text.trim(), "{code:x}");
            }
        }
    }
}

#[test]
fn texts_agree_with_the_standard_library() {
    for left in TEXTS {
        assert_eq!(trim(left), left.trim());
        assert_eq!(trim(trim(left)), trim(left));
        assert_eq!(to_ascii_lowercase(left), left.to_ascii_lowercase());
        assert_eq!(chars_of(left), left.chars().collect::<Vec<_>>());
        assert_eq!(trim_start_matches(left, "0x"), left.trim_start_matches("0x"));
        assert_eq!(trim_start_matches(left, "a"), left.trim_start_matches("a"));
        for right in TEXTS {
            assert_eq!(same_text(left, right), left == right);
            assert_eq!(contains_text(left, right), left.contains(right), "{left} {right}");
            assert_eq!(eq_ignore_ascii_case(left, right), left.eq_ignore_ascii_case(right));
            assert_eq!(strip_prefix(left, right), left.strip_prefix(right));
        }
    }
    assert!(contains_text("aaab", "aab"));
    assert!(eq_ignore_ascii_case("NVIDIA rtx", "nvidia RTX"));
}

#[test]
fn numbers_parse_as_the_standard_library_parses_them() {
    for text in [
        "", "+", "-", "0", "+0", "-0", "007", "+42", "++1", "18446744073709551615",
        "18446744073709551616", "99999999999999999999999", "1 ", " 1", "1a", "\u{661}", "12345",
        "000000000000000000000000000001",
    ] {
        assert_eq!(parse_up_to(text, u64::MAX), text.parse::<u64>().ok(), "{text}");
        assert_eq!(parse_up_to(text, u8::MAX as u64), text.parse::<u8>().ok().map(u64::from));
    }
}

#[test]
fn decimals_are_written_as_the_standard_library_writes_them() {
    for n in [0, 9, 10, 99, 100, 12_345, u64::MAX] {
        let mut text = "GPU ".to_owned();
        push_decimal(&mut text, n);
        assert_eq!(text, format!("GPU {n}"));
        assert_eq!(parse_up_to(&text[4..], u64::MAX), Some(n));
    }
}

#[test]
fn broken_utf16_is_replaced() {
    for units in [
        vec![],
        vec![0x41, 0xE9, 0xFFFD],
        vec![0xD83D, 0xDE00],
        vec![0xD83D],
        vec![0xDE00, 0x41],
        vec![0xD83D, 0x41],
        vec![0xD83D, 0xD83D, 0xDE00],
        vec![0xDBFF, 0xDFFF],
        vec![0xD800, 0xDC00, 0xDC00],
    ] {
        assert_eq!(utf16_lossy(&units), String::from_utf16_lossy(&units));
    }
}
