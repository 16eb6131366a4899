use http_server::bytes::{
    append_bytes, byte_is_space, bytes_eq, find_byte, find_line_end, lowered_eq, space_width_at,
    space_width_before, starts_with, trim_bytes,
};
use http_server::decimal::{parse_number, to_decimal};
use http_server::text::{decode_text, str_eq, str_starts_with, strip_prefix};

#[test]
fn find_byte_gives_first_occurrence_or_length() {
    assert_eq!(find_byte(b"a b c", b' ', 0), 1);
    assert_eq!(find_byte(b"a b c", b' ', 2), 3);
    assert_eq!(find_byte(b"a b c", b' ', 4), 5);
    assert_eq!(find_byte(b"abc", b' ', 0), 3);
    assert_eq!(find_byte(b"", b' ', 0), 0);
    assert_eq!(find_byte(b" ", b' ', 1), 1);
}

#[test]
fn find_line_end_needs_both_bytes() {
    assert_eq!(find_line_end(b"ab\r\ncd", 0), 2);
    assert_eq!(find_line_end(b"ab\r\ncd", 3), 6);
    assert_eq!(find_line_end(b"ab\rcd\n", 0), 6);
    assert_eq!(find_line_end(b"ab\r", 0), 3);
    assert_eq!(find_line_end(b"\r\r\n", 0), 1);
    assert_eq!(find_line_end(b"\r\n", 0), 0);
    assert_eq!(find_line_end(b"", 0), 0);
}

#[test]
fn trim_cuts_whitespace_at_both_ends_only() {
    assert_eq!(trim_bytes(b"  a b \t"), b"a b");
    assert_eq!(trim_bytes(b"\r\n\x0b\x0cx\r\n"), b"x");
    assert_eq!(trim_bytes(b"abc"), b"abc");
    assert_eq!(trim_bytes(b"   "), b"");
    assert_eq!(trim_bytes(b""), b"");
    assert_eq!(trim_bytes(b"\x08a\x0e"), b"\x08a\x0e");
}

#[test]
fn trim_cuts_every_unicode_whitespace_character() {
    assert_eq!(trim_bytes("\u{a0}a b\u{a0}".as_bytes()), b"a b");
    assert_eq!(trim_bytes("\u{85}\u{1680}\u{2003} x \u{3000}\u{205f}\u{202f}".as_bytes()), b"x");
    assert_eq!(trim_bytes("\u{2028}\u{2029}\u{200a}\u{2000}".as_bytes()), b"");
    assert_eq!(trim_bytes("a\u{a0}b".as_bytes()), "a\u{a0}b".as_bytes());
    assert_eq!(trim_bytes("\u{200b}a\u{200b}".as_bytes()), "\u{200b}a\u{200b}".as_bytes());
    assert_eq!(trim_bytes("\u{feff}a\u{180e}".as_bytes()), "\u{feff}a\u{180e}".as_bytes());
    assert_eq!(trim_bytes("\u{e9} \u{e0}".as_bytes()), "\u{e9} \u{e0}".as_bytes());
}

#[test]
fn trim_agrees_with_the_standard_library_on_every_character() {
    for code in 0u32..=0x10ffff {
        let c = match char::from_u32(code) {
            Some(c) => c,
            None => continue,
        };
        let around = format!("{}{}x y{}{}", c, ' ', '\t', c);
        assert_eq!(trim_bytes(around.as_bytes()), around.trim().as_bytes(), "U+{:04X}", code);
        let alone = format!("{}", c);
        assert_eq!(trim_bytes(alone.as_bytes()), alone.trim().as_bytes(), "U+{:04X}", code);
        let inside = format!("a{}b", c);
        assert_eq!(trim_bytes(inside.as_bytes()), inside.as_bytes(), "U+{:04X}", code);
    }
}

#[test]
fn trim_leaves_pieces_of_characters_alone() {
    assert_eq!(trim_bytes(&[0xc2]), &[0xc2]);
    assert_eq!(trim_bytes(&[0xa0]), &[0xa0]);
    assert_eq!(trim_bytes(&[0xe2, 0x80]), &[0xe2, 0x80]);
    assert_eq!(trim_bytes(&[0x80, 0x80, b'a']), &[0x80, 0x80, b'a']);
    assert_eq!(trim_bytes(&[0xc2, 0xa0, 0xc2]), &[0xc2]);
    assert_eq!(trim_bytes(&[0xe2, 0xc2, 0xa0]), &[0xe2]);
    assert_eq!(trim_bytes(&[0xff, b' ', 0xff]), &[0xff, b' ', 0xff]);
}

#[test]
fn whitespace_widths_are_one_two_or_three_bytes() {
    let text = " \u{a0}\u{2003}x\u{3000}".as_bytes();
    assert_eq!(space_width_at(text, 0), 1);
    assert_eq!(space_width_at(text, 1), 2);
    assert_eq!(space_width_at(text, 2), 0);
    assert_eq!(space_width_at(text, 3), 3);
    assert_eq!(space_width_at(text, 6), 0);
    assert_eq!(space_width_at(text, 7), 3);
    assert_eq!(space_width_at(text, text.len()), 0);
    assert_eq!(space_width_before(text, 0, text.len()), 3);
    assert_eq!(space_width_before(text, 8, text.len()), 0);
    assert_eq!(space_width_before(text, 0, 7), 0);
    assert_eq!(space_width_before(text, 0, 6), 3);
    assert_eq!(space_width_before(text, 0, 3), 2);
    assert_eq!(space_width_before(text, 2, 3), 0);
    assert_eq!(space_width_before(text, 0, 1), 1);
    assert_eq!(space_width_before(text, 0, 0), 0);
}

#[test]
fn whitespace_bytes_are_six() {
    let spaces: Vec<u8> = (0u8..=255).filter(|b| byte_is_space(*b)).collect();
    assert_eq!(spaces, vec![0x09, 0x0a, 0x0b, 0x0c, 0x0d, 0x20]);
}

#[test]
fn byte_strings_compare() {
    assert!(bytes_eq(b"abc", b"abc"));
    assert!(!bytes_eq(b"abc", b"abd"));
    assert!(!bytes_eq(b"abc", b"ab"));
    assert!(bytes_eq(b"", b""));
    assert!(starts_with(b"/echo/x", b"/echo"));
    assert!(starts_with(b"/echo", b"/echo"));
    assert!(starts_with(b"/echo", b""));
    assert!(!starts_with(b"/ech", b"/echo"));
    assert!(!starts_with(b"/Echo", b"/echo"));
}

#[test]
fn lowered_comparison_lowers_the_left_side_only() {
    assert!(lowered_eq(b"HoSt", b"host"));
    assert!(lowered_eq(b"host", b"host"));
    assert!(!lowered_eq(b"host", b"HOST"));
    assert!(!lowered_eq(b"hos", b"host"));
    assert!(lowered_eq(b"@[`{", b"@[`{"));
    assert!(lowered_eq(b"AZ", b"az"));
}

#[test]
fn append_bytes_keeps_what_was_there() {
    let mut buffer = vec![1u8, 2];
    append_bytes(&mut buffer, &[3, 4, 5]);
    assert_eq!(buffer, vec![1, 2, 3, 4, 5]);
    append_bytes(&mut buffer, &[]);
    assert_eq!(buffer, vec![1, 2, 3, 4, 5]);
}

#[test]
fn decimal_writes_without_leading_zeros() {
    assert_eq!(to_decimal(0), "0");
    assert_eq!(to_decimal(7), "7");
    assert_eq!(to_decimal(10), "10");
    assert_eq!(to_decimal(404), "404");
    assert_eq!(to_decimal(1234567890), "1234567890");
    assert_eq!(to_decimal(usize::MAX), usize::MAX.to_string());
}

#[test]
fn numbers_are_digits_with_an_optional_plus() {
    assert_eq!(parse_number(b"0"), Some(0));
    assert_eq!(parse_number(b"5"), Some(5));
    assert_eq!(parse_number(b"007"), Some(7));
    assert_eq!(parse_number(b"+12"), Some(12));
    assert_eq!(parse_number(b"1234567890"), Some(1234567890));
    assert_eq!(parse_number(b""), None);
    assert_eq!(parse_number(b"+"), None);
    assert_eq!(parse_number(b"-1"), None);
    assert_eq!(parse_number(b"++1"), None);
    assert_eq!(parse_number(b"1+"), None);
    assert_eq!(parse_number(b"12a"), None);
    assert_eq!(parse_number(b" 12"), None);
    assert_eq!(parse_number(b"1.5"), None);
}

#[test]
fn numbers_beyond_the_machine_word_are_none() {
    let max = usize::MAX.to_string();
    assert_eq!(parse_number(max.as_bytes()), Some(usize::MAX));
    let beyond = format!("{}0", max);
    assert_eq!(parse_number(beyond.as_bytes()), None);
    let next = format!("{}", usize::MAX as u128 + 1);
    assert_eq!(parse_number(next.as_bytes()), None);
    assert_eq!(parse_number(b"99999999999999999999999999999x"), None);
}

#[test]
fn decimal_reads_back_what_it_wrote() {
    for n in [0usize, 1, 9, 10, 99, 100, 65535, 4294967295, usize::MAX] {
        assert_eq!(parse_number(to_decimal(n).as_bytes()), Some(n));
    }
}

#[test]
fn text_is_well_formed_utf8() {
    assert_eq!(decode_text(b"hello"), Some("hello".to_string()));
    assert_eq!(decode_text(b""), Some(String::new()));
    assert_eq!(decode_text("gr\u{fc}n \u{1f600}".as_bytes()), Some("gr\u{fc}n \u{1f600}".to_string()));
    assert_eq!(decode_text(&[0xff]), None);
    assert_eq!(decode_text(&[0xc3]), None);
    assert_eq!(decode_text(&[0xc0, 0x80]), None);
    assert_eq!(decode_text(&[0xed, 0xa0, 0x80]), None);
}

#[test]
fn strings_compare_and_strip() {
    assert!(str_eq("abc", "abc"));
    assert!(!str_eq("abc", "abC"));
    assert!(str_starts_with("/files/a", "/files"));
    assert!(!str_starts_with("/file", "/files"));
    assert!(str_starts_with("\u{e9}t\u{e9}", "\u{e9}"));
    assert!(!str_starts_with("\u{e9}t\u{e9}", "e"));
    assert_eq!(strip_prefix("/echo/abc", "/echo/"), Some("abc".to_string()));
    assert_eq!(strip_prefix("/echo/", "/echo/"), Some(String::new()));
    assert_eq!(strip_prefix("/echo", "/echo/"), None);
    assert_eq!(strip_prefix("\u{e9}\u{1f600}x", "\u{e9}"), Some("\u{1f600}x".to_string()));
}
