use lsl::text::{
    alphanumeric, blank, chars_of, contains, ends_with, format_decimal, format_hex_octet, has_char,
    pad, parse_u32, same, split_byte_lines, split_fields, split_lines, split_words, starts_with,
    string_of, trim,
};

#[test]
fn trimming_strips_both_ends_only() {
    assert_eq!(trim("  a b \t\n"), "a b");
    assert_eq!(trim(""), "");
    assert_eq!(trim(" \n "), "");
    assert_eq!(trim("\u{a0}x\u{2003}"), "x");
    assert_eq!(trim("\u{200b}x"), "\u{200b}x");
}

#[test]
fn blanks_are_unicode_white_space() {
    for c in [' ', '\t', '\n', '\r', '\u{b}', '\u{c}', '\u{85}', '\u{a0}', '\u{3000}', '\u{2028}'] {
        assert!(blank(c));
        assert!(c.is_whitespace());
    }
    for c in ['a', '0', '\u{200b}', '\u{feff}'] {
        assert!(!blank(c));
    }
}

#[test]
fn blank_agrees_with_the_standard_library_everywhere() {
    for n in 0..=0x10ffffu32 {
        if let Some(c) = char::from_u32(n) {
            assert_eq!(blank(c), c.is_whitespace());
        }
    }
}

#[test]
fn fields_keep_empty_pieces() {
    assert_eq!(split_fields("a:b:c", ':'), ["a", "b", "c"]);
    assert_eq!(split_fields("", ':'), [""]);
    assert_eq!(split_fields(":", ':'), ["", ""]);
    assert_eq!(split_fields("a::b:", ':'), ["a", "", "b", ""]);
}

#[test]
fn fields_joined_again_give_the_text() {
    let text = "root:x:0:0:root:/root:/bin/bash";
    assert_eq!(split_fields(text, ':').join(":"), text);
    assert_eq!(split_fields("a::b:", ':').join(":"), "a::b:");
}

#[test]
fn words_drop_white_space() {
    assert_eq!(split_words("  wlan0\t00000000  0102A8C0 "), ["wlan0", "00000000", "0102A8C0"]);
    assert!(split_words(" \t ").is_empty());
    assert!(split_words("").is_empty());
}

#[test]
fn lines_drop_their_endings() {
    assert_eq!(split_lines("a\nb\n"), ["a", "b"]);
    assert_eq!(split_lines("a\r\nb"), ["a", "b"]);
    assert_eq!(split_lines("a\n\nb"), ["a", "", "b"]);
    assert!(split_lines("").is_empty());
    assert_eq!(split_lines("\n"), [""]);
    for odd in ["x\r\ny\rz\n\r\n", "a\r", "a\r\r\n", "\r", "\r\n", "a\n\r"] {
        assert_eq!(split_lines(odd), odd.lines().collect::<Vec<_>>());
    }
}

#[test]
fn lines_of_bytes_drop_their_endings() {
    let all = split_byte_lines(b"a\r\nb\n\xff");
    assert_eq!(all, [b"a".to_vec(), b"b".to_vec(), vec![0xff]]);
    assert!(split_byte_lines(b"").is_empty());
    for odd in ["x\r\ny\rz\n\r\n", "a\r", "a\r\r\n", "\r", "\r\n", "a\n\r"] {
        let read: Vec<Vec<u8>> = std::io::BufRead::lines(odd.as_bytes())
            .map(|line| line.unwrap().into_bytes())
            .collect();
        assert_eq!(split_byte_lines(odd.as_bytes()), read);
    }
}

#[test]
fn numbers_are_read_like_the_standard_library_reads_them() {
    let texts = [
        "0", "7", "+7", "007", "4294967295", "4294967296", "99999999999999999999", "", "+", "-1",
        "1a", " 1", "1 ", "++1", "\u{0663}",
    ];
    for text in texts {
        assert_eq!(parse_u32(text), text.parse::<u32>().ok());
    }
}

#[test]
fn numbers_written_are_read_back() {
    for n in [0, 1, 9, 10, 99, 100, 65535, 1234567890, u32::MAX] {
        assert_eq!(format_decimal(n), n.to_string());
        assert_eq!(parse_u32(&format_decimal(n)), Some(n));
    }
    assert_ne!(format_decimal(11), format_decimal(1));
}

#[test]
fn hexadecimal_octets_have_two_digits_at_least() {
    assert_eq!(format_hex_octet(0), "00");
    assert_eq!(format_hex_octet(1), "01");
    assert_eq!(format_hex_octet(10), "0a");
    assert_eq!(format_hex_octet(255), "ff");
    assert_eq!(format_hex_octet(256), "100");
    assert_eq!(format_hex_octet(4096), "1000");
}

#[test]
fn texts_are_searched() {
    assert!(contains("    inet 10.0.0.2/24", "inet "));
    assert!(!contains("    inet6 fe80::1", "inet "));
    assert!(contains("abc", ""));
    assert!(contains("", ""));
    assert!(!contains("", "a"));
    assert!(starts_with("sudo:x:27:", "sudo:"));
    assert!(!starts_with("sud", "sudo:"));
    assert!(ends_with("sudo:x:27:", ':'));
    assert!(!ends_with("", ':'));
    assert!(has_char("a\0b", '\0'));
    assert!(!has_char("ab", '\0'));
    assert!(same("dhcp", "dhcp"));
    assert!(!same("dhcp", "dhcpd"));
}

#[test]
fn letters_and_digits_of_any_script() {
    for c in ['a', 'Z', '0', '9', 'é', 'ß', '中', '٣', '_', '-', ':', ' ', '\n', '€'] {
        assert_eq!(alphanumeric(c), c.is_alphanumeric());
    }
}

#[test]
fn padding_counts_characters() {
    assert_eq!(pad("kali", 6), "kali  ");
    assert_eq!(pad("kali", 4), "kali");
    assert_eq!(pad("kali", 2), "kali");
    assert_eq!(pad("é", 3), format!("{:<3}", "é"));
    assert_eq!(pad("", 2), "  ");
}

#[test]
fn characters_make_up_a_text() {
    let chars = chars_of("né");
    assert_eq!(chars, ['n', 'é']);
    assert_eq!(string_of(&chars), "né");
}

#[test]
fn lines_of_a_text_are_lines_of_its_bytes() {
    let text = "root:x:0:\njürgen:x:1:\r\n\n€uro";
    let from_bytes: Vec<String> = split_byte_lines(text.as_bytes())
        .into_iter()
        .map(|line| String::from_utf8(line).unwrap())
        .collect();
    assert_eq!(from_bytes, split_lines(text));
}
