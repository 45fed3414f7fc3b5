use ytdlp_gui::text::{
    chars_of, decode_output, is_white_space_char, last_line, lines_of, owned, split_bytes,
    split_chars, string_of, strip_prefix, trim,
};

#[test]
fn trim_removes_surrounding_white_space() {
    assert_eq!(trim("  hello world \t\n"), "hello world");
    assert_eq!(trim("\u{3000}x\u{a0}"), "x");
    assert_eq!(trim("   "), "");
    assert_eq!(trim(""), "");
    assert_eq!(trim("a b"), "a b");
}

#[test]
fn white_space_matches_std() {
    for c in ['\t', '\n', '\u{b}', '\u{c}', '\r', ' ', '\u{85}', '\u{a0}', '\u{1680}', '\u{2000}', '\u{200a}', '\u{2028}', '\u{2029}', '\u{202f}', '\u{205f}', '\u{3000}'] {
        assert!(is_white_space_char(c), "{:?}", c);
        assert!(c.is_whitespace());
    }
    for c in ['a', '0', '\u{200b}', '\u{180e}', '_', '\u{feff}'] {
        assert!(!is_white_space_char(c), "{:?}", c);
        assert!(!c.is_whitespace());
    }
}

#[test]
fn lines_follow_str_lines() {
    for s in ["", "a", "a\n", "a\nb", "a\r\nb\r\n", "\n", "a\n\nb", "x\r", "a\n\n", "\r\n\r\n"] {
        let expected: Vec<String> = s.lines().map(|l| l.to_string()).collect();
        assert_eq!(lines_of(s), expected, "{:?}", s);
    }
}

#[test]
fn last_line_of_text() {
    assert_eq!(last_line("one\ntwo\n"), Some("two".to_string()));
    assert_eq!(last_line("one\ntwo\r\n"), Some("two".to_string()));
    assert_eq!(last_line(""), None);
    assert_eq!(last_line("\n"), Some("".to_string()));
}

#[test]
fn strip_prefix_follows_std() {
    assert_eq!(strip_prefix("__ENTRY__|Title", "__ENTRY__|"), Some("Title".to_string()));
    assert_eq!(strip_prefix("__ENTRY__|", "__ENTRY__|"), Some("".to_string()));
    assert_eq!(strip_prefix("__FILE__|x", "__ENTRY__|"), None);
    assert_eq!(strip_prefix("ab", "abc"), None);
}

#[test]
fn splitting_keeps_empty_pieces() {
    let v: Vec<char> = "a||b|".chars().collect();
    let parts = split_chars(&v, '|');
    let parts: Vec<String> = parts.iter().map(|p| p.iter().collect()).collect();
    assert_eq!(parts, vec!["a", "", "b", ""]);
    let e: Vec<char> = Vec::new();
    assert_eq!(split_chars(&e, '|').len(), 1);
    assert_eq!(split_bytes(b"ab\ncd\n", b'\n'), vec![b"ab".to_vec(), b"cd".to_vec(), vec![]]);
}

#[test]
fn chars_and_substrings() {
    let v = chars_of("héllo");
    assert_eq!(v, vec!['h', 'é', 'l', 'l', 'o']);
    assert_eq!(string_of(&v, 1, 4), "éll");
    assert_eq!(owned("x"), "x");
}

#[test]
fn decode_valid_utf8() {
    assert_eq!(decode_output("D:\\下载\\a.mp4".as_bytes(), None), "D:\\下载\\a.mp4");
    // A code page decoding is only used for bytes that are not UTF-8.
    assert_eq!(decode_output(b"abc", Some("zzz".to_string())), "abc");
}

#[test]
fn decode_invalid_utf8() {
    assert_eq!(decode_output(&[0x61, 0xff, 0x62], None), "a\u{fffd}b");
    assert_eq!(decode_output(&[0xc4, 0xe3], Some("你".to_string())), "你");
}
