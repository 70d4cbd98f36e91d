use supercollider_mcp::text::{
    decimal_string, is_blank, is_white_space, join_strings, str_chars, text_contains,
};

#[test]
fn decimal_rendering() {
    assert_eq!(decimal_string(0), "0");
    assert_eq!(decimal_string(7), "7");
    assert_eq!(decimal_string(10), "10");
    assert_eq!(decimal_string(1234567890), "1234567890");
    assert_eq!(decimal_string(u64::MAX), u64::MAX.to_string());
}

#[test]
fn substring_search() {
    assert!(text_contains("hello world", "lo w"));
    assert!(text_contains("abc", ""));
    assert!(text_contains("", ""));
    assert!(!text_contains("ab", "abc"));
    assert!(text_contains("ababc", "abc"));
    assert!(!text_contains("ABC", "abc"));
    assert!(text_contains("grüße", "üß"));
}

#[test]
fn chars_of_a_string() {
    assert_eq!(str_chars("aé—"), vec!['a', 'é', '—']);
    assert!(str_chars("").is_empty());
}

#[test]
fn joining_strings() {
    let parts = vec!["x".to_string(), "yy".to_string(), "".to_string()];
    assert_eq!(join_strings(&parts, ", "), "x, yy, ");
    assert_eq!(join_strings(&vec![], ", "), "");
    assert_eq!(join_strings(&vec!["only".to_string()], "--"), "only");
}

#[test]
fn white_space_matches_std() {
    for c in ['\t', '\n', '\u{b}', '\u{c}', '\r', ' ', '\u{85}', '\u{a0}', '\u{1680}', '\u{2000}',
        '\u{200a}', '\u{2028}', '\u{2029}', '\u{202f}', '\u{205f}', '\u{3000}'] {
        assert!(is_white_space(c), "{:?}", c);
    }
    for c in ['a', '0', '\u{200b}', '\u{feff}', '\u{180e}', '_', '\u{0}'] {
        assert!(!is_white_space(c), "{:?}", c);
    }
    for u in 0u32..0x3100 {
        if let Some(c) = char::from_u32(u) {
            assert_eq!(is_white_space(c), c.is_whitespace(), "{:?}", c);
        }
    }
}

#[test]
fn blank_is_empty_after_trim() {
    for s in ["", " ", "\t\n ", "\u{3000}", " a ", "a", "  b"] {
        assert_eq!(is_blank(s), s.trim().is_empty(), "{:?}", s);
    }
}
